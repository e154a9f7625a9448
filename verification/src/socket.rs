//! The model of one client connection: its identity, tenant binding,
//! subscriptions, presence memberships and signed-in user.

use vstd::prelude::*;

use crate::strmap::{StrMap, StrSet};

verus! {

/// The user a socket signed in as.
pub struct User {
    pub id: String,
}

impl User {
    pub fn duplicate(&self) -> (r: Self)
        ensures
            r == *self,
    {
        User { id: self.id.clone() }
    }
}

/// What a presence channel records of one member.
pub struct PresenceMemberInfo {
    pub user_id: String,
    /// Opaque JSON the client supplied at authorization, carried verbatim.
    pub user_info: Option<String>,
}

/// The mathematical value of a `PresenceMemberInfo`.
pub ghost struct MemberView {
    pub user_id: Seq<char>,
    pub user_info: Option<Seq<char>>,
}

/// The view of an optional string.
pub open spec fn opt_str_view(o: Option<String>) -> Option<Seq<char>> {
    match o {
        Some(s) => Some(s@),
        None => None,
    }
}

impl View for PresenceMemberInfo {
    type V = MemberView;

    open spec fn view(&self) -> MemberView {
        MemberView { user_id: self.user_id@, user_info: opt_str_view(self.user_info) }
    }
}

impl PresenceMemberInfo {
    pub fn duplicate(&self) -> (r: Self)
        ensures
            r@ == self@,
    {
        let user_info = match &self.user_info {
            Some(s) => Some(s.clone()),
            None => None,
        };
        PresenceMemberInfo { user_id: self.user_id.clone(), user_info }
    }
}

/// The mathematical value of a socket: everything the registry's contracts
/// speak of.
pub ghost struct SocketView {
    pub id: Seq<char>,
    pub app_key: Option<Seq<char>>,
    pub subscribed: Set<Seq<char>>,
    pub presence: Map<Seq<char>, MemberView>,
    pub user: Option<Seq<char>>,
}

/// One client WebSocket session, as the registry sees it. The transport that
/// carries its frames lives outside; it is addressed by `id`.
pub struct WebSocket {
    pub id: String,
    pub app_key: Option<String>,
    pub subscribed_channels: StrSet,
    pub presence_channels: StrMap<PresenceMemberInfo>,
    pub user: Option<User>,
}

/// The member views of a presence map.
pub open spec fn presence_view(m: Map<Seq<char>, PresenceMemberInfo>) -> Map<
    Seq<char>,
    MemberView,
> {
    Map::new(|c: Seq<char>| m.dom().contains(c), |c: Seq<char>| m[c]@)
}

impl View for WebSocket {
    type V = SocketView;

    open spec fn view(&self) -> SocketView {
        SocketView {
            id: self.id@,
            app_key: opt_str_view(self.app_key),
            subscribed: self.subscribed_channels@,
            presence: presence_view(self.presence_channels@),
            user: match self.user {
                Some(ref u) => Some(u.id@),
                None => None,
            },
        }
    }
}

impl PartialEq for WebSocket {
    /// Two sockets are the same exactly when they carry the same id, as the
    /// registry keys them.
    fn eq(&self, other: &WebSocket) -> (r: bool) {
        crate::strmap::str_eq(self.id.as_str(), other.id.as_str())
    }
}

impl vstd::std_specs::cmp::PartialEqSpecImpl for WebSocket {
    open spec fn obeys_eq_spec() -> bool {
        true
    }

    open spec fn eq_spec(&self, other: &WebSocket) -> bool {
        self.id@ == other.id@
    }
}

impl WebSocket {
    /// A presence membership is only held on a channel the socket subscribes
    /// to.
    pub open spec fn wf(&self) -> bool {
        forall|c: Seq<char>|
            self@.presence.dom().contains(c) ==> #[trigger] self@.subscribed.contains(c)
    }

    /// A socket fresh from the handshake: no subscriptions, no memberships,
    /// no user.
    pub fn new(id: String) -> (r: Self)
        ensures
            r@.id == id@,
            r@.app_key is None,
            r@.subscribed == Set::<Seq<char>>::empty(),
            r@.presence == Map::<Seq<char>, MemberView>::empty(),
            r@.user is None,
            r.wf(),
    {
        let r = WebSocket {
            id,
            app_key: None,
            subscribed_channels: StrSet::new(),
            presence_channels: StrMap::new(),
            user: None,
        };
        proof {
            assert(r@.presence =~= Map::<Seq<char>, MemberView>::empty());
        }
        r
    }
}

} // verus!
