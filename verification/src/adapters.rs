//! The local routing surface: one registry per application, created lazily,
//! and the selection of fan-out targets for a publish — a channel's sockets
//! minus the sender, or one user's sockets for a `#server-to-<id>` name.

use vstd::prelude::*;

use crate::channel::{spec_user_target, user_target};
use crate::namespace::{
    after_join, after_leave, after_signin, after_signout, after_socket_removal, chan_set,
    member_ids_of, ns_inv, user_set, Namespace, NamespaceView,
};
use crate::socket::{MemberView, PresenceMemberInfo, SocketView, User, WebSocket};
use crate::strmap::StrMap;

verus! {

/// The registry an application would have if it has none yet.
pub open spec fn empty_ns(app: Seq<char>) -> NamespaceView {
    NamespaceView {
        app_id: app,
        sockets: Map::empty(),
        channels: Map::empty(),
        users: Map::empty(),
    }
}

/// The registry of an application, empty when none was created yet.
pub open spec fn ns_of(m: Map<Seq<char>, NamespaceView>, app: Seq<char>) -> NamespaceView {
    if m.dom().contains(app) {
        m[app]
    } else {
        empty_ns(app)
    }
}

/// The sockets a publish must reach: the channel's subscribers, or — for a
/// `#server-to-<id>` name — the sockets of that user; the excepted sender,
/// if any, is never among them.
pub open spec fn spec_send_targets(
    v: NamespaceView,
    channel: Seq<char>,
    except: Option<Seq<char>>,
) -> Set<Seq<char>> {
    let base = match spec_user_target(channel) {
        Some(u) => user_set(v, u),
        None => chan_set(v, channel),
    };
    match except {
        Some(e) => base.remove(e),
        None => base,
    }
}

/// `ids` lists exactly the elements of `s`, each once.
pub open spec fn ids_enumerate(ids: Seq<String>, s: Set<Seq<char>>) -> bool {
    &&& forall|i: int| 0 <= i < ids.len() ==> s.contains((#[trigger] ids[i])@)
    &&& forall|k: Seq<char>|
        s.contains(k) ==> exists|i: int| 0 <= i < ids.len() && (#[trigger] ids[i])@ == k
    &&& forall|i: int, j: int| 0 <= i < j < ids.len() ==> (ids[i])@ != (ids[j])@
}

/// The ids of `base` with `e` left out, each exactly once.
#[verifier::rlimit(60)]
pub fn filter_except(base: &Vec<String>, e: &str) -> (r: Vec<String>)
    requires
        forall|i: int, j: int| 0 <= i < j < base@.len() ==> (base@[i])@ != (base@[j])@,
    ensures
        forall|j: int|
            0 <= j < r@.len() ==> (exists|i: int|
                0 <= i < base@.len() && (#[trigger] r@[j])@ == (base@[i])@) && (r@[j])@ != e@,
        forall|i: int|
            0 <= i < base@.len() && (#[trigger] base@[i])@ != e@ ==> exists|j: int|
                0 <= j < r@.len() && (#[trigger] r@[j])@ == (base@[i])@,
        forall|i: int, j: int| 0 <= i < j < r@.len() ==> (r@[i])@ != (r@[j])@,
{
    let n = base.len();
    let mut r: Vec<String> = Vec::new();
    let mut i: usize = 0;
    while i < n
        invariant
            i <= n,
            n == base@.len(),
            forall|j1: int, j2: int| 0 <= j1 < j2 < n ==> (base@[j1])@ != (base@[j2])@,
            forall|j: int|
                0 <= j < r@.len() ==> (exists|j2: int|
                    0 <= j2 < i && (#[trigger] r@[j])@ == (base@[j2])@) && (r@[j])@ != e@,
            forall|j: int|
                0 <= j < i && (#[trigger] base@[j])@ != e@ ==> exists|j2: int|
                    0 <= j2 < r@.len() && (#[trigger] r@[j2])@ == (base@[j])@,
            forall|j1: int, j2: int| 0 <= j1 < j2 < r@.len() ==> (r@[j1])@ != (r@[j2])@,
        decreases n - i,
    {
        let ghost rpre = r@;
        if !crate::strmap::str_eq(base[i].as_str(), e) {
            proof {
                assert forall|j: int| 0 <= j < rpre.len() implies (rpre[j])@ != (
                base@[i as int])@ by {
                    let j2 = choose|j2: int| 0 <= j2 < i && (#[trigger] rpre[j])@ == (base@[j2])@;
                }
            }
            r.push(base[i].clone());
        }
        proof {
            assert forall|j: int|
                0 <= j < i + 1 && (#[trigger] base@[j])@ != e@ implies exists|j2: int|
                0 <= j2 < r@.len() && (#[trigger] r@[j2])@ == (base@[j])@ by {
                if j < i {
                    let j2 = choose|j2: int|
                        0 <= j2 < rpre.len() && (#[trigger] rpre[j2])@ == (base@[j])@;
                    assert((r@[j2])@ == (base@[j])@);
                } else {
                    assert((r@[r@.len() - 1])@ == (base@[j])@);
                }
            }
        }
        i = i + 1;
    }
    proof {
        assert forall|j: int| 0 <= j < r@.len() implies (exists|i2: int|
            0 <= i2 < base@.len() && (#[trigger] r@[j])@ == (base@[i2])@) && (r@[j])@ != e@ by {
            let j2 = choose|j2: int| 0 <= j2 < n && ((r@[j])@ == (#[trigger] base@[j2])@);
            assert(0 <= j2 < base@.len() && (r@[j])@ == (base@[j2])@);
        }
    }
    r
}

/// Routing for one node: every application's registry, created on first
/// reference.
pub struct LocalAdapter {
    namespaces: StrMap<Namespace>,
}

impl View for LocalAdapter {
    type V = Map<Seq<char>, NamespaceView>;

    closed spec fn view(&self) -> Map<Seq<char>, NamespaceView> {
        Map::new(
            |k: Seq<char>| self.namespaces@.dom().contains(k),
            |k: Seq<char>| self.namespaces@[k]@,
        )
    }
}

impl LocalAdapter {
    /// Every registry satisfies its invariant and is keyed by its own app
    /// id.
    pub open spec fn wf(&self) -> bool {
        forall|k: Seq<char>|
            self@.dom().contains(k) ==> ns_inv(#[trigger] self@[k]) && self@[k].app_id == k
    }

    /// An adapter with no applications yet.
    pub fn new() -> (r: Self)
        ensures
            r@ == Map::<Seq<char>, NamespaceView>::empty(),
            r.wf(),
    {
        let r = LocalAdapter { namespaces: StrMap::new() };
        proof {
            assert(r@ =~= Map::<Seq<char>, NamespaceView>::empty());
        }
        r
    }

    /// Take the application's registry out, creating it when absent.
    pub fn take_namespace(&mut self, app_id: &str) -> (ns: Namespace)
        requires
            old(self).wf(),
        ensures
            final(self).wf(),
            ns.wf(),
            ns@ == ns_of(old(self)@, app_id@),
            final(self)@ == old(self)@.remove(app_id@),
    {
        let r = match self.namespaces.remove(app_id) {
            Some(ns) => ns,
            None => Namespace::new(app_id.to_owned()),
        };
        proof {
            assert(self@ =~= old(self)@.remove(app_id@));
            if old(self)@.dom().contains(app_id@) {
                assert(ns_inv(old(self)@[app_id@]));
            } else {
                assert(r@ =~= empty_ns(app_id@));
            }
        }
        r
    }

    /// Put a registry back under its own app id.
    pub fn put_namespace(&mut self, ns: Namespace)
        requires
            old(self).wf(),
            ns.wf(),
        ensures
            final(self).wf(),
            final(self)@ == old(self)@.insert(ns@.app_id, ns@),
    {
        let key = ns.app_id().to_owned();
        proof {
            assert(key@ == ns@.app_id);
        }
        self.namespaces.insert(key, ns);
        proof {
            assert(self@ =~= old(self)@.insert(ns@.app_id, ns@));
        }
    }

    /// Make sure the application's registry exists.
    pub fn get_namespace(&mut self, app_id: &str)
        requires
            old(self).wf(),
        ensures
            final(self).wf(),
            final(self)@ == old(self)@.insert(app_id@, ns_of(old(self)@, app_id@)),
    {
        let ns = self.take_namespace(app_id);
        self.put_namespace(ns);
    }

    /// The application ids with a registry.
    pub fn get_namespaces(&self) -> (r: Vec<String>)
        ensures
            r@.len() == self@.dom().len(),
            forall|i: int| 0 <= i < r@.len() ==> self@.dom().contains((#[trigger] r@[i])@),
            forall|k: Seq<char>|
                self@.dom().contains(k) ==> exists|i: int|
                    0 <= i < r@.len() && (#[trigger] r@[i])@ == k,
            forall|i: int, j: int| 0 <= i < j < r@.len() ==> (r@[i])@ != (r@[j])@,
    {
        proof {
            assert(self@.dom() =~= self.namespaces@.dom());
        }
        self.namespaces.keys()
    }

    /// Register a fresh socket with an application.
    pub fn add_socket(&mut self, app_id: &str, ws: WebSocket) -> (r: bool)
        requires
            old(self).wf(),
            ws@.subscribed == Set::<Seq<char>>::empty(),
            ws@.presence == Map::<Seq<char>, MemberView>::empty(),
            ws@.user is None,
        ensures
            final(self).wf(),
            r == !ns_of(old(self)@, app_id@).sockets.dom().contains(ws@.id),
            r ==> final(self)@ == old(self)@.insert(
                app_id@,
                NamespaceView {
                    sockets: ns_of(old(self)@, app_id@).sockets.insert(ws@.id, ws@),
                    ..ns_of(old(self)@, app_id@)
                },
            ),
            !r ==> final(self)@ == old(self)@.insert(app_id@, ns_of(old(self)@, app_id@)),
    {
        let mut ns = self.take_namespace(app_id);
        let r = ns.add_socket(ws);
        self.put_namespace(ns);
        r
    }

    /// Tear a socket down in an application.
    pub fn remove_socket(&mut self, app_id: &str, ws_id: &str) -> (r: bool)
        requires
            old(self).wf(),
        ensures
            final(self).wf(),
            r == ns_of(old(self)@, app_id@).sockets.dom().contains(ws_id@),
            r ==> final(self)@ == old(self)@.insert(
                app_id@,
                after_socket_removal(ns_of(old(self)@, app_id@), ws_id@),
            ),
            !r ==> final(self)@ == old(self)@.insert(app_id@, ns_of(old(self)@, app_id@)),
    {
        let mut ns = self.take_namespace(app_id);
        let r = ns.remove_socket(ws_id);
        self.put_namespace(ns);
        r
    }

    /// Add a known socket to a channel; returns the channel's new local
    /// socket count.
    pub fn add_to_channel(
        &mut self,
        app_id: &str,
        channel: &str,
        socket_id: &str,
        member: Option<PresenceMemberInfo>,
    ) -> (count: usize)
        requires
            old(self).wf(),
            ns_of(old(self)@, app_id@).sockets.dom().contains(socket_id@),
            crate::channel::valid_channel_name(channel@),
            crate::channel::kind_of(channel@) == crate::channel::ChannelKind::Presence
                ==> member is Some,
        ensures
            final(self).wf(),
            final(self)@ == old(self)@.insert(
                app_id@,
                after_join(
                    ns_of(old(self)@, app_id@),
                    channel@,
                    socket_id@,
                    match member {
                        Some(m) => Some(m@),
                        None => None,
                    },
                ),
            ),
            count == chan_set(ns_of(old(self)@, app_id@), channel@).insert(socket_id@).len(),
    {
        let mut ns = self.take_namespace(app_id);
        let count = ns.add_to_channel(channel, socket_id, member);
        self.put_namespace(ns);
        count
    }

    /// Take a socket out of a channel; `None` when the socket is unknown.
    pub fn remove_from_channel(&mut self, app_id: &str, channel: &str, ws_id: &str) -> (r: Option<
        usize,
    >)
        requires
            old(self).wf(),
        ensures
            final(self).wf(),
            r is Some <==> ns_of(old(self)@, app_id@).sockets.dom().contains(ws_id@),
            r is None ==> final(self)@ == old(self)@.insert(app_id@, ns_of(old(self)@, app_id@)),
            r matches Some(count) ==> final(self)@ == old(self)@.insert(
                app_id@,
                after_leave(ns_of(old(self)@, app_id@), channel@, ws_id@),
            ) && count == chan_set(ns_of(old(self)@, app_id@), channel@).remove(ws_id@).len(),
    {
        let mut ns = self.take_namespace(app_id);
        let r = ns.remove_from_channel(ws_id, channel);
        self.put_namespace(ns);
        r
    }

    /// The ids a publish to `channel` must reach locally, the excepted
    /// sender left out, each exactly once.
    pub fn send_targets(&self, app_id: &str, channel: &str, excepting_id: Option<&str>) -> (r: Vec<
        String,
    >)
        ensures
            ({
                let targets = spec_send_targets(
                    ns_of(self@, app_id@),
                    channel@,
                    match excepting_id {
                        Some(e) => Some(e@),
                        None => None,
                    },
                );
                &&& forall|i: int| 0 <= i < r@.len() ==> targets.contains((#[trigger] r@[i])@)
                &&& forall|k: Seq<char>|
                    targets.contains(k) ==> exists|i: int|
                        0 <= i < r@.len() && (#[trigger] r@[i])@ == k
                &&& forall|i: int, j: int| 0 <= i < j < r@.len() ==> (r@[i])@ != (r@[j])@
            }),
    {
        let ghost v = ns_of(self@, app_id@);
        let base: Vec<String> = match self.namespaces.get(app_id) {
            Some(ns) => {
                match user_target(channel) {
                    Some(uid) => ns.user_sockets(uid.as_str()),
                    None => ns.channel_sockets(channel),
                }
            },
            None => {
                proof {
                    assert(user_set(v, spec_user_target(channel@).unwrap())
                        =~= Set::<Seq<char>>::empty());
                    assert(chan_set(v, channel@) =~= Set::<Seq<char>>::empty());
                }
                Vec::new()
            },
        };
        match excepting_id {
            Some(e) => filter_except(&base, e),
            None => base,
        }
    }

    /// Nothing to detach from in single-node mode.
    pub fn disconnect(&self) {
    }

    /// Reset one application's registry to empty.
    pub fn clear_namespace(&mut self, namespace_id: &str)
        requires
            old(self).wf(),
        ensures
            final(self).wf(),
            final(self)@ == old(self)@.insert(namespace_id@, empty_ns(namespace_id@)),
    {
        let ns = Namespace::new(namespace_id.to_owned());
        self.put_namespace(ns);
    }

    /// Drop every application's registry.
    pub fn clear_namespaces(&mut self)
        ensures
            final(self)@ == Map::<Seq<char>, NamespaceView>::empty(),
            final(self).wf(),
    {
        self.namespaces.clear();
        proof {
            assert(self@ =~= Map::<Seq<char>, NamespaceView>::empty());
        }
    }

    /// The ids of an application's sockets, each exactly once.
    pub fn get_sockets(&self, app_id: &str) -> (r: Vec<String>)
        requires
            self.wf(),
        ensures
            r@.len() == ns_of(self@, app_id@).sockets.dom().len(),
            forall|i: int|
                0 <= i < r@.len() ==> ns_of(self@, app_id@).sockets.dom().contains(
                    (#[trigger] r@[i])@,
                ),
            forall|k: Seq<char>|
                ns_of(self@, app_id@).sockets.dom().contains(k) ==> exists|i: int|
                    0 <= i < r@.len() && (#[trigger] r@[i])@ == k,
            forall|i: int, j: int| 0 <= i < j < r@.len() ==> (r@[i])@ != (r@[j])@,
    {
        match self.namespaces.get(app_id) {
            Some(ns) => ns.socket_ids(),
            None => {
                proof {
                    assert(ns_of(self@, app_id@).sockets.dom() =~= Set::<Seq<char>>::empty());
                }
                Vec::new()
            },
        }
    }

    /// How many sockets an application holds locally.
    pub fn get_sockets_count(&self, app_id: &str) -> (n: usize)
        requires
            self.wf(),
        ensures
            n == ns_of(self@, app_id@).sockets.dom().len(),
    {
        match self.namespaces.get(app_id) {
            Some(ns) => ns.sockets_count(),
            None => {
                proof {
                    assert(ns_of(self@, app_id@).sockets.dom() =~= Set::<Seq<char>>::empty());
                }
                0
            },
        }
    }

    /// Every channel of an application with the ids of its local sockets.
    pub fn get_channels(&self, app_id: &str) -> (r: Vec<(String, Vec<String>)>)
        requires
            self.wf(),
        ensures
            ({
                let v = ns_of(self@, app_id@);
                &&& r@.len() == v.channels.dom().len()
                &&& forall|i: int|
                    0 <= i < r@.len() ==> v.channels.dom().contains((#[trigger] r@[i]).0@)
                        && crate::channel::valid_channel_name((r@[i]).0@) && ids_enumerate(
                        ((r@[i]).1)@,
                        chan_set(v, (r@[i]).0@),
                    )
                &&& forall|c: Seq<char>|
                    v.channels.dom().contains(c) ==> exists|i: int|
                        0 <= i < r@.len() && (#[trigger] r@[i]).0@ == c
                &&& forall|i: int, j: int| 0 <= i < j < r@.len() ==> (r@[i]).0@ != (r@[j]).0@
            }),
    {
        let ghost v = ns_of(self@, app_id@);
        let listed = self.get_channels_with_sockets_count(app_id);
        let n = listed.len();
        let mut r: Vec<(String, Vec<String>)> = Vec::new();
        let mut i: usize = 0;
        while i < n
            invariant
                i <= n,
                n == listed@.len(),
                self.wf(),
                v == ns_of(self@, app_id@),
                r@.len() == i,
                forall|j: int|
                    0 <= j < n ==> v.channels.dom().contains((#[trigger] listed@[j]).0@),
                forall|c: Seq<char>|
                    v.channels.dom().contains(c) ==> exists|j: int|
                        0 <= j < n && (#[trigger] listed@[j]).0@ == c,
                forall|j1: int, j2: int| 0 <= j1 < j2 < n ==> (listed@[j1]).0@ != (listed@[j2]).0@,
                forall|j: int|
                    0 <= j < i ==> (#[trigger] r@[j]).0@ == (listed@[j]).0@ && ids_enumerate(
                        ((r@[j]).1)@,
                        chan_set(v, (r@[j]).0@),
                    ),
            decreases n - i,
        {
            let ids = self.get_channel_sockets(app_id, listed[i].0.as_str());
            r.push((listed[i].0.clone(), ids));
            i = i + 1;
        }
        proof {
            assert forall|c: Seq<char>| v.channels.dom().contains(c) implies exists|i2: int|
                0 <= i2 < r@.len() && (#[trigger] r@[i2]).0@ == c by {
                let j = choose|j: int| 0 <= j < n && (#[trigger] listed@[j]).0@ == c;
                assert((r@[j]).0@ == c);
            }
        }
        r
    }

    /// Every channel of an application with its local socket count.
    pub fn get_channels_with_sockets_count(&self, app_id: &str) -> (r: Vec<(String, usize)>)
        requires
            self.wf(),
        ensures
            ({
                let v = ns_of(self@, app_id@);
                &&& r@.len() == v.channels.dom().len()
                &&& forall|i: int|
                    0 <= i < r@.len() ==> v.channels.dom().contains((#[trigger] r@[i]).0@)
                        && crate::channel::valid_channel_name((r@[i]).0@) && (r@[i]).1
                        == v.channels[(r@[i]).0@].len()
                &&& forall|c: Seq<char>|
                    v.channels.dom().contains(c) ==> exists|i: int|
                        0 <= i < r@.len() && (#[trigger] r@[i]).0@ == c
                &&& forall|i: int, j: int| 0 <= i < j < r@.len() ==> (r@[i]).0@ != (r@[j]).0@
            }),
    {
        match self.namespaces.get(app_id) {
            Some(ns) => ns.channels_with_counts(),
            None => {
                proof {
                    assert(ns_of(self@, app_id@).channels.dom() =~= Set::<Seq<char>>::empty());
                }
                Vec::new()
            },
        }
    }

    /// The ids of a channel's local sockets, each exactly once.
    pub fn get_channel_sockets(&self, app_id: &str, channel: &str) -> (r: Vec<String>)
        requires
            self.wf(),
        ensures
            ({
                let s = chan_set(ns_of(self@, app_id@), channel@);
                &&& r@.len() == s.len()
                &&& forall|i: int| 0 <= i < r@.len() ==> s.contains((#[trigger] r@[i])@)
                &&& forall|k: Seq<char>|
                    s.contains(k) ==> exists|i: int| 0 <= i < r@.len() && (#[trigger] r@[i])@ == k
                &&& forall|i: int, j: int| 0 <= i < j < r@.len() ==> (r@[i])@ != (r@[j])@
            }),
    {
        match self.namespaces.get(app_id) {
            Some(ns) => ns.channel_sockets(channel),
            None => {
                proof {
                    assert(chan_set(ns_of(self@, app_id@), channel@).len() == 0) by {
                        assert(chan_set(ns_of(self@, app_id@), channel@)
                            =~= Set::<Seq<char>>::empty());
                    }
                }
                Vec::new()
            },
        }
    }

    /// How many sockets a channel holds locally.
    pub fn get_channel_sockets_count(&self, app_id: &str, channel: &str) -> (n: usize)
        requires
            self.wf(),
        ensures
            n == chan_set(ns_of(self@, app_id@), channel@).len(),
    {
        match self.namespaces.get(app_id) {
            Some(ns) => ns.channel_sockets_count(channel),
            None => {
                proof {
                    assert(chan_set(ns_of(self@, app_id@), channel@)
                        =~= Set::<Seq<char>>::empty());
                }
                0
            },
        }
    }

    /// The presence members of a channel: one entry per user id, carrying
    /// the info some socket of that user registered.
    pub fn get_channel_members(&self, app_id: &str, channel: &str) -> (r: StrMap<
        PresenceMemberInfo,
    >)
        requires
            self.wf(),
        ensures
            r@.dom() == member_ids_of(ns_of(self@, app_id@), channel@),
            forall|u: Seq<char>|
                r@.dom().contains(u) ==> (#[trigger] r@[u]).user_id@ == u && exists|
                    sid: Seq<char>,
                |
                    #[trigger] chan_set(ns_of(self@, app_id@), channel@).contains(sid) && ns_of(
                        self@,
                        app_id@,
                    ).sockets[sid].presence.dom().contains(channel@) && ns_of(
                        self@,
                        app_id@,
                    ).sockets[sid].presence[channel@] == (r@[u])@,
    {
        match self.namespaces.get(app_id) {
            Some(ns) => ns.channel_members(channel),
            None => {
                let r = StrMap::new();
                proof {
                    assert(r@.dom() =~= member_ids_of(ns_of(self@, app_id@), channel@));
                }
                r
            },
        }
    }

    /// How many distinct users a presence channel holds locally.
    pub fn get_channel_members_count(&self, app_id: &str, channel: &str) -> (n: usize)
        requires
            self.wf(),
        ensures
            n == member_ids_of(ns_of(self@, app_id@), channel@).len(),
    {
        self.get_channel_members(app_id, channel).len()
    }

    /// Whether a socket sits in a channel.
    pub fn is_in_channel(&self, app_id: &str, channel: &str, ws_id: &str) -> (r: bool)
        ensures
            r == chan_set(ns_of(self@, app_id@), channel@).contains(ws_id@),
    {
        match self.namespaces.get(app_id) {
            Some(ns) => ns.is_in_channel(channel, ws_id),
            None => false,
        }
    }

    /// Bind a signed-in user to a socket and index it.
    pub fn add_user(&mut self, app_id: &str, socket_id: &str, user: User) -> (r: bool)
        requires
            old(self).wf(),
        ensures
            final(self).wf(),
            r == (ns_of(old(self)@, app_id@).sockets.dom().contains(socket_id@) && ns_of(
                old(self)@,
                app_id@,
            ).sockets[socket_id@].user is None),
            r ==> final(self)@ == old(self)@.insert(
                app_id@,
                after_signin(ns_of(old(self)@, app_id@), socket_id@, user.id@),
            ),
            !r ==> final(self)@ == old(self)@.insert(app_id@, ns_of(old(self)@, app_id@)),
    {
        let mut ns = self.take_namespace(app_id);
        let r = ns.add_user(socket_id, user);
        self.put_namespace(ns);
        r
    }

    /// Drop a socket's user binding and index entry.
    pub fn remove_user(&mut self, app_id: &str, socket_id: &str) -> (r: bool)
        requires
            old(self).wf(),
        ensures
            final(self).wf(),
            r == (ns_of(old(self)@, app_id@).sockets.dom().contains(socket_id@) && ns_of(
                old(self)@,
                app_id@,
            ).sockets[socket_id@].user is Some),
            r ==> final(self)@ == old(self)@.insert(
                app_id@,
                after_signout(
                    ns_of(old(self)@, app_id@),
                    socket_id@,
                    ns_of(old(self)@, app_id@).sockets[socket_id@].user.unwrap(),
                ),
            ),
            !r ==> final(self)@ == old(self)@.insert(app_id@, ns_of(old(self)@, app_id@)),
    {
        let mut ns = self.take_namespace(app_id);
        let r = ns.remove_user(socket_id);
        self.put_namespace(ns);
        r
    }

    /// The ids of one user's sockets, each exactly once.
    pub fn get_user_sockets(&self, app_id: &str, user_id: &str) -> (r: Vec<String>)
        ensures
            ({
                let s = user_set(ns_of(self@, app_id@), user_id@);
                &&& r@.len() == s.len()
                &&& forall|i: int| 0 <= i < r@.len() ==> s.contains((#[trigger] r@[i])@)
                &&& forall|k: Seq<char>|
                    s.contains(k) ==> exists|i: int| 0 <= i < r@.len() && (#[trigger] r@[i])@ == k
                &&& forall|i: int, j: int| 0 <= i < j < r@.len() ==> (r@[i])@ != (r@[j])@
            }),
    {
        match self.namespaces.get(app_id) {
            Some(ns) => ns.user_sockets(user_id),
            None => {
                proof {
                    assert(user_set(ns_of(self@, app_id@), user_id@).len() == 0) by {
                        assert(user_set(ns_of(self@, app_id@), user_id@)
                            =~= Set::<Seq<char>>::empty());
                    }
                }
                Vec::new()
            },
        }
    }

    /// The sockets to which a user-termination must be announced and then
    /// closed: every local socket of the user.
    pub fn terminate_user_connections(&self, app_id: &str, user_id: &str) -> (r: Vec<String>)
        ensures
            ({
                let s = user_set(ns_of(self@, app_id@), user_id@);
                &&& forall|i: int| 0 <= i < r@.len() ==> s.contains((#[trigger] r@[i])@)
                &&& forall|k: Seq<char>|
                    s.contains(k) ==> exists|i: int| 0 <= i < r@.len() && (#[trigger] r@[i])@ == k
                &&& forall|i: int, j: int| 0 <= i < j < r@.len() ==> (r@[i])@ != (r@[j])@
            }),
    {
        self.get_user_sockets(app_id, user_id)
    }

    /// What a user termination sends before closing: the `pusher:error`
    /// frame with code 4009 for every local socket of the user, each
    /// exactly once.
    pub fn terminate_user_frames(&self, app_id: &str, user_id: &str) -> (r: Vec<(String, Vec<u8>)>)
        ensures
            ({
                let s = user_set(ns_of(self@, app_id@), user_id@);
                &&& forall|i: int|
                    0 <= i < r@.len() ==> s.contains((#[trigger] r@[i]).0@) && (exists|
                        m: Seq<char>,
                    |
                        ((r@[i]).1)@ == crate::frames::spec_error_frame(
                            4009,
                            crate::session::bytes_of(m),
                        ))
                &&& forall|k: Seq<char>|
                    s.contains(k) ==> exists|i: int|
                        0 <= i < r@.len() && (#[trigger] r@[i]).0@ == k
                &&& forall|i: int, j: int| 0 <= i < j < r@.len() ==> (r@[i]).0@ != (r@[j]).0@
            }),
    {
        let message = "You were disconnected by the application.";
        let frame = crate::frames::error_frame(4009, message);
        proof {
            assert(frame@ == crate::frames::spec_error_frame(
                4009,
                crate::session::bytes_of(message@),
            ));
        }
        let ids = self.terminate_user_connections(app_id, user_id);
        let n = ids.len();
        let ghost s = user_set(ns_of(self@, app_id@), user_id@);
        let mut r: Vec<(String, Vec<u8>)> = Vec::new();
        let mut i: usize = 0;
        while i < n
            invariant
                i <= n,
                n == ids@.len(),
                r@.len() == i,
                frame@ == crate::frames::spec_error_frame(
                    4009,
                    crate::session::bytes_of("You were disconnected by the application."@),
                ),
                forall|j: int| 0 <= j < n ==> s.contains((#[trigger] ids@[j])@),
                forall|k: Seq<char>|
                    s.contains(k) ==> exists|j: int| 0 <= j < n && (#[trigger] ids@[j])@ == k,
                forall|j1: int, j2: int| 0 <= j1 < j2 < n ==> (ids@[j1])@ != (ids@[j2])@,
                forall|j: int|
                    0 <= j < i ==> (#[trigger] r@[j]).0@ == (ids@[j])@ && ((r@[j]).1)@ == frame@,
            decreases n - i,
        {
            r.push((ids[i].clone(), frame.clone()));
            i = i + 1;
        }
        proof {
            assert forall|k: Seq<char>| s.contains(k) implies exists|x: int|
                0 <= x < r@.len() && (#[trigger] r@[x]).0@ == k by {
                let j = choose|j: int| 0 <= j < n && (#[trigger] ids@[j])@ == k;
                assert((r@[j]).0@ == k);
            }
        }
        r
    }
}

} // verus!
