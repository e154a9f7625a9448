//! The per-application registry: sockets by id, channel membership sets, and
//! the signed-in-user index. Every mutation preserves the registry invariant
//! `ns_inv`, which ties the three indexes together.

use vstd::prelude::*;

use crate::channel::{kind_of, valid_channel_name, ChannelKind};
use crate::socket::{MemberView, PresenceMemberInfo, SocketView, User, WebSocket};
use crate::strmap::{StrMap, StrSet};

verus! {

/// The mathematical value of a namespace.
pub ghost struct NamespaceView {
    pub app_id: Seq<char>,
    pub sockets: Map<Seq<char>, SocketView>,
    pub channels: Map<Seq<char>, Set<Seq<char>>>,
    pub users: Map<Seq<char>, Set<Seq<char>>>,
}

/// The registry invariant.
///
/// - a socket record is keyed by its own id;
/// - a socket's presence memberships lie within its subscriptions;
/// - a channel set holds exactly the known sockets subscribed to it, in both
///   directions;
/// - no empty channel set is kept, and every stored channel name obeys the
///   naming rules (so no virtual `#server-to-*` name is ever stored);
/// - every socket in a presence channel carries member info for it;
/// - the user index is exact in both directions: a user set holds only known
///   sockets signed in as that user, every socket with a bound user stands
///   in that user's set, and no empty user set is kept.
pub open spec fn ns_inv(v: NamespaceView) -> bool {
    &&& forall|sid: Seq<char>|
        v.sockets.dom().contains(sid) ==> (#[trigger] v.sockets[sid]).id == sid
    &&& forall|sid: Seq<char>, c: Seq<char>|
        v.sockets.dom().contains(sid) && #[trigger] v.sockets[sid].presence.dom().contains(c)
            ==> v.sockets[sid].subscribed.contains(c)
    &&& forall|c: Seq<char>, sid: Seq<char>|
        v.channels.dom().contains(c) && #[trigger] v.channels[c].contains(sid) ==> (
        v.sockets.dom().contains(sid) && v.sockets[sid].subscribed.contains(c))
    &&& forall|sid: Seq<char>, c: Seq<char>|
        v.sockets.dom().contains(sid) && #[trigger] v.sockets[sid].subscribed.contains(c) ==> (
        v.channels.dom().contains(c) && v.channels[c].contains(sid))
    &&& forall|c: Seq<char>|
        v.channels.dom().contains(c) ==> (#[trigger] v.channels[c]) != Set::<Seq<char>>::empty()
    &&& forall|c: Seq<char>| #[trigger] v.channels.dom().contains(c) ==> valid_channel_name(c)
    &&& forall|c: Seq<char>, sid: Seq<char>|
        v.channels.dom().contains(c) && kind_of(c) == ChannelKind::Presence
            && #[trigger] v.channels[c].contains(sid) ==> v.sockets[sid].presence.dom().contains(
            c,
        )
    &&& forall|u: Seq<char>, sid: Seq<char>|
        v.users.dom().contains(u) && #[trigger] v.users[u].contains(sid) ==> (
        v.sockets.dom().contains(sid) && v.sockets[sid].user == Some(u))
    &&& forall|sid: Seq<char>|
        v.sockets.dom().contains(sid) && (#[trigger] v.sockets[sid]).user is Some ==> user_set(
            v,
            v.sockets[sid].user.unwrap(),
        ).contains(sid)
    &&& forall|u: Seq<char>|
        v.users.dom().contains(u) ==> (#[trigger] v.users[u]) != Set::<Seq<char>>::empty()
}

/// The set of sockets a channel holds, empty when the channel is unknown.
pub open spec fn chan_set(v: NamespaceView, c: Seq<char>) -> Set<Seq<char>> {
    if v.channels.dom().contains(c) {
        v.channels[c]
    } else {
        Set::empty()
    }
}

/// The set of sockets signed in as a user, empty when the user is unknown.
pub open spec fn user_set(v: NamespaceView, u: Seq<char>) -> Set<Seq<char>> {
    if v.users.dom().contains(u) {
        v.users[u]
    } else {
        Set::empty()
    }
}

/// The view after `sid` joins channel `c`, recording presence info `m` when
/// given.
pub open spec fn after_join(
    v: NamespaceView,
    c: Seq<char>,
    sid: Seq<char>,
    m: Option<MemberView>,
) -> NamespaceView {
    NamespaceView {
        sockets: v.sockets.insert(
            sid,
            SocketView {
                subscribed: v.sockets[sid].subscribed.insert(c),
                presence: match m {
                    Some(mv) => v.sockets[sid].presence.insert(c, mv),
                    None => v.sockets[sid].presence,
                },
                ..v.sockets[sid]
            },
        ),
        channels: v.channels.insert(c, chan_set(v, c).insert(sid)),
        ..v
    }
}

/// The view after `sid` leaves channel `c`; an emptied channel set is
/// deleted.
pub open spec fn after_leave(v: NamespaceView, c: Seq<char>, sid: Seq<char>) -> NamespaceView {
    NamespaceView {
        sockets: v.sockets.insert(
            sid,
            SocketView {
                subscribed: v.sockets[sid].subscribed.remove(c),
                presence: v.sockets[sid].presence.remove(c),
                ..v.sockets[sid]
            },
        ),
        channels: if chan_set(v, c).remove(sid) == Set::<Seq<char>>::empty() {
            v.channels.remove(c)
        } else {
            v.channels.insert(c, chan_set(v, c).remove(sid))
        },
        ..v
    }
}

/// Joining preserves the registry invariant.
pub proof fn lemma_join_preserves_inv(
    v: NamespaceView,
    c: Seq<char>,
    sid: Seq<char>,
    m: Option<MemberView>,
)
    requires
        ns_inv(v),
        v.sockets.dom().contains(sid),
        valid_channel_name(c),
        kind_of(c) == ChannelKind::Presence ==> m is Some,
    ensures
        ns_inv(after_join(v, c, sid, m)),
{
    let w = after_join(v, c, sid, m);
    assert(chan_set(v, c).insert(sid).contains(sid));
    assert(chan_set(v, c).insert(sid) != Set::<Seq<char>>::empty());
    assert forall|c2: Seq<char>| #[trigger] w.channels.dom().contains(c2) implies valid_channel_name(
        c2,
    ) by {
        if c2 != c {
            assert(v.channels.dom().contains(c2));
        }
    }
    assert forall|s2: Seq<char>|
        w.sockets.dom().contains(s2) && (#[trigger] w.sockets[s2]).user is Some implies user_set(
        w,
        w.sockets[s2].user.unwrap(),
    ).contains(s2) by {
        assert(v.sockets[s2].user == w.sockets[s2].user);
        assert(user_set(v, v.sockets[s2].user.unwrap()).contains(s2));
    }
    assert forall|c2: Seq<char>|
        w.sockets[sid].presence.dom().contains(c2) implies w.sockets[sid].subscribed.contains(
        c2,
    ) by {
        if c2 != c {
            assert(v.sockets[sid].presence.dom().contains(c2));
        }
    }
    assert forall|c2: Seq<char>, s2: Seq<char>|
        w.channels.dom().contains(c2) && #[trigger] w.channels[c2].contains(s2) implies (
    w.sockets.dom().contains(s2) && w.sockets[s2].subscribed.contains(c2)) by {
        if c2 == c {
            if s2 != sid {
                assert(chan_set(v, c).contains(s2));
                assert(v.channels[c2].contains(s2));
            }
        } else {
            assert(v.channels[c2].contains(s2));
        }
    }
    assert forall|s2: Seq<char>, c2: Seq<char>|
        w.sockets.dom().contains(s2) && #[trigger] w.sockets[s2].subscribed.contains(c2) implies (
    w.channels.dom().contains(c2) && w.channels[c2].contains(s2)) by {
        if s2 == sid {
            if c2 != c {
                assert(v.sockets[s2].subscribed.contains(c2));
            }
        } else {
            assert(v.sockets[s2].subscribed.contains(c2));
        }
    }
    assert forall|c2: Seq<char>, s2: Seq<char>|
        w.channels.dom().contains(c2) && kind_of(c2) == ChannelKind::Presence
            && #[trigger] w.channels[c2].contains(s2) implies w.sockets[s2].presence.dom().contains(
        c2,
    ) by {
        if c2 == c {
            if s2 != sid {
                assert(chan_set(v, c).contains(s2));
                assert(v.channels[c2].contains(s2));
            }
        } else {
            assert(v.channels[c2].contains(s2));
        }
    }
    assert forall|u: Seq<char>, s2: Seq<char>|
        w.users.dom().contains(u) && #[trigger] w.users[u].contains(s2) implies (
    w.sockets.dom().contains(s2) && w.sockets[s2].user == Some(u)) by {
        assert(v.users[u].contains(s2));
    }
}

/// Leaving preserves the registry invariant.
pub proof fn lemma_leave_preserves_inv(v: NamespaceView, c: Seq<char>, sid: Seq<char>)
    requires
        ns_inv(v),
        v.sockets.dom().contains(sid),
    ensures
        ns_inv(after_leave(v, c, sid)),
{
    let w = after_leave(v, c, sid);
    assert forall|c2: Seq<char>| #[trigger] w.channels.dom().contains(c2) implies valid_channel_name(
        c2,
    ) by {
        if !v.channels.dom().contains(c2) {
            assert(c2 == c);
            assert(chan_set(v, c).remove(sid) =~= Set::<Seq<char>>::empty());
            assert(false);
        }
    }
    assert forall|s2: Seq<char>|
        w.sockets.dom().contains(s2) && (#[trigger] w.sockets[s2]).user is Some implies user_set(
        w,
        w.sockets[s2].user.unwrap(),
    ).contains(s2) by {
        assert(v.sockets[s2].user == w.sockets[s2].user);
        assert(user_set(v, v.sockets[s2].user.unwrap()).contains(s2));
    }
    assert forall|c2: Seq<char>, s2: Seq<char>|
        w.channels.dom().contains(c2) && #[trigger] w.channels[c2].contains(s2) implies (
    w.sockets.dom().contains(s2) && w.sockets[s2].subscribed.contains(c2)) by {
        if c2 == c {
            assert(chan_set(v, c).remove(sid).contains(s2));
            assert(v.channels[c2].contains(s2));
            assert(s2 != sid);
        } else {
            assert(v.channels[c2].contains(s2));
        }
    }
    assert forall|s2: Seq<char>, c2: Seq<char>|
        w.sockets.dom().contains(s2) && #[trigger] w.sockets[s2].subscribed.contains(c2) implies (
    w.channels.dom().contains(c2) && w.channels[c2].contains(s2)) by {
        if s2 == sid {
            assert(c2 != c);
            assert(v.sockets[s2].subscribed.contains(c2));
            assert(v.channels.dom().contains(c2) && v.channels[c2].contains(s2));
        } else {
            assert(v.sockets[s2].subscribed.contains(c2));
            assert(v.channels.dom().contains(c2) && v.channels[c2].contains(s2));
            if c2 == c {
                assert(chan_set(v, c).remove(sid).contains(s2));
            }
        }
    }
    assert forall|c2: Seq<char>, s2: Seq<char>|
        w.channels.dom().contains(c2) && kind_of(c2) == ChannelKind::Presence
            && #[trigger] w.channels[c2].contains(s2) implies w.sockets[s2].presence.dom().contains(
        c2,
    ) by {
        if c2 == c {
            assert(chan_set(v, c).remove(sid).contains(s2));
            assert(v.channels[c2].contains(s2));
            assert(s2 != sid);
        } else {
            assert(v.channels[c2].contains(s2));
            if s2 == sid {
                assert(v.sockets[s2].presence.dom().contains(c2));
            }
        }
    }
    assert forall|u: Seq<char>, s2: Seq<char>|
        w.users.dom().contains(u) && #[trigger] w.users[u].contains(s2) implies (
    w.sockets.dom().contains(s2) && w.sockets[s2].user == Some(u)) by {
        assert(v.users[u].contains(s2));
    }
}

/// A subscribe followed by the matching unsubscribe returns the registry to
/// its earlier state exactly.
pub proof fn lemma_join_leave_round_trip(
    v: NamespaceView,
    c: Seq<char>,
    sid: Seq<char>,
    m: Option<MemberView>,
)
    requires
        ns_inv(v),
        v.sockets.dom().contains(sid),
        !v.sockets[sid].subscribed.contains(c),
    ensures
        after_leave(after_join(v, c, sid, m), c, sid) == v,
{
    let w = after_join(v, c, sid, m);
    let r = after_leave(w, c, sid);
    assert(!v.sockets[sid].presence.dom().contains(c));
    assert(w.sockets[sid].subscribed.remove(c) =~= v.sockets[sid].subscribed);
    assert(w.sockets[sid].presence.remove(c) =~= v.sockets[sid].presence);
    assert(r.sockets[sid] == v.sockets[sid]);
    assert(r.sockets =~= v.sockets);
    assert(!chan_set(v, c).contains(sid));
    assert(chan_set(w, c) == chan_set(v, c).insert(sid));
    assert(chan_set(w, c).remove(sid) =~= chan_set(v, c));
    if v.channels.dom().contains(c) {
        assert(v.channels[c] != Set::<Seq<char>>::empty());
        assert(chan_set(v, c) == v.channels[c]);
        assert(chan_set(w, c).remove(sid) != Set::<Seq<char>>::empty());
        assert(r.channels =~= v.channels);
    } else {
        assert(chan_set(v, c) =~= Set::<Seq<char>>::empty());
        assert(chan_set(w, c).remove(sid) =~= Set::<Seq<char>>::empty());
        assert(r.channels =~= v.channels);
    }
}

/// A virtual `#server-to-<id>` name is never stored as a channel: its `#`
/// falls outside the channel alphabet, and the registry only holds channel
/// keys that obey the naming rules. Such names are resolved at send time.
pub proof fn lemma_virtual_channels_never_stored(v: NamespaceView, c: Seq<char>)
    requires
        ns_inv(v),
        crate::channel::spec_user_target(c) is Some,
    ensures
        !v.channels.dom().contains(c),
{
    if v.channels.dom().contains(c) {
        assert(valid_channel_name(c));
        reveal_strlit("#server-to-");
        assert(c.subrange(0, 11) == "#server-to-"@);
        assert(c[0] == "#server-to-"@[0]) by {
            assert(c.subrange(0, 11)[0] == c[0]);
        }
        assert(c[0] == '#');
        assert(crate::channel::allowed_channel_char(c[0]));
    }
}

/// The user index is exact: a socket stands in `users[u]` exactly when it
/// is a known socket signed in as `u`.
pub proof fn lemma_user_index_exact(v: NamespaceView, u: Seq<char>, sid: Seq<char>)
    requires
        ns_inv(v),
    ensures
        user_set(v, u).contains(sid) <==> (v.sockets.dom().contains(sid) && v.sockets[sid].user
            == Some(u)),
{
    if v.sockets.dom().contains(sid) && v.sockets[sid].user == Some(u) {
        assert(user_set(v, v.sockets[sid].user.unwrap()).contains(sid));
    }
}

/// `pusher_internal:member_removed` is owed exactly when the user's last
/// socket departs: after a leave, the departing socket's user stays a
/// member of the channel exactly when another of that user's sockets with
/// presence info remains in it.
pub proof fn lemma_member_removed_on_last_socket(v: NamespaceView, c: Seq<char>, sid: Seq<char>)
    requires
        ns_inv(v),
        v.sockets.dom().contains(sid),
        v.sockets[sid].presence.dom().contains(c),
    ensures
        member_ids_of(after_leave(v, c, sid), c).contains(v.sockets[sid].presence[c].user_id)
            <==> exists|s2: Seq<char>|
            s2 != sid && #[trigger] chan_set(v, c).contains(s2)
                && v.sockets[s2].presence.dom().contains(c) && v.sockets[s2].presence[c].user_id
                == v.sockets[sid].presence[c].user_id,
{
    let w = after_leave(v, c, sid);
    let u = v.sockets[sid].presence[c].user_id;
    if member_ids_of(w, c).contains(u) {
        let s2 = choose|s2: Seq<char>|
            #[trigger] chan_set(w, c).contains(s2) && w.sockets[s2].presence.dom().contains(c)
                && w.sockets[s2].presence[c].user_id == u;
        assert(s2 != sid);
        assert(chan_set(v, c).contains(s2));
        assert(v.sockets[s2].presence.dom().contains(c) && v.sockets[s2].presence[c].user_id == u);
    }
    if exists|s2: Seq<char>|
        s2 != sid && #[trigger] chan_set(v, c).contains(s2) && v.sockets[s2].presence.dom().contains(
            c,
        ) && v.sockets[s2].presence[c].user_id == u {
        let s2 = choose|s2: Seq<char>|
            s2 != sid && #[trigger] chan_set(v, c).contains(s2)
                && v.sockets[s2].presence.dom().contains(c) && v.sockets[s2].presence[c].user_id
                == u;
        assert(chan_set(w, c).contains(s2)) by {
            assert(chan_set(v, c).remove(sid).contains(s2));
        }
        assert(w.sockets[s2].presence.dom().contains(c) && w.sockets[s2].presence[c].user_id == u);
    }
}

/// For any known socket the two indexes agree: the socket stands in a
/// channel's set exactly when the channel stands in the socket's own
/// subscription set.
pub proof fn lemma_membership_agrees(v: NamespaceView, sid: Seq<char>, c: Seq<char>)
    requires
        ns_inv(v),
        v.sockets.dom().contains(sid),
    ensures
        chan_set(v, c).contains(sid) <==> v.sockets[sid].subscribed.contains(c),
{
}

/// A join leaves the socket standing in the channel. A repeated presence
/// subscribe from the same socket therefore finds it already there and is
/// answered without a second `member_added`: only the first join broadcasts
/// one.
pub proof fn lemma_presence_join_idempotent(
    v: NamespaceView,
    c: Seq<char>,
    sid: Seq<char>,
    m: Option<MemberView>,
)
    ensures
        chan_set(after_join(v, c, sid, m), c).contains(sid),
{
}

/// `m` with `sid` taken out of every set; keys whose set empties are
/// deleted.
pub open spec fn sets_minus(m: Map<Seq<char>, Set<Seq<char>>>, sid: Seq<char>) -> Map<
    Seq<char>,
    Set<Seq<char>>,
> {
    Map::new(
        |c: Seq<char>| m.dom().contains(c) && m[c].remove(sid) != Set::<Seq<char>>::empty(),
        |c: Seq<char>| m[c].remove(sid),
    )
}

/// The view after a socket is torn down: its record is gone and it appears
/// in no channel set and no user set.
pub open spec fn after_socket_removal(v: NamespaceView, sid: Seq<char>) -> NamespaceView {
    NamespaceView {
        app_id: v.app_id,
        sockets: v.sockets.remove(sid),
        channels: sets_minus(v.channels, sid),
        users: sets_minus(v.users, sid),
    }
}

/// After a socket's removal it appears nowhere: not among the sockets, in no
/// channel set, and in no user set.
pub proof fn lemma_removed_socket_gone(v: NamespaceView, sid: Seq<char>)
    ensures
        !after_socket_removal(v, sid).sockets.dom().contains(sid),
        forall|c: Seq<char>|
            after_socket_removal(v, sid).channels.dom().contains(c)
                ==> !(#[trigger] after_socket_removal(v, sid).channels[c]).contains(sid),
        forall|u: Seq<char>|
            after_socket_removal(v, sid).users.dom().contains(u)
                ==> !(#[trigger] after_socket_removal(v, sid).users[u]).contains(sid),
{
}

/// Tearing a socket down preserves the registry invariant.
pub proof fn lemma_removal_preserves_inv(v: NamespaceView, sid: Seq<char>)
    requires
        ns_inv(v),
    ensures
        ns_inv(after_socket_removal(v, sid)),
{
    let w = after_socket_removal(v, sid);
    assert forall|c2: Seq<char>, s2: Seq<char>|
        w.channels.dom().contains(c2) && #[trigger] w.channels[c2].contains(s2) implies (
    w.sockets.dom().contains(s2) && w.sockets[s2].subscribed.contains(c2)) by {
        assert(v.channels[c2].contains(s2));
    }
    assert forall|s2: Seq<char>, c2: Seq<char>|
        w.sockets.dom().contains(s2) && #[trigger] w.sockets[s2].subscribed.contains(c2) implies (
    w.channels.dom().contains(c2) && w.channels[c2].contains(s2)) by {
        assert(v.sockets[s2].subscribed.contains(c2));
        assert(v.channels[c2].contains(s2));
        assert(v.channels[c2].remove(sid).contains(s2));
    }
    assert forall|c2: Seq<char>, s2: Seq<char>|
        w.channels.dom().contains(c2) && kind_of(c2) == ChannelKind::Presence
            && #[trigger] w.channels[c2].contains(s2) implies w.sockets[s2].presence.dom().contains(
        c2,
    ) by {
        assert(v.channels[c2].contains(s2));
    }
    assert forall|u: Seq<char>, s2: Seq<char>|
        w.users.dom().contains(u) && #[trigger] w.users[u].contains(s2) implies (
    w.sockets.dom().contains(s2) && w.sockets[s2].user == Some(u)) by {
        assert(v.users[u].contains(s2));
    }
}

/// The view after a socket signs in as user `u` and is indexed under it.
pub open spec fn after_signin(v: NamespaceView, sid: Seq<char>, u: Seq<char>) -> NamespaceView {
    NamespaceView {
        sockets: v.sockets.insert(sid, SocketView { user: Some(u), ..v.sockets[sid] }),
        users: v.users.insert(u, user_set(v, u).insert(sid)),
        ..v
    }
}

/// The view after a socket's user binding is dropped; an emptied user set is
/// deleted.
pub open spec fn after_signout(v: NamespaceView, sid: Seq<char>, u: Seq<char>) -> NamespaceView {
    NamespaceView {
        sockets: v.sockets.insert(sid, SocketView { user: None, ..v.sockets[sid] }),
        users: if user_set(v, u).remove(sid) == Set::<Seq<char>>::empty() {
            v.users.remove(u)
        } else {
            v.users.insert(u, user_set(v, u).remove(sid))
        },
        ..v
    }
}

/// Signing in preserves the registry invariant.
pub proof fn lemma_signin_preserves_inv(v: NamespaceView, sid: Seq<char>, u: Seq<char>)
    requires
        ns_inv(v),
        v.sockets.dom().contains(sid),
        v.sockets[sid].user is None,
    ensures
        ns_inv(after_signin(v, sid, u)),
{
    let w = after_signin(v, sid, u);
    assert(user_set(v, u).insert(sid).contains(sid));
    assert(user_set(v, u).insert(sid) != Set::<Seq<char>>::empty());
    assert forall|c2: Seq<char>, s2: Seq<char>|
        w.channels.dom().contains(c2) && #[trigger] w.channels[c2].contains(s2) implies (
    w.sockets.dom().contains(s2) && w.sockets[s2].subscribed.contains(c2)) by {
        assert(v.channels[c2].contains(s2));
    }
    assert forall|s2: Seq<char>, c2: Seq<char>|
        w.sockets.dom().contains(s2) && #[trigger] w.sockets[s2].subscribed.contains(c2) implies (
    w.channels.dom().contains(c2) && w.channels[c2].contains(s2)) by {
        assert(v.sockets[s2].subscribed.contains(c2));
    }
    assert forall|c2: Seq<char>, s2: Seq<char>|
        w.channels.dom().contains(c2) && kind_of(c2) == ChannelKind::Presence
            && #[trigger] w.channels[c2].contains(s2) implies w.sockets[s2].presence.dom().contains(
        c2,
    ) by {
        assert(v.channels[c2].contains(s2));
        assert(v.sockets[s2].presence.dom().contains(c2));
    }
    assert forall|u2: Seq<char>, s2: Seq<char>|
        w.users.dom().contains(u2) && #[trigger] w.users[u2].contains(s2) implies (
    w.sockets.dom().contains(s2) && w.sockets[s2].user == Some(u2)) by {
        if u2 == u {
            if s2 != sid {
                assert(user_set(v, u).contains(s2));
                assert(v.users[u2].contains(s2));
            }
        } else {
            assert(v.users[u2].contains(s2));
            assert(v.sockets[s2].user == Some(u2));
            assert(s2 != sid);
        }
    }
}

/// Dropping a user binding preserves the registry invariant.
pub proof fn lemma_signout_preserves_inv(v: NamespaceView, sid: Seq<char>, u: Seq<char>)
    requires
        ns_inv(v),
        v.sockets.dom().contains(sid),
        v.sockets[sid].user == Some(u),
    ensures
        ns_inv(after_signout(v, sid, u)),
{
    let w = after_signout(v, sid, u);
    assert forall|c2: Seq<char>, s2: Seq<char>|
        w.channels.dom().contains(c2) && #[trigger] w.channels[c2].contains(s2) implies (
    w.sockets.dom().contains(s2) && w.sockets[s2].subscribed.contains(c2)) by {
        assert(v.channels[c2].contains(s2));
    }
    assert forall|s2: Seq<char>, c2: Seq<char>|
        w.sockets.dom().contains(s2) && #[trigger] w.sockets[s2].subscribed.contains(c2) implies (
    w.channels.dom().contains(c2) && w.channels[c2].contains(s2)) by {
        assert(v.sockets[s2].subscribed.contains(c2));
    }
    assert forall|c2: Seq<char>, s2: Seq<char>|
        w.channels.dom().contains(c2) && kind_of(c2) == ChannelKind::Presence
            && #[trigger] w.channels[c2].contains(s2) implies w.sockets[s2].presence.dom().contains(
        c2,
    ) by {
        assert(v.channels[c2].contains(s2));
        assert(v.sockets[s2].presence.dom().contains(c2));
    }
    assert forall|u2: Seq<char>, s2: Seq<char>|
        w.users.dom().contains(u2) && #[trigger] w.users[u2].contains(s2) implies (
    w.sockets.dom().contains(s2) && w.sockets[s2].user == Some(u2)) by {
        if u2 == u {
            assert(user_set(v, u).remove(sid).contains(s2));
            assert(v.users[u2].contains(s2));
            assert(s2 != sid);
        } else {
            assert(v.users[u2].contains(s2));
            assert(v.sockets[s2].user == Some(u2));
            assert(s2 != sid);
        }
    }
}

/// The user ids represented in a channel by at least one socket holding
/// presence info for it.
pub open spec fn member_ids_of(v: NamespaceView, c: Seq<char>) -> Set<Seq<char>> {
    Set::new(
        |u: Seq<char>|
            exists|sid: Seq<char>|
                #[trigger] chan_set(v, c).contains(sid) && v.sockets[sid].presence.dom().contains(c)
                    && v.sockets[sid].presence[c].user_id == u,
    )
}

/// On a presence channel, the member ids are exactly the user ids of the
/// sockets in the channel: one entry per distinct user, however many sockets
/// each user holds.
pub proof fn lemma_presence_member_ids(v: NamespaceView, c: Seq<char>)
    requires
        ns_inv(v),
        kind_of(c) == ChannelKind::Presence,
    ensures
        member_ids_of(v, c) == chan_set(v, c).map(
            |sid: Seq<char>| v.sockets[sid].presence[c].user_id,
        ),
{
    let f = |sid: Seq<char>| v.sockets[sid].presence[c].user_id;
    assert forall|u: Seq<char>| member_ids_of(v, c).contains(u) implies chan_set(v, c).map(
        f,
    ).contains(u) by {
        let sid = choose|sid: Seq<char>|
            #[trigger] chan_set(v, c).contains(sid) && v.sockets[sid].presence.dom().contains(c)
                && v.sockets[sid].presence[c].user_id == u;
        assert(chan_set(v, c).contains(sid) && f(sid) == u);
    }
    assert forall|u: Seq<char>| chan_set(v, c).map(f).contains(u) implies member_ids_of(
        v,
        c,
    ).contains(u) by {
        let sid = choose|sid: Seq<char>| #[trigger] chan_set(v, c).contains(sid) && f(sid) == u;
        if v.channels.dom().contains(c) {
            assert(v.channels[c].contains(sid));
            assert(v.sockets[sid].presence.dom().contains(c));
        }
    }
    assert(member_ids_of(v, c) =~= chan_set(v, c).map(f));
}

/// The channels named by the first `i` entries of `chans`.
pub open spec fn done_set(chans: Seq<String>, i: int) -> Set<Seq<char>> {
    Set::new(|k: Seq<char>| exists|j: int| 0 <= j < i && (#[trigger] chans[j])@ == k)
}

/// `m` with `sid` taken out of the sets of the first `i` channels of
/// `chans` only.
pub open spec fn partial_minus(
    m: Map<Seq<char>, Set<Seq<char>>>,
    sid: Seq<char>,
    chans: Seq<String>,
    i: int,
) -> Map<Seq<char>, Set<Seq<char>>> {
    Map::new(
        |c: Seq<char>|
            m.dom().contains(c) && (!done_set(chans, i).contains(c) || m[c].remove(sid)
                != Set::<Seq<char>>::empty()),
        |c: Seq<char>|
            if done_set(chans, i).contains(c) {
                m[c].remove(sid)
            } else {
                m[c]
            },
    )
}

/// The per-application registry.
pub struct Namespace {
    pub app_id: String,
    sockets: StrMap<WebSocket>,
    channels: StrMap<StrSet>,
    users: StrMap<StrSet>,
}

impl View for Namespace {
    type V = NamespaceView;

    closed spec fn view(&self) -> NamespaceView {
        NamespaceView {
            app_id: self.app_id@,
            sockets: Map::new(
                |k: Seq<char>| self.sockets@.dom().contains(k),
                |k: Seq<char>| self.sockets@[k]@,
            ),
            channels: Map::new(
                |k: Seq<char>| self.channels@.dom().contains(k),
                |k: Seq<char>| self.channels@[k]@,
            ),
            users: Map::new(
                |k: Seq<char>| self.users@.dom().contains(k),
                |k: Seq<char>| self.users@[k]@,
            ),
        }
    }
}

impl Namespace {
    /// The registry invariant, over this namespace's view.
    pub open spec fn wf(&self) -> bool {
        ns_inv(self@)
    }

    /// An empty registry for one application.
    pub fn new(app_id: String) -> (r: Self)
        ensures
            r@.app_id == app_id@,
            r@.sockets == Map::<Seq<char>, SocketView>::empty(),
            r@.channels == Map::<Seq<char>, Set<Seq<char>>>::empty(),
            r@.users == Map::<Seq<char>, Set<Seq<char>>>::empty(),
            r.wf(),
    {
        let r = Namespace {
            app_id,
            sockets: StrMap::new(),
            channels: StrMap::new(),
            users: StrMap::new(),
        };
        proof {
            assert(r@.sockets =~= Map::<Seq<char>, SocketView>::empty());
            assert(r@.channels =~= Map::<Seq<char>, Set<Seq<char>>>::empty());
            assert(r@.users =~= Map::<Seq<char>, Set<Seq<char>>>::empty());
        }
        r
    }

    /// Register a fresh socket. Refused (returning `false`, changing nothing)
    /// when the id is already taken.
    pub fn add_socket(&mut self, ws: WebSocket) -> (r: bool)
        requires
            old(self).wf(),
            ws@.subscribed == Set::<Seq<char>>::empty(),
            ws@.presence == Map::<Seq<char>, MemberView>::empty(),
            ws@.user is None,
        ensures
            final(self).wf(),
            r == !old(self)@.sockets.dom().contains(ws@.id),
            r ==> final(self)@ == (NamespaceView {
                sockets: old(self)@.sockets.insert(ws@.id, ws@),
                ..old(self)@
            }),
            !r ==> final(self)@ == old(self)@,
    {
        if self.sockets.contains_key(ws.id.as_str()) {
            return false;
        }
        let key = ws.id.clone();
        self.sockets.insert(key, ws);
        proof {
            assert(self@.sockets =~= old(self)@.sockets.insert(ws@.id, ws@));
            assert(self@.channels =~= old(self)@.channels);
            assert(self@.users =~= old(self)@.users);
            let v0 = old(self)@;
            let v = self@;
            assert forall|c: Seq<char>, sid: Seq<char>|
                v.channels.dom().contains(c) && #[trigger] v.channels[c].contains(sid) implies (
            v.sockets.dom().contains(sid) && #[trigger] v.sockets[sid].subscribed.contains(
                c,
            )) by {
                assert(v0.channels[c].contains(sid));
                assert(v0.sockets.dom().contains(sid));
                assert(sid != ws@.id);
            }
            assert forall|c: Seq<char>, sid: Seq<char>|
                v.channels.dom().contains(c) && kind_of(c) == ChannelKind::Presence
                    && #[trigger] v.channels[c].contains(sid) implies #[trigger] v.sockets[sid].presence.dom().contains(c) by {
                assert(v0.channels[c].contains(sid));
                assert(v0.sockets.dom().contains(sid));
                assert(sid != ws@.id);
            }
            assert forall|u: Seq<char>, sid: Seq<char>|
                v.users.dom().contains(u) && #[trigger] v.users[u].contains(sid) implies (
            v.sockets.dom().contains(sid) && #[trigger] v.sockets[sid].user == Some(u)) by {
                assert(v0.users[u].contains(sid));
                assert(v0.sockets.dom().contains(sid));
                assert(sid != ws@.id);
            }
            assert forall|sid: Seq<char>|
                v.sockets.dom().contains(sid) && (#[trigger] v.sockets[sid]).user is Some implies user_set(
                v,
                v.sockets[sid].user.unwrap(),
            ).contains(sid) by {
                assert(sid != ws@.id);
                assert(v0.sockets[sid].user == v.sockets[sid].user);
                assert(user_set(v0, v0.sockets[sid].user.unwrap()).contains(sid));
            }
        }
        true
    }

    /// Add a known socket to a channel, recording presence info when given;
    /// returns how many sockets the channel then holds.
    pub fn add_to_channel(
        &mut self,
        channel: &str,
        socket_id: &str,
        member: Option<PresenceMemberInfo>,
    ) -> (count: usize)
        requires
            old(self).wf(),
            old(self)@.sockets.dom().contains(socket_id@),
            valid_channel_name(channel@),
            kind_of(channel@) == ChannelKind::Presence ==> member is Some,
        ensures
            final(self).wf(),
            final(self)@ == after_join(
                old(self)@,
                channel@,
                socket_id@,
                match member {
                    Some(m) => Some(m@),
                    None => None,
                },
            ),
            count == chan_set(old(self)@, channel@).insert(socket_id@).len(),
    {
        let ghost v0 = self@;
        let ghost mv: Option<MemberView> = match member {
            Some(ref m) => Some(m@),
            None => None,
        };
        let mut set = match self.channels.remove(channel) {
            Some(s) => s,
            None => StrSet::new(),
        };
        proof {
            assert(set@ == chan_set(v0, channel@));
        }
        set.insert(socket_id.to_owned());
        let count = set.len();
        self.channels.insert(channel.to_owned(), set);
        let mut ws = match self.sockets.remove(socket_id) {
            Some(w) => w,
            None => {
                proof {
                    assert(false);
                }
                vstd::pervasive::unreached()
            },
        };
        ws.subscribed_channels.insert(channel.to_owned());
        match member {
            Some(m) => {
                ws.presence_channels.insert(channel.to_owned(), m);
            },
            None => {},
        }
        self.sockets.insert(socket_id.to_owned(), ws);
        proof {
            let w = after_join(v0, channel@, socket_id@, mv);
            assert(self@.channels =~= w.channels);
            assert(self@.users =~= w.users);
            assert(crate::socket::presence_view(ws.presence_channels@) =~= w.sockets[socket_id@].presence);
            assert(ws@ == w.sockets[socket_id@]);
            assert(self@.sockets =~= w.sockets);
            lemma_join_preserves_inv(v0, channel@, socket_id@, mv);
        }
        count
    }

    /// Take a known socket out of a channel; returns how many sockets remain
    /// there, or `None` when the socket id is unknown.
    pub fn remove_from_channel(&mut self, socket_id: &str, channel: &str) -> (r: Option<usize>)
        requires
            old(self).wf(),
        ensures
            final(self).wf(),
            r is Some <==> old(self)@.sockets.dom().contains(socket_id@),
            r is None ==> final(self)@ == old(self)@,
            r matches Some(count) ==> final(self)@ == after_leave(
                old(self)@,
                channel@,
                socket_id@,
            ) && count == chan_set(old(self)@, channel@).remove(socket_id@).len(),
    {
        let ghost v0 = self@;
        if !self.sockets.contains_key(socket_id) {
            return None;
        }
        let mut count: usize = 0;
        match self.channels.remove(channel) {
            Some(mut set) => {
                proof {
                    assert(set@ == chan_set(v0, channel@));
                }
                set.remove(socket_id);
                count = set.len();
                if !set.is_empty() {
                    self.channels.insert(channel.to_owned(), set);
                }
            },
            None => {
                proof {
                    assert(chan_set(v0, channel@).remove(socket_id@)
                        =~= Set::<Seq<char>>::empty());
                }
            },
        }
        let mut ws = match self.sockets.remove(socket_id) {
            Some(w) => w,
            None => {
                proof {
                    assert(false);
                }
                vstd::pervasive::unreached()
            },
        };
        ws.subscribed_channels.remove(channel);
        ws.presence_channels.remove(channel);
        self.sockets.insert(socket_id.to_owned(), ws);
        proof {
            let w = after_leave(v0, channel@, socket_id@);
            assert(self@.channels =~= w.channels);
            assert(self@.users =~= w.users);
            assert(crate::socket::presence_view(ws.presence_channels@) =~= w.sockets[socket_id@].presence);
            assert(ws@ == w.sockets[socket_id@]);
            assert(self@.sockets =~= w.sockets);
            lemma_leave_preserves_inv(v0, channel@, socket_id@);
        }
        Some(count)
    }

    /// Tear a socket down: leave every subscribed channel, drop the user
    /// binding, and forget the record. Returns `false` when the id is
    /// unknown.
    pub fn remove_socket(&mut self, socket_id: &str) -> (r: bool)
        requires
            old(self).wf(),
        ensures
            final(self).wf(),
            r == old(self)@.sockets.dom().contains(socket_id@),
            r ==> final(self)@ == after_socket_removal(old(self)@, socket_id@),
            !r ==> final(self)@ == old(self)@,
    {
        let ghost v0 = self@;
        let chans: Vec<String> = match self.sockets.get(socket_id) {
            Some(w) => w.subscribed_channels.to_vec(),
            None => {
                return false;
            },
        };
        proof {
            assert(done_set(chans@, 0) =~= Set::<Seq<char>>::empty());
            assert(v0.sockets[socket_id@].subscribed.difference(done_set(chans@, 0))
                =~= v0.sockets[socket_id@].subscribed);
            assert(v0.sockets[socket_id@].presence.remove_keys(done_set(chans@, 0))
                =~= v0.sockets[socket_id@].presence);
            assert(self@.sockets =~= v0.sockets.insert(
                socket_id@,
                SocketView {
                    subscribed: v0.sockets[socket_id@].subscribed.difference(done_set(chans@, 0)),
                    presence: v0.sockets[socket_id@].presence.remove_keys(done_set(chans@, 0)),
                    ..v0.sockets[socket_id@]
                },
            ));
            assert(self@.channels =~= partial_minus(v0.channels, socket_id@, chans@, 0));
        }
        let n = chans.len();
        let mut i: usize = 0;
        while i < n
            invariant
                self.wf(),
                ns_inv(v0),
                i <= n,
                n == chans@.len(),
                v0.sockets.dom().contains(socket_id@),
                forall|j: int|
                    0 <= j < n ==> v0.sockets[socket_id@].subscribed.contains(
                        (#[trigger] chans@[j])@,
                    ),
                forall|k: Seq<char>|
                    v0.sockets[socket_id@].subscribed.contains(k) ==> exists|j: int|
                        0 <= j < n && (#[trigger] chans@[j])@ == k,
                forall|j1: int, j2: int| 0 <= j1 < j2 < n ==> (chans@[j1])@ != (chans@[j2])@,
                self@.app_id == v0.app_id,
                self@.users == v0.users,
                self@.sockets == v0.sockets.insert(
                    socket_id@,
                    SocketView {
                        subscribed: v0.sockets[socket_id@].subscribed.difference(
                            done_set(chans@, i as int),
                        ),
                        presence: v0.sockets[socket_id@].presence.remove_keys(
                            done_set(chans@, i as int),
                        ),
                        ..v0.sockets[socket_id@]
                    },
                ),
                self@.channels == partial_minus(v0.channels, socket_id@, chans@, i as int),
            decreases n - i,
        {
            let ghost vk = self@;
            let ghost c = chans@[i as int]@;
            let ghost sid = socket_id@;
            proof {
                assert(!done_set(chans@, i as int).contains(c)) by {
                    if done_set(chans@, i as int).contains(c) {
                        let j = choose|j: int| 0 <= j < i && (#[trigger] chans@[j])@ == c;
                        assert((chans@[j])@ == (chans@[i as int])@);
                    }
                }
                assert(v0.channels.dom().contains(c) && v0.channels[c].contains(sid)) by {
                    assert(v0.sockets[sid].subscribed.contains(c));
                }
                assert(vk.channels.dom().contains(c));
                assert(vk.channels[c] == v0.channels[c]);
                assert(vk.sockets.dom().contains(sid));
            }
            let r = self.remove_from_channel(socket_id, chans[i].as_str());
            proof {
                let w = after_leave(vk, c, sid);
                assert(done_set(chans@, i + 1) =~= done_set(chans@, i as int).insert(c));
                assert(w.sockets[sid].subscribed =~= v0.sockets[sid].subscribed.difference(
                    done_set(chans@, i + 1),
                ));
                assert(w.sockets[sid].presence =~= v0.sockets[sid].presence.remove_keys(
                    done_set(chans@, i + 1),
                ));
                assert(w.sockets =~= v0.sockets.insert(
                    sid,
                    SocketView {
                        subscribed: v0.sockets[sid].subscribed.difference(done_set(chans@, i + 1)),
                        presence: v0.sockets[sid].presence.remove_keys(done_set(chans@, i + 1)),
                        ..v0.sockets[sid]
                    },
                ));
                assert(chan_set(vk, c) == v0.channels[c]);
                assert(w.channels =~= partial_minus(v0.channels, sid, chans@, i + 1));
            }
            i = i + 1;
        }
        let ghost vn = self@;
        let ghost sid = socket_id@;
        proof {
            assert(done_set(chans@, n as int) =~= v0.sockets[sid].subscribed);
            assert(vn.sockets[sid].subscribed =~= Set::<Seq<char>>::empty());
            assert(vn.sockets[sid].presence =~= Map::<Seq<char>, MemberView>::empty()) by {
                assert forall|c2: Seq<char>|
                    !(#[trigger] vn.sockets[sid].presence.dom().contains(c2)) by {
                    if v0.sockets[sid].presence.dom().contains(c2) {
                        assert(v0.sockets[sid].subscribed.contains(c2));
                    }
                }
            }
        }
        let ws = match self.sockets.remove(socket_id) {
            Some(w) => w,
            None => {
                proof {
                    assert(false);
                }
                vstd::pervasive::unreached()
            },
        };
        match ws.user {
            Some(u) => {
                match self.users.remove(u.id.as_str()) {
                    Some(mut uset) => {
                        uset.remove(socket_id);
                        if !uset.is_empty() {
                            self.users.insert(u.id, uset);
                        }
                    },
                    None => {},
                }
            },
            None => {},
        }
        proof {
            let w = after_socket_removal(v0, sid);
            assert(self@.sockets =~= vn.sockets.remove(sid));
            assert(vn.sockets.remove(sid) =~= v0.sockets.remove(sid));
            assert(self@.sockets =~= w.sockets);
            assert(self@.channels =~= w.channels) by {
                assert forall|c2: Seq<char>|
                    #![trigger v0.channels.dom().contains(c2)]
                    true implies ({
                    &&& (w.channels.dom().contains(c2) <==> partial_minus(
                        v0.channels,
                        sid,
                        chans@,
                        n as int,
                    ).dom().contains(c2))
                    &&& (w.channels.dom().contains(c2) ==> w.channels[c2] == partial_minus(
                        v0.channels,
                        sid,
                        chans@,
                        n as int,
                    )[c2])
                }) by {
                    if v0.channels.dom().contains(c2) {
                        if !done_set(chans@, n as int).contains(c2) {
                            assert(!v0.sockets[sid].subscribed.contains(c2));
                            assert(!v0.channels[c2].contains(sid));
                            assert(v0.channels[c2].remove(sid) =~= v0.channels[c2]);
                            assert(v0.channels[c2] != Set::<Seq<char>>::empty());
                        }
                    }
                }
            }
            assert(self@.users =~= w.users) by {
                let uopt = vn.sockets[sid].user;
                assert forall|u2: Seq<char>|
                    #![trigger v0.users.dom().contains(u2)]
                    true implies ({
                    &&& (self@.users.dom().contains(u2) <==> w.users.dom().contains(u2))
                    &&& (w.users.dom().contains(u2) ==> self@.users[u2] == w.users[u2])
                }) by {
                    if v0.users.dom().contains(u2) {
                        if uopt != Some(u2) {
                            assert(!v0.users[u2].contains(sid)) by {
                                if v0.users[u2].contains(sid) {
                                    assert(vn.users[u2].contains(sid));
                                    assert(vn.sockets[sid].user == Some(u2));
                                }
                            }
                            assert(v0.users[u2].remove(sid) =~= v0.users[u2]);
                            assert(v0.users[u2] != Set::<Seq<char>>::empty());
                        }
                    }
                }
            }
            lemma_removal_preserves_inv(v0, sid);
        }
        true
    }

    /// Bind a signed-in user to a known socket and index the socket under
    /// the user id. Refused when the id is unknown or a user is already
    /// bound.
    pub fn add_user(&mut self, socket_id: &str, user: User) -> (r: bool)
        requires
            old(self).wf(),
        ensures
            final(self).wf(),
            r == (old(self)@.sockets.dom().contains(socket_id@) && old(self)@.sockets[socket_id@].user is None),
            r ==> final(self)@ == after_signin(old(self)@, socket_id@, user.id@),
            !r ==> final(self)@ == old(self)@,
    {
        let ghost v0 = self@;
        match self.sockets.get(socket_id) {
            Some(w) => {
                if w.user.is_some() {
                    return false;
                }
            },
            None => {
                return false;
            },
        }
        let mut ws = match self.sockets.remove(socket_id) {
            Some(w) => w,
            None => {
                proof {
                    assert(false);
                }
                vstd::pervasive::unreached()
            },
        };
        let uid = user.id.clone();
        ws.user = Some(user);
        self.sockets.insert(socket_id.to_owned(), ws);
        let mut uset = match self.users.remove(uid.as_str()) {
            Some(s) => s,
            None => StrSet::new(),
        };
        proof {
            assert(uset@ == user_set(v0, uid@));
        }
        uset.insert(socket_id.to_owned());
        self.users.insert(uid, uset);
        proof {
            let w = after_signin(v0, socket_id@, user.id@);
            assert(self@.sockets =~= w.sockets);
            assert(self@.channels =~= w.channels);
            assert(self@.users =~= w.users);
            lemma_signin_preserves_inv(v0, socket_id@, user.id@);
        }
        true
    }

    /// Drop a socket's user binding and its entry in the user index.
    /// Refused when the id is unknown or no user is bound.
    pub fn remove_user(&mut self, socket_id: &str) -> (r: bool)
        requires
            old(self).wf(),
        ensures
            final(self).wf(),
            r == (old(self)@.sockets.dom().contains(socket_id@) && old(self)@.sockets[socket_id@].user is Some),
            r ==> final(self)@ == after_signout(
                old(self)@,
                socket_id@,
                old(self)@.sockets[socket_id@].user.unwrap(),
            ),
            !r ==> final(self)@ == old(self)@,
    {
        let ghost v0 = self@;
        match self.sockets.get(socket_id) {
            Some(w) => {
                if w.user.is_none() {
                    return false;
                }
            },
            None => {
                return false;
            },
        }
        let mut ws = match self.sockets.remove(socket_id) {
            Some(w) => w,
            None => {
                proof {
                    assert(false);
                }
                vstd::pervasive::unreached()
            },
        };
        let uopt = ws.user;
        ws.user = None;
        let user = match uopt {
            Some(u) => u,
            None => {
                proof {
                    assert(false);
                }
                vstd::pervasive::unreached()
            },
        };
        self.sockets.insert(socket_id.to_owned(), ws);
        match self.users.remove(user.id.as_str()) {
            Some(mut uset) => {
                uset.remove(socket_id);
                if !uset.is_empty() {
                    self.users.insert(user.id, uset);
                }
            },
            None => {
                proof {
                    assert(user_set(v0, user.id@).remove(socket_id@)
                        =~= Set::<Seq<char>>::empty());
                }
            },
        }
        proof {
            let w = after_signout(v0, socket_id@, user.id@);
            assert(self@.sockets =~= w.sockets);
            assert(self@.channels =~= w.channels);
            assert(self@.users =~= w.users);
            lemma_signout_preserves_inv(v0, socket_id@, user.id@);
        }
        true
    }

    /// How many sockets the registry holds.
    pub fn sockets_count(&self) -> (n: usize)
        ensures
            n == self@.sockets.dom().len(),
            self@.sockets.dom().finite(),
    {
        proof {
            assert(self@.sockets.dom() =~= self.sockets@.dom());
        }
        self.sockets.len()
    }

    /// The application this registry belongs to.
    pub fn app_id(&self) -> (r: &str)
        ensures
            r@ == self@.app_id,
    {
        self.app_id.as_str()
    }

    /// The ids of every socket, each exactly once.
    pub fn socket_ids(&self) -> (r: Vec<String>)
        ensures
            r@.len() == self@.sockets.dom().len(),
            forall|i: int| 0 <= i < r@.len() ==> self@.sockets.dom().contains((#[trigger] r@[i])@),
            forall|k: Seq<char>|
                self@.sockets.dom().contains(k) ==> exists|i: int|
                    0 <= i < r@.len() && (#[trigger] r@[i])@ == k,
            forall|i: int, j: int| 0 <= i < j < r@.len() ==> (r@[i])@ != (r@[j])@,
    {
        proof {
            assert(self@.sockets.dom() =~= self.sockets@.dom());
        }
        self.sockets.keys()
    }

    /// The socket a given id names, if any.
    pub fn get_socket(&self, socket_id: &str) -> (r: Option<&WebSocket>)
        ensures
            r is Some <==> self@.sockets.dom().contains(socket_id@),
            r matches Some(w) ==> w@ == self@.sockets[socket_id@],
    {
        self.sockets.get(socket_id)
    }

    /// Whether a socket sits in a channel.
    pub fn is_in_channel(&self, channel: &str, socket_id: &str) -> (r: bool)
        ensures
            r == chan_set(self@, channel@).contains(socket_id@),
    {
        match self.channels.get(channel) {
            Some(set) => set.contains(socket_id),
            None => false,
        }
    }

    /// The ids of the sockets a channel holds, each exactly once.
    pub fn channel_sockets(&self, channel: &str) -> (r: Vec<String>)
        ensures
            r@.len() == chan_set(self@, channel@).len(),
            forall|i: int|
                0 <= i < r@.len() ==> chan_set(self@, channel@).contains((#[trigger] r@[i])@),
            forall|k: Seq<char>|
                chan_set(self@, channel@).contains(k) ==> exists|i: int|
                    0 <= i < r@.len() && (#[trigger] r@[i])@ == k,
            forall|i: int, j: int| 0 <= i < j < r@.len() ==> (r@[i])@ != (r@[j])@,
    {
        match self.channels.get(channel) {
            Some(set) => set.to_vec(),
            None => {
                proof {
                    assert(chan_set(self@, channel@).len() == 0) by {
                        assert(chan_set(self@, channel@) =~= Set::<Seq<char>>::empty());
                    }
                }
                Vec::new()
            },
        }
    }

    /// How many sockets a channel holds.
    pub fn channel_sockets_count(&self, channel: &str) -> (n: usize)
        ensures
            n == chan_set(self@, channel@).len(),
    {
        match self.channels.get(channel) {
            Some(set) => set.len(),
            None => {
                proof {
                    assert(chan_set(self@, channel@) =~= Set::<Seq<char>>::empty());
                }
                0
            },
        }
    }

    /// Every channel name with its socket count.
    pub fn channels_with_counts(&self) -> (r: Vec<(String, usize)>)
        ensures
            r@.len() == self@.channels.dom().len(),
            forall|i: int|
                0 <= i < r@.len() ==> self@.channels.dom().contains((#[trigger] r@[i]).0@) && (
                r@[i]).1 == self@.channels[(r@[i]).0@].len(),
            forall|c: Seq<char>|
                self@.channels.dom().contains(c) ==> exists|i: int|
                    0 <= i < r@.len() && (#[trigger] r@[i]).0@ == c,
            forall|i: int, j: int| 0 <= i < j < r@.len() ==> (r@[i]).0@ != (r@[j]).0@,
    {
        let entries = self.channels.entries();
        proof {
            assert(self@.channels.dom() =~= self.channels@.dom());
        }
        let n = entries.len();
        let mut r: Vec<(String, usize)> = Vec::new();
        let mut i: usize = 0;
        while i < n
            invariant
                i <= n,
                n == entries@.len(),
                n == self@.channels.dom().len(),
                r@.len() == i,
                forall|j: int|
                    0 <= j < n ==> self@.channels.dom().contains((#[trigger] entries@[j]).0@) && (
                    self@.channels[(entries@[j]).0@] == (entries@[j]).1@),
                forall|j: int|
                    0 <= j < i ==> (#[trigger] r@[j]).0@ == (entries@[j]).0@ && (r@[j]).1 == (
                    entries@[j]).1@.len(),
            decreases n - i,
        {
            let count = entries[i].1.len();
            r.push((entries[i].0.clone(), count));
            i = i + 1;
        }
        proof {
            assert forall|c: Seq<char>| self@.channels.dom().contains(c) implies exists|j: int|
                0 <= j < r@.len() && (#[trigger] r@[j]).0@ == c by {
                let j = choose|j: int|
                    0 <= j < entries@.len() && (#[trigger] entries@[j]).0@ == c;
                assert((r@[j]).0@ == c);
            }
        }
        r
    }

    /// The ids of the sockets signed in as a user, each exactly once.
    pub fn user_sockets(&self, user_id: &str) -> (r: Vec<String>)
        ensures
            r@.len() == user_set(self@, user_id@).len(),
            forall|i: int|
                0 <= i < r@.len() ==> user_set(self@, user_id@).contains((#[trigger] r@[i])@),
            forall|k: Seq<char>|
                user_set(self@, user_id@).contains(k) ==> exists|i: int|
                    0 <= i < r@.len() && (#[trigger] r@[i])@ == k,
            forall|i: int, j: int| 0 <= i < j < r@.len() ==> (r@[i])@ != (r@[j])@,
    {
        match self.users.get(user_id) {
            Some(set) => set.to_vec(),
            None => {
                proof {
                    assert(user_set(self@, user_id@).len() == 0) by {
                        assert(user_set(self@, user_id@) =~= Set::<Seq<char>>::empty());
                    }
                }
                Vec::new()
            },
        }
    }

    /// The presence members of a channel: one entry per user id, carrying
    /// the info some socket of that user registered.
    pub fn channel_members(&self, channel: &str) -> (r: StrMap<PresenceMemberInfo>)
        requires
            self.wf(),
        ensures
            r@.dom() == member_ids_of(self@, channel@),
            forall|u: Seq<char>|
                r@.dom().contains(u) ==> (#[trigger] r@[u]).user_id@ == u && exists|sid: Seq<char>|
                    #[trigger] chan_set(self@, channel@).contains(sid)
                        && self@.sockets[sid].presence.dom().contains(channel@)
                        && self@.sockets[sid].presence[channel@] == (r@[u])@,
    {
        let ghost v = self@;
        let ghost c = channel@;
        let ids = self.channel_sockets(channel);
        let n = ids.len();
        let mut r: StrMap<PresenceMemberInfo> = StrMap::new();
        let mut i: usize = 0;
        while i < n
            invariant
                ns_inv(v),
                i <= n,
                n == ids@.len(),
                v == self@,
                c == channel@,
                forall|j: int| 0 <= j < n ==> chan_set(v, c).contains((#[trigger] ids@[j])@),
                forall|k: Seq<char>|
                    chan_set(v, c).contains(k) ==> exists|j: int|
                        0 <= j < n && (#[trigger] ids@[j])@ == k,
                forall|u: Seq<char>|
                    r@.dom().contains(u) ==> (#[trigger] r@[u]).user_id@ == u && exists|
                        sid: Seq<char>,
                    |
                        #[trigger] chan_set(v, c).contains(sid)
                            && v.sockets[sid].presence.dom().contains(c)
                            && v.sockets[sid].presence[c] == (r@[u])@,
                forall|j: int|
                    0 <= j < i && chan_set(v, c).contains((#[trigger] ids@[j])@)
                        && v.sockets[(ids@[j])@].presence.dom().contains(c) ==> r@.dom().contains(
                        v.sockets[(ids@[j])@].presence[c].user_id,
                    ),
            decreases n - i,
        {
            match self.get_socket(ids[i].as_str()) {
                Some(w) => {
                    match w.presence_channels.get(channel) {
                        Some(info) => {
                            let key = info.user_id.clone();
                            let copy = info.duplicate();
                            proof {
                                assert(w@ == v.sockets[(ids@[i as int])@]);
                                assert(w@.presence.dom().contains(c));
                                assert(copy@ == w@.presence[c]);
                            }
                            r.insert(key, copy);
                        },
                        None => {},
                    }
                },
                None => {},
            }
            i = i + 1;
        }
        proof {
            assert forall|u: Seq<char>| member_ids_of(v, c).contains(u) implies r@.dom().contains(
                u,
            ) by {
                let sid = choose|sid: Seq<char>|
                    #[trigger] chan_set(v, c).contains(sid) && v.sockets[sid].presence.dom().contains(c)
                        && v.sockets[sid].presence[c].user_id == u;
                let j = choose|j: int| 0 <= j < n && (#[trigger] ids@[j])@ == sid;
                assert(chan_set(v, c).contains((ids@[j])@));
            }
            assert forall|u: Seq<char>| r@.dom().contains(u) implies member_ids_of(
                v,
                c,
            ).contains(u) by {
                let sid = choose|sid: Seq<char>|
                    #[trigger] chan_set(v, c).contains(sid) && v.sockets[sid].presence.dom().contains(c)
                        && v.sockets[sid].presence[c] == (r@[u])@;
                assert(chan_set(v, c).contains(sid) && v.sockets[sid].presence.dom().contains(c)
                    && v.sockets[sid].presence[c].user_id == u);
            }
            assert(r@.dom() =~= member_ids_of(v, c));
        }
        r
    }

    /// The presence members of a channel as key/info pairs, each user id
    /// exactly once.
    pub fn channel_members_pairs(&self, channel: &str) -> (r: Vec<(String, PresenceMemberInfo)>)
        requires
            self.wf(),
        ensures
            r@.len() == member_ids_of(self@, channel@).len(),
            forall|i: int|
                0 <= i < r@.len() ==> member_ids_of(self@, channel@).contains(
                    (#[trigger] r@[i]).0@,
                ) && ((r@[i]).1).user_id@ == (r@[i]).0@,
            forall|u: Seq<char>|
                member_ids_of(self@, channel@).contains(u) ==> exists|i: int|
                    0 <= i < r@.len() && (#[trigger] r@[i]).0@ == u,
            forall|i: int, j: int| 0 <= i < j < r@.len() ==> (r@[i]).0@ != (r@[j]).0@,
    {
        let m = self.channel_members(channel);
        let es = m.entries();
        let n = es.len();
        let mut r: Vec<(String, PresenceMemberInfo)> = Vec::new();
        let mut i: usize = 0;
        while i < n
            invariant
                i <= n,
                n == es@.len(),
                r@.len() == i,
                forall|j: int|
                    0 <= j < n ==> m@.dom().contains((#[trigger] es@[j]).0@) && m@[(es@[j]).0@]
                        == (es@[j]).1,
                forall|j: int|
                    0 <= j < i ==> (#[trigger] r@[j]).0@ == (es@[j]).0@ && ((r@[j]).1)@ == ((
                    es@[j]).1)@,
            decreases n - i,
        {
            r.push((es[i].0.clone(), es[i].1.duplicate()));
            i = i + 1;
        }
        proof {
            assert forall|u: Seq<char>| member_ids_of(self@, channel@).contains(u) implies exists|
                j: int,
            | 0 <= j < r@.len() && (#[trigger] r@[j]).0@ == u by {
                let j = choose|j: int| 0 <= j < es@.len() && (#[trigger] es@[j]).0@ == u;
                assert((r@[j]).0@ == u);
            }
        }
        r
    }

    /// How many distinct users a presence channel holds.
    pub fn channel_members_count(&self, channel: &str) -> (n: usize)
        requires
            self.wf(),
        ensures
            n == member_ids_of(self@, channel@).len(),
    {
        self.channel_members(channel).len()
    }
}

} // verus!
