//! Channel names: the allowed alphabet, the length cap, the kind derived from
//! the name's prefix, and the synthetic user-targeted form `#server-to-<id>`.

use vstd::prelude::*;

verus! {

/// Longest channel name the protocol accepts, in characters.
pub const MAX_CHANNEL_NAME_LEN: usize = 164;

/// The four kinds of channel, derived from the name prefix.
#[derive(Clone, Copy, Debug, PartialEq, Eq, Structural)]
pub enum ChannelKind {
    Public,
    Private,
    Presence,
    Encrypted,
}

/// Characters a channel name may contain.
pub open spec fn allowed_channel_char(c: char) -> bool {
    ('A' <= c && c <= 'Z') || ('a' <= c && c <= 'z') || ('0' <= c && c <= '9') || c == '_'
        || c == '-' || c == '=' || c == '@' || c == ',' || c == '.' || c == ';'
}

/// A channel name is valid when it is non-empty, at most
/// `MAX_CHANNEL_NAME_LEN` characters long, and drawn from the allowed
/// alphabet.
pub open spec fn valid_channel_name(s: Seq<char>) -> bool {
    0 < s.len() <= MAX_CHANNEL_NAME_LEN && (forall|i: int|
        0 <= i < s.len() ==> allowed_channel_char(#[trigger] s[i]))
}

/// `p` is a prefix of `s`.
pub open spec fn is_prefix_of(p: Seq<char>, s: Seq<char>) -> bool {
    p.len() <= s.len() && s.subrange(0, p.len() as int) == p
}

/// The kind a channel name denotes, by its prefix.
pub open spec fn kind_of(s: Seq<char>) -> ChannelKind {
    if is_prefix_of("private-encrypted-"@, s) {
        ChannelKind::Encrypted
    } else if is_prefix_of("private-"@, s) {
        ChannelKind::Private
    } else if is_prefix_of("presence-"@, s) {
        ChannelKind::Presence
    } else {
        ChannelKind::Public
    }
}

/// Names of this shape are never stored; they address the sockets of one
/// user at publish time.
pub open spec fn server_to_user_prefix() -> Seq<char> {
    "#server-to-"@
}

/// The user id a `#server-to-<id>` name addresses, when it has that shape.
pub open spec fn spec_user_target(s: Seq<char>) -> Option<Seq<char>> {
    if is_prefix_of(server_to_user_prefix(), s) && s.len() > server_to_user_prefix().len() {
        Some(s.subrange(server_to_user_prefix().len() as int, s.len() as int))
    } else {
        None
    }
}

/// A client-originated event must carry the `client-` prefix.
pub open spec fn is_client_event(e: Seq<char>) -> bool {
    is_prefix_of("client-"@, e)
}

/// Clients may emit their own events only on channels that required
/// authorization to join.
pub open spec fn client_events_allowed_on(kind: ChannelKind) -> bool {
    kind == ChannelKind::Private || kind == ChannelKind::Presence || kind
        == ChannelKind::Encrypted
}

/// Whether `p` is a prefix of `s`, checked character by character.
pub fn has_prefix(s: &str, p: &str) -> (r: bool)
    ensures
        r == is_prefix_of(p@, s@),
{
    let sl = s.unicode_len();
    let pl = p.unicode_len();
    if pl > sl {
        assert(!is_prefix_of(p@, s@));
        return false;
    }
    let mut i: usize = 0;
    while i < pl
        invariant
            i <= pl,
            pl <= sl,
            pl == p@.len(),
            sl == s@.len(),
            forall|j: int| 0 <= j < i ==> s@[j] == p@[j],
        decreases pl - i,
    {
        if s.get_char(i) != p.get_char(i) {
            assert(s@.subrange(0, pl as int) != p@) by {
                assert(s@.subrange(0, pl as int)[i as int] != p@[i as int]);
            }
            return false;
        }
        i = i + 1;
    }
    assert(s@.subrange(0, pl as int) =~= p@);
    true
}

fn allowed_char(c: char) -> (r: bool)
    ensures
        r == allowed_channel_char(c),
{
    ('A' <= c && c <= 'Z') || ('a' <= c && c <= 'z') || ('0' <= c && c <= '9') || c == '_'
        || c == '-' || c == '=' || c == '@' || c == ',' || c == '.' || c == ';'
}

/// Whether a channel name breaks the naming rules (empty, too long, or a
/// character outside the allowed alphabet). Such names are refused with
/// protocol code 4009.
pub fn restricted_channel_name(name: &str) -> (r: bool)
    ensures
        r == !valid_channel_name(name@),
{
    let n = name.unicode_len();
    if n == 0 || n > MAX_CHANNEL_NAME_LEN {
        return true;
    }
    let mut i: usize = 0;
    while i < n
        invariant
            i <= n,
            n == name@.len(),
            0 < n <= MAX_CHANNEL_NAME_LEN,
            forall|j: int| 0 <= j < i ==> allowed_channel_char(#[trigger] name@[j]),
        decreases n - i,
    {
        if !allowed_char(name.get_char(i)) {
            return true;
        }
        i = i + 1;
    }
    false
}

/// The kind of channel a name denotes.
pub fn channel_kind(name: &str) -> (k: ChannelKind)
    ensures
        k == kind_of(name@),
{
    if has_prefix(name, "private-encrypted-") {
        ChannelKind::Encrypted
    } else if has_prefix(name, "private-") {
        ChannelKind::Private
    } else if has_prefix(name, "presence-") {
        ChannelKind::Presence
    } else {
        ChannelKind::Public
    }
}

/// The user id addressed by a `#server-to-<id>` name, or `None` when the
/// name is not of that shape.
pub fn user_target(name: &str) -> (r: Option<String>)
    ensures
        r is Some <==> spec_user_target(name@) is Some,
        r is Some ==> r.unwrap()@ == spec_user_target(name@).unwrap(),
{
    let p = "#server-to-";
    if has_prefix(name, p) {
        let pl = p.unicode_len();
        let nl = name.unicode_len();
        if nl > pl {
            let rest = name.substring_char(pl, nl);
            Some(rest.to_owned())
        } else {
            None
        }
    } else {
        None
    }
}

/// Whether an event name marks a client-originated event.
pub fn client_event(event: &str) -> (r: bool)
    ensures
        r == is_client_event(event@),
{
    has_prefix(event, "client-")
}

} // verus!
