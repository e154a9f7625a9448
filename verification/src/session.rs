//! The WebSocket session: socket id generation, the frames the server emits
//! at each step, and the dispatch of inbound protocol events onto the
//! registry and the channel managers.

use vstd::prelude::*;
use vstd::string::StringSliceAdditionalSpecFns;

use crate::app::App;
use crate::channel::{client_events_allowed_on, kind_of, valid_channel_name, ChannelKind};
use crate::adapters::ids_enumerate;
use crate::auth::spec_auth_token;
use crate::channels::{spec_authorized, spec_authorized_with_data};
use crate::frames::{
    channel_event_frame, dec_of, event_frame, json_str, push_dec, push_json_str, push_lit,
    spec_channel_event_frame, spec_error_frame, spec_event_frame,
};
use crate::namespace::{
    after_join, after_leave, after_signin, chan_set, member_ids_of, Namespace, NamespaceView,
};
use crate::socket::{opt_str_view, MemberView, PresenceMemberInfo};

verus! {

/// How long a client may stay quiet before it must ping, in seconds.
pub const ACTIVITY_TIMEOUT: u64 = 120;

/// Closing code when the server is shutting down.
pub const CODE_SERVER_CLOSING: u64 = 4200;

/// The decimal writing of a number, as characters.
pub open spec fn dec_str_of(n: nat) -> Seq<char>
    decreases n,
{
    if n < 10 {
        seq![(48 + n) as char]
    } else {
        dec_str_of(n / 10) + seq![(48 + n % 10) as char]
    }
}

fn dec_digit_str(n: u8) -> (r: &'static str)
    requires
        n < 10,
    ensures
        r@.len() == 1,
        r@[0] == (48 + n) as char,
{
    proof {
        reveal_strlit("0");
        reveal_strlit("1");
        reveal_strlit("2");
        reveal_strlit("3");
        reveal_strlit("4");
        reveal_strlit("5");
        reveal_strlit("6");
        reveal_strlit("7");
        reveal_strlit("8");
        reveal_strlit("9");
    }
    match n {
        0 => "0",
        1 => "1",
        2 => "2",
        3 => "3",
        4 => "4",
        5 => "5",
        6 => "6",
        7 => "7",
        8 => "8",
        _ => "9",
    }
}

/// The decimal writing of `n`.
pub fn u64_dec_string(n: u64) -> (r: String)
    ensures
        r@ == dec_str_of(n as nat),
    decreases n,
{
    if n < 10 {
        let r = dec_digit_str(n as u8).to_owned();
        proof {
            assert(r@ =~= dec_str_of(n as nat));
        }
        r
    } else {
        let r = u64_dec_string(n / 10).concat(dec_digit_str((n % 10) as u8));
        proof {
            assert(r@ =~= dec_str_of(n as nat));
        }
        r
    }
}

/// A socket id is two numbers up to ten billion, dot-separated.
pub open spec fn is_socket_id_format(s: Seq<char>) -> bool {
    exists|a: nat, b: nat|
        a <= 10_000_000_000 && b <= 10_000_000_000 && s == dec_str_of(a) + "."@ + dec_str_of(b)
}

/// Relies on `rand::random`: a machine-random value; nothing is promised of
/// it.
#[verifier::external_body]
fn random_u64() -> u64 {
    rand::random::<u64>()
}

/// A fresh `<number>.<number>` socket id, each part drawn at random from 0
/// to ten billion.
pub fn generate_socket_id() -> (r: String)
    ensures
        is_socket_id_format(r@),
{
    let a = random_u64() % 10_000_000_001;
    let b = random_u64() % 10_000_000_001;
    let r = u64_dec_string(a).concat(".").concat(u64_dec_string(b).as_str());
    proof {
        reveal_strlit(".");
        assert(r@ == dec_str_of(a as nat) + "."@ + dec_str_of(b as nat));
    }
    r
}

/// The UTF-8 bytes of a string value.
pub open spec fn bytes_of(s: Seq<char>) -> Seq<u8> {
    vstd::utf8::encode_utf8(s)
}

/// The data of `pusher:connection_established`: the socket id and the
/// activity timeout, as an embedded JSON text.
pub open spec fn spec_connection_established_data(sid: Seq<char>) -> Seq<u8> {
    ("{\"socket_id\":").spec_bytes() + json_str(bytes_of(sid)) + (
    ",\"activity_timeout\":120}").spec_bytes()
}

/// The `pusher:connection_established` frame.
pub open spec fn spec_connection_established_frame(sid: Seq<char>) -> Seq<u8> {
    spec_event_frame(
        ("pusher:connection_established").spec_bytes(),
        spec_connection_established_data(sid),
    )
}

/// Build the `pusher:connection_established` frame for a socket.
pub fn connection_established_frame(socket_id: &str) -> (r: Vec<u8>)
    ensures
        r@ == spec_connection_established_frame(socket_id@),
{
    let mut inner: Vec<u8> = Vec::new();
    push_lit(&mut inner, "{\"socket_id\":");
    push_json_str(&mut inner, socket_id);
    push_lit(&mut inner, ",\"activity_timeout\":120}");
    proof {
        assert(inner@ =~= spec_connection_established_data(socket_id@));
    }
    event_frame("pusher:connection_established", inner.as_slice())
}

/// The `pusher:pong` reply.
pub open spec fn spec_pong_frame() -> Seq<u8> {
    spec_event_frame(("pusher:pong").spec_bytes(), ("{}").spec_bytes())
}

/// Build the `pusher:pong` reply.
pub fn pong_frame() -> (r: Vec<u8>)
    ensures
        r@ == spec_pong_frame(),
{
    let mut data: Vec<u8> = Vec::new();
    push_lit(&mut data, "{}");
    event_frame("pusher:pong", data.as_slice())
}

/// The data of a member frame: the user id, and the member's opaque
/// `user_info` JSON verbatim when there is one.
pub open spec fn spec_member_data(m: MemberView) -> Seq<u8> {
    match m.user_info {
        Some(info) => ("{\"user_id\":").spec_bytes() + json_str(bytes_of(m.user_id)) + (
        ",\"user_info\":").spec_bytes() + bytes_of(info) + ("}").spec_bytes(),
        None => ("{\"user_id\":").spec_bytes() + json_str(bytes_of(m.user_id)) + (
        "}").spec_bytes(),
    }
}

fn member_data(m: &PresenceMemberInfo) -> (r: Vec<u8>)
    ensures
        r@ == spec_member_data(m@),
{
    let mut out: Vec<u8> = Vec::new();
    push_lit(&mut out, "{\"user_id\":");
    push_json_str(&mut out, m.user_id.as_str());
    match &m.user_info {
        Some(info) => {
            push_lit(&mut out, ",\"user_info\":");
            push_lit(&mut out, info.as_str());
            push_lit(&mut out, "}");
        },
        None => {
            push_lit(&mut out, "}");
        },
    }
    proof {
        assert(out@ =~= spec_member_data(m@));
    }
    out
}

/// The `pusher_internal:member_added` broadcast.
pub open spec fn spec_member_added_frame(channel: Seq<char>, m: MemberView) -> Seq<u8> {
    spec_channel_event_frame(
        ("pusher_internal:member_added").spec_bytes(),
        bytes_of(channel),
        spec_member_data(m),
    )
}

/// Build the `pusher_internal:member_added` broadcast.
pub fn member_added_frame(channel: &str, m: &PresenceMemberInfo) -> (r: Vec<u8>)
    ensures
        r@ == spec_member_added_frame(channel@, m@),
{
    let data = member_data(m);
    channel_event_frame("pusher_internal:member_added", channel, data.as_slice())
}

/// The `pusher_internal:member_removed` broadcast: only the user id.
pub open spec fn spec_member_removed_frame(channel: Seq<char>, user_id: Seq<char>) -> Seq<u8> {
    spec_channel_event_frame(
        ("pusher_internal:member_removed").spec_bytes(),
        bytes_of(channel),
        ("{\"user_id\":").spec_bytes() + json_str(bytes_of(user_id)) + ("}").spec_bytes(),
    )
}

/// Build the `pusher_internal:member_removed` broadcast.
pub fn member_removed_frame(channel: &str, user_id: &str) -> (r: Vec<u8>)
    ensures
        r@ == spec_member_removed_frame(channel@, user_id@),
{
    let mut data: Vec<u8> = Vec::new();
    push_lit(&mut data, "{\"user_id\":");
    push_json_str(&mut data, user_id);
    push_lit(&mut data, "}");
    channel_event_frame("pusher_internal:member_removed", channel, data.as_slice())
}

/// The `pusher_internal:subscription_succeeded` reply, with the given data
/// text embedded as a string.
pub open spec fn spec_subscription_succeeded_frame(channel: Seq<char>, data: Seq<u8>) -> Seq<u8> {
    spec_channel_event_frame(
        ("pusher_internal:subscription_succeeded").spec_bytes(),
        bytes_of(channel),
        data,
    )
}

/// Build the `pusher_internal:subscription_succeeded` reply.
pub fn subscription_succeeded_frame(channel: &str, data: &[u8]) -> (r: Vec<u8>)
    ensures
        r@ == spec_subscription_succeeded_frame(channel@, data@),
{
    channel_event_frame("pusher_internal:subscription_succeeded", channel, data)
}

/// The data of `pusher:subscription_error`.
pub open spec fn spec_subscription_error_data(message: Seq<char>, code: nat) -> Seq<u8> {
    ("{\"type\":\"AuthError\",\"error\":").spec_bytes() + json_str(bytes_of(message)) + (
    ",\"status\":").spec_bytes() + dec_of(code) + ("}").spec_bytes()
}

/// The `pusher:subscription_error` reply.
pub open spec fn spec_subscription_error_frame(
    channel: Seq<char>,
    message: Seq<char>,
    code: nat,
) -> Seq<u8> {
    spec_channel_event_frame(
        ("pusher:subscription_error").spec_bytes(),
        bytes_of(channel),
        spec_subscription_error_data(message, code),
    )
}

/// Build the `pusher:subscription_error` reply.
pub fn subscription_error_frame(channel: &str, message: &str, code: u64) -> (r: Vec<u8>)
    ensures
        r@ == spec_subscription_error_frame(channel@, message@, code as nat),
{
    let mut data: Vec<u8> = Vec::new();
    push_lit(&mut data, "{\"type\":\"AuthError\",\"error\":");
    push_json_str(&mut data, message);
    push_lit(&mut data, ",\"status\":");
    push_dec(&mut data, code);
    push_lit(&mut data, "}");
    proof {
        assert(data@ =~= spec_subscription_error_data(message@, code as nat));
    }
    channel_event_frame("pusher:subscription_error", channel, data.as_slice())
}

/// The comma-joined JSON string list of the member ids of `pairs`.
pub open spec fn spec_presence_ids(pairs: Seq<(String, PresenceMemberInfo)>) -> Seq<u8>
    decreases pairs.len(),
{
    if pairs.len() == 0 {
        Seq::empty()
    } else if pairs.len() == 1 {
        json_str(bytes_of((pairs[0].0)@))
    } else {
        spec_presence_ids(pairs.drop_last()) + (",").spec_bytes() + json_str(
            bytes_of((pairs.last().0)@),
        )
    }
}

/// The comma-joined `"<id>":<info>` hash entries of `pairs`; a member
/// without info gets `null`.
pub open spec fn spec_presence_hash(pairs: Seq<(String, PresenceMemberInfo)>) -> Seq<u8>
    decreases pairs.len(),
{
    if pairs.len() == 0 {
        Seq::empty()
    } else if pairs.len() == 1 {
        spec_presence_hash_entry(pairs[0])
    } else {
        spec_presence_hash(pairs.drop_last()) + (",").spec_bytes() + spec_presence_hash_entry(
            pairs.last(),
        )
    }
}

/// One `"<id>":<info>` entry of the presence hash.
pub open spec fn spec_presence_hash_entry(pair: (String, PresenceMemberInfo)) -> Seq<u8> {
    json_str(bytes_of((pair.0)@)) + (":").spec_bytes() + (match pair.1.user_info {
        Some(info) => bytes_of(info@),
        None => ("null").spec_bytes(),
    })
}

/// The data of a presence `subscription_succeeded`: ids, hash and count.
pub open spec fn spec_presence_data(pairs: Seq<(String, PresenceMemberInfo)>) -> Seq<u8> {
    ("{\"presence\":{\"ids\":[").spec_bytes() + spec_presence_ids(pairs) + (
    "],\"hash\":{").spec_bytes() + spec_presence_hash(pairs) + ("},\"count\":").spec_bytes()
        + dec_of(pairs.len()) + ("}}").spec_bytes()
}

fn push_presence_hash_entry(out: &mut Vec<u8>, pair: &(String, PresenceMemberInfo))
    ensures
        final(out)@ == old(out)@ + spec_presence_hash_entry(*pair),
{
    push_json_str(out, pair.0.as_str());
    push_lit(out, ":");
    match &pair.1.user_info {
        Some(info) => {
            push_lit(out, info.as_str());
        },
        None => {
            push_lit(out, "null");
        },
    }
    proof {
        assert(out@ =~= old(out)@ + spec_presence_hash_entry(*pair));
    }
}

/// Build the presence `subscription_succeeded` data from the member list.
pub fn presence_data(pairs: &Vec<(String, PresenceMemberInfo)>) -> (r: Vec<u8>)
    ensures
        r@ == spec_presence_data(pairs@),
{
    let n = pairs.len();
    let mut out: Vec<u8> = Vec::new();
    push_lit(&mut out, "{\"presence\":{\"ids\":[");
    let mut i: usize = 0;
    while i < n
        invariant
            i <= n,
            n == pairs@.len(),
            out@ == ("{\"presence\":{\"ids\":[").spec_bytes() + spec_presence_ids(
                pairs@.subrange(0, i as int),
            ),
        decreases n - i,
    {
        let ghost pre = pairs@.subrange(0, i as int);
        if i > 0 {
            push_lit(&mut out, ",");
        }
        push_json_str(&mut out, pairs[i].0.as_str());
        proof {
            assert(pairs@.subrange(0, i + 1).drop_last() =~= pre);
            assert(pairs@.subrange(0, i + 1).last() == pairs@[i as int]);
            assert(out@ =~= ("{\"presence\":{\"ids\":[").spec_bytes() + spec_presence_ids(
                pairs@.subrange(0, i + 1),
            ));
        }
        i = i + 1;
    }
    proof {
        assert(pairs@.subrange(0, n as int) =~= pairs@);
    }
    push_lit(&mut out, "],\"hash\":{");
    let ghost mid = out@;
    let mut i: usize = 0;
    while i < n
        invariant
            i <= n,
            n == pairs@.len(),
            out@ == mid + spec_presence_hash(pairs@.subrange(0, i as int)),
        decreases n - i,
    {
        let ghost pre = pairs@.subrange(0, i as int);
        if i > 0 {
            push_lit(&mut out, ",");
        }
        push_presence_hash_entry(&mut out, &pairs[i]);
        proof {
            assert(pairs@.subrange(0, i + 1).drop_last() =~= pre);
            assert(pairs@.subrange(0, i + 1).last() == pairs@[i as int]);
            assert(out@ =~= mid + spec_presence_hash(pairs@.subrange(0, i + 1)));
        }
        i = i + 1;
    }
    proof {
        assert(pairs@.subrange(0, n as int) =~= pairs@);
    }
    push_lit(&mut out, "},\"count\":");
    push_dec(&mut out, n as u64);
    push_lit(&mut out, "}}");
    proof {
        assert(out@ =~= spec_presence_data(pairs@));
    }
    out
}

/// The `pusher:signin_success` reply: the signed user data echoed back.
pub open spec fn spec_signin_success_frame(user_data: Seq<char>) -> Seq<u8> {
    spec_event_frame(
        ("pusher:signin_success").spec_bytes(),
        ("{\"user_data\":").spec_bytes() + json_str(bytes_of(user_data)) + ("}").spec_bytes(),
    )
}

/// Build the `pusher:signin_success` reply.
pub fn signin_success_frame(user_data: &str) -> (r: Vec<u8>)
    ensures
        r@ == spec_signin_success_frame(user_data@),
{
    let mut data: Vec<u8> = Vec::new();
    push_lit(&mut data, "{\"user_data\":");
    push_json_str(&mut data, user_data);
    push_lit(&mut data, "}");
    event_frame("pusher:signin_success", data.as_slice())
}

/// The text a signin signature covers.
pub open spec fn spec_signin_message(sid: Seq<char>, user_data: Seq<char>) -> Seq<char> {
    sid + "::user::"@ + user_data
}

fn signin_message(socket_id: &str, user_data: &str) -> (r: String)
    ensures
        r@ == spec_signin_message(socket_id@, user_data@),
{
    proof {
        reveal_strlit("::user::");
    }
    socket_id.to_owned().concat("::user::").concat(user_data)
}

/// The query string a client opens its WebSocket with.
pub struct PusherWebsocketQuery {
    pub protocol: Option<u8>,
    pub client: Option<String>,
    pub version: Option<String>,
    pub flash: Option<bool>,
}

/// One parsed inbound protocol message: the fields of the JSON object the
/// client sent. For presence subscriptions and signins the transport hands
/// the parsed member and user values alongside the raw signed texts.
pub struct PusherMessage {
    pub event: Option<String>,
    pub channel: Option<String>,
    /// The raw JSON text of the `data` field, carried verbatim.
    pub data: Option<String>,
    pub auth: Option<String>,
    /// The raw member JSON of a presence subscription, exactly as signed.
    pub channel_data: Option<String>,
    /// The member parsed out of `channel_data`.
    pub member: Option<PresenceMemberInfo>,
    /// The user id parsed out of `user_data` for a signin.
    pub user_id: Option<String>,
    /// The raw user JSON of a signin, exactly as signed.
    pub user_data: Option<String>,
}

/// What the session must do after one inbound message.
pub struct Effects {
    /// Frames to the socket itself, in order.
    pub replies: Vec<Vec<u8>>,
    /// Frames to other sockets: each target list with its frame.
    pub broadcasts: Vec<(Vec<String>, Vec<u8>)>,
    /// Whether the activity timer restarts.
    pub reset_activity: bool,
    /// A close the server must perform, with its code.
    pub close_code: Option<u64>,
}

/// No frames leave and no close happens.
pub open spec fn no_effects(eff: Effects) -> bool {
    eff.replies@.len() == 0 && eff.broadcasts@.len() == 0 && eff.close_code is None
}

/// The message changed nothing and nothing is sent.
pub open spec fn silent_outcome(v0: NamespaceView, v1: NamespaceView, eff: Effects) -> bool {
    v1 == v0 && no_effects(eff) && !eff.reset_activity
}

/// A ping: answered with a pong, and the activity timer restarts.
pub open spec fn ping_outcome(v0: NamespaceView, v1: NamespaceView, eff: Effects) -> bool {
    &&& v1 == v0
    &&& eff.replies@.len() == 1
    &&& (eff.replies@[0])@ == spec_pong_frame()
    &&& eff.broadcasts@.len() == 0
    &&& eff.reset_activity
    &&& eff.close_code is None
}

/// A pong: only the activity timer restarts.
pub open spec fn pong_outcome(v0: NamespaceView, v1: NamespaceView, eff: Effects) -> bool {
    v1 == v0 && no_effects(eff) && eff.reset_activity
}

/// A refused subscription: nothing changes and the client is told the code.
pub open spec fn subscribe_refused(
    v0: NamespaceView,
    v1: NamespaceView,
    c: Seq<char>,
    code: nat,
    eff: Effects,
) -> bool {
    &&& v1 == v0
    &&& eff.replies@.len() == 1
    &&& exists|m: Seq<char>| (eff.replies@[0])@ == spec_subscription_error_frame(c, m, code)
    &&& eff.broadcasts@.len() == 0
    &&& !eff.reset_activity
    &&& eff.close_code is None
}

/// A successful non-presence subscription: recorded, and acknowledged with
/// an empty data object.
pub open spec fn plain_join_outcome(
    v0: NamespaceView,
    v1: NamespaceView,
    c: Seq<char>,
    sid: Seq<char>,
    eff: Effects,
) -> bool {
    &&& v1 == after_join(v0, c, sid, None)
    &&& eff.replies@.len() == 1
    &&& (eff.replies@[0])@ == spec_subscription_succeeded_frame(c, ("{}").spec_bytes())
    &&& eff.broadcasts@.len() == 0
    &&& !eff.reset_activity
    &&& eff.close_code is None
}

/// `pairs` lists each current member of the channel exactly once.
pub open spec fn pairs_enumerate_members(
    pairs: Seq<(String, PresenceMemberInfo)>,
    v: NamespaceView,
    c: Seq<char>,
) -> bool {
    &&& pairs.len() == member_ids_of(v, c).len()
    &&& forall|i: int|
        0 <= i < pairs.len() ==> member_ids_of(v, c).contains((#[trigger] pairs[i]).0@)
    &&& forall|u: Seq<char>|
        member_ids_of(v, c).contains(u) ==> exists|i: int|
            0 <= i < pairs.len() && (#[trigger] pairs[i]).0@ == u
    &&& forall|i: int, j: int| 0 <= i < j < pairs.len() ==> (pairs[i]).0@ != (pairs[j]).0@
}

/// A successful presence subscription: the acknowledgement carries the
/// member list, and `pusher_internal:member_added` goes to every other
/// socket in the channel exactly when a new user id appeared.
pub open spec fn presence_join_outcome(
    v0: NamespaceView,
    v1: NamespaceView,
    c: Seq<char>,
    sid: Seq<char>,
    m: MemberView,
    new_member: bool,
    eff: Effects,
) -> bool {
    &&& eff.replies@.len() == 1
    &&& exists|pairs: Seq<(String, PresenceMemberInfo)>|
        pairs_enumerate_members(pairs, v1, c) && (eff.replies@[0])@
            == spec_subscription_succeeded_frame(c, spec_presence_data(pairs))
    &&& new_member ==> eff.broadcasts@.len() == 1 && ids_enumerate(
        ((eff.broadcasts@[0]).0)@,
        chan_set(v1, c).remove(sid),
    ) && ((eff.broadcasts@[0]).1)@ == spec_member_added_frame(c, m)
    &&& !new_member ==> eff.broadcasts@.len() == 0
    &&& !eff.reset_activity
    &&& eff.close_code is None
}

/// What a `pusher:subscribe` message must come to, for every channel kind.
pub open spec fn subscribe_outcome(
    v0: NamespaceView,
    v1: NamespaceView,
    app: App,
    sid: Seq<char>,
    msg: PusherMessage,
    eff: Effects,
) -> bool {
    match msg.channel {
        None => silent_outcome(v0, v1, eff),
        Some(c) => {
            let kind = kind_of(c@);
            let auth = opt_str_view(msg.auth);
            if !valid_channel_name(c@) {
                subscribe_refused(v0, v1, c@, 4009, eff)
            } else if kind == ChannelKind::Public {
                plain_join_outcome(v0, v1, c@, sid, eff)
            } else if kind == ChannelKind::Private {
                if spec_authorized(auth, app.key@, app.secret@, sid, c@) {
                    plain_join_outcome(v0, v1, c@, sid, eff)
                } else {
                    subscribe_refused(v0, v1, c@, 4009, eff)
                }
            } else if kind == ChannelKind::Encrypted {
                let authorized = match opt_str_view(msg.channel_data) {
                    Some(d) => spec_authorized_with_data(auth, app.key@, app.secret@, sid, c@, d),
                    None => spec_authorized(auth, app.key@, app.secret@, sid, c@),
                };
                if authorized {
                    plain_join_outcome(v0, v1, c@, sid, eff)
                } else {
                    subscribe_refused(v0, v1, c@, 4009, eff)
                }
            } else {
                match (msg.channel_data, msg.member) {
                    (Some(cd), Some(mem)) => {
                        let authorized = spec_authorized_with_data(
                            auth,
                            app.key@,
                            app.secret@,
                            sid,
                            c@,
                            cd@,
                        );
                        let too_large = bytes_of(cd@).len() > app.max_presence_member_size_in_kb
                            * 1024;
                        let already = chan_set(v0, c@).contains(sid);
                        let user_present = member_ids_of(v0, c@).contains(mem.user_id@);
                        let at_cap = member_ids_of(v0, c@).len()
                            >= app.max_presence_members_per_channel;
                        if !authorized {
                            subscribe_refused(v0, v1, c@, 4009, eff)
                        } else if too_large {
                            subscribe_refused(v0, v1, c@, 4301, eff)
                        } else if already {
                            v1 == v0 && presence_join_outcome(v0, v1, c@, sid, mem@, false, eff)
                        } else if user_present {
                            v1 == after_join(v0, c@, sid, Some(mem@)) && presence_join_outcome(
                                v0,
                                v1,
                                c@,
                                sid,
                                mem@,
                                false,
                                eff,
                            )
                        } else if at_cap {
                            subscribe_refused(v0, v1, c@, 4004, eff)
                        } else {
                            v1 == after_join(v0, c@, sid, Some(mem@)) && presence_join_outcome(
                                v0,
                                v1,
                                c@,
                                sid,
                                mem@,
                                true,
                                eff,
                            )
                        }
                    },
                    _ => subscribe_refused(v0, v1, c@, 4009, eff),
                }
            }
        },
    }
}

/// What a `pusher:unsubscribe` message must come to:
/// `pusher_internal:member_removed` goes to the remaining sockets exactly
/// when the user's last socket departed a presence channel.
pub open spec fn unsubscribe_outcome(
    v0: NamespaceView,
    v1: NamespaceView,
    sid: Seq<char>,
    msg: PusherMessage,
    eff: Effects,
) -> bool {
    match msg.channel {
        None => silent_outcome(v0, v1, eff),
        Some(c) => {
            if !v0.sockets.dom().contains(sid) {
                silent_outcome(v0, v1, eff)
            } else {
                let uid_known = v0.sockets[sid].presence.dom().contains(c@);
                let uid = v0.sockets[sid].presence[c@].user_id;
                let removed_last = uid_known && !member_ids_of(after_leave(v0, c@, sid), c@).contains(uid);
                &&& v1 == after_leave(v0, c@, sid)
                &&& eff.replies@.len() == 0
                &&& eff.close_code is None
                &&& !eff.reset_activity
                &&& (kind_of(c@) == ChannelKind::Presence && removed_last) ==> (
                    eff.broadcasts@.len() == 1 && ids_enumerate(
                        ((eff.broadcasts@[0]).0)@,
                        chan_set(v1, c@),
                    ) && ((eff.broadcasts@[0]).1)@ == spec_member_removed_frame(c@, uid))
                &&& !(kind_of(c@) == ChannelKind::Presence && removed_last)
                    ==> eff.broadcasts@.len() == 0
            }
        },
    }
}

/// What a `pusher:signin` message must come to: a correctly signed
/// `<socket_id>::user::<user_data>` binds the user and is acknowledged;
/// anything else is refused with code 4009 and the connection is closed.
pub open spec fn signin_outcome(
    v0: NamespaceView,
    v1: NamespaceView,
    app: App,
    sid: Seq<char>,
    msg: PusherMessage,
    eff: Effects,
) -> bool {
    let ok = {
        &&& msg.user_id is Some
        &&& msg.user_data is Some
        &&& msg.auth is Some
        &&& (msg.auth.unwrap())@ == spec_auth_token(
            app.key@,
            app.secret@,
            spec_signin_message(sid, (msg.user_data.unwrap())@),
        )
        &&& v0.sockets[sid].user is None
    };
    if ok {
        &&& v1 == after_signin(v0, sid, (msg.user_id.unwrap())@)
        &&& eff.replies@.len() == 1
        &&& (eff.replies@[0])@ == spec_signin_success_frame((msg.user_data.unwrap())@)
        &&& eff.broadcasts@.len() == 0
        &&& !eff.reset_activity
        &&& eff.close_code is None
    } else {
        &&& v1 == v0
        &&& eff.replies@.len() == 1
        &&& exists|m: Seq<char>| (eff.replies@[0])@ == spec_error_frame(4009, bytes_of(m))
        &&& eff.broadcasts@.len() == 0
        &&& !eff.reset_activity
        &&& eff.close_code == Some(4009u64)
    }
}

/// What a `client-*` event must come to: on an authorized-kind channel the
/// socket sits in, with client events enabled, the frame goes verbatim to
/// every other socket of the channel; otherwise it is dropped.
pub open spec fn client_event_outcome(
    v0: NamespaceView,
    v1: NamespaceView,
    app: App,
    sid: Seq<char>,
    msg: PusherMessage,
    eff: Effects,
) -> bool {
    let ok = {
        &&& msg.channel is Some
        &&& msg.data is Some
        &&& client_events_allowed_on(kind_of((msg.channel.unwrap())@))
        &&& app.enable_client_messages
        &&& chan_set(v0, (msg.channel.unwrap())@).contains(sid)
    };
    if ok {
        &&& v1 == v0
        &&& eff.replies@.len() == 0
        &&& eff.broadcasts@.len() == 1
        &&& ids_enumerate(
            ((eff.broadcasts@[0]).0)@,
            chan_set(v0, (msg.channel.unwrap())@).remove(sid),
        )
        &&& ((eff.broadcasts@[0]).1)@ == spec_channel_event_frame(
            bytes_of((msg.event.unwrap())@),
            bytes_of((msg.channel.unwrap())@),
            bytes_of((msg.data.unwrap())@),
        )
        &&& !eff.reset_activity
        &&& eff.close_code is None
    } else {
        silent_outcome(v0, v1, eff)
    }
}

fn silent_effects() -> (eff: Effects)
    ensures
        no_effects(eff),
        !eff.reset_activity,
{
    Effects { replies: Vec::new(), broadcasts: Vec::new(), reset_activity: false, close_code: None }
}

/// The other sockets of a channel: everyone in it but `except`.
fn channel_targets_except(ns: &Namespace, channel: &str, except: &str) -> (r: Vec<String>)
    ensures
        ids_enumerate(r@, chan_set(ns@, channel@).remove(except@)),
{
    let base = ns.channel_sockets(channel);
    let r = crate::adapters::filter_except(&base, except);
    proof {
        let s = chan_set(ns@, channel@).remove(except@);
        assert forall|i: int| 0 <= i < r@.len() implies s.contains((#[trigger] r@[i])@) by {
            let i0 = choose|i0: int| 0 <= i0 < base@.len() && ((r@[i])@ == (#[trigger] base@[i0])@);
        }
        assert forall|k: Seq<char>| s.contains(k) implies exists|i: int|
            0 <= i < r@.len() && (#[trigger] r@[i])@ == k by {
            let i0 = choose|i0: int| 0 <= i0 < base@.len() && (#[trigger] base@[i0])@ == k;
            let j = choose|j: int| 0 <= j < r@.len() && ((#[trigger] r@[j])@ == (base@[i0])@);
            assert((r@[j])@ == k);
        }
    }
    r
}

/// Every socket of a channel.
fn channel_targets(ns: &Namespace, channel: &str) -> (r: Vec<String>)
    ensures
        ids_enumerate(r@, chan_set(ns@, channel@)),
{
    ns.channel_sockets(channel)
}

/// What greets a new connection: the server-closing refusal when shutting
/// down, else `pusher:connection_established` and a running activity timer.
pub fn on_open(closing: bool, socket_id: &str) -> (eff: Effects)
    ensures
        closing ==> eff.replies@.len() == 1 && (exists|m: Seq<char>|
            (eff.replies@[0])@ == spec_error_frame(4200, bytes_of(m))) && eff.close_code == Some(
            4200u64,
        ) && eff.broadcasts@.len() == 0 && !eff.reset_activity,
        !closing ==> eff.replies@.len() == 1 && (eff.replies@[0])@
            == spec_connection_established_frame(socket_id@) && eff.broadcasts@.len() == 0
            && eff.close_code is None && eff.reset_activity,
{
    let mut replies: Vec<Vec<u8>> = Vec::new();
    if closing {
        let message = "Server is closing. Please reconnect shortly.";
        let frame = crate::frames::error_frame(CODE_SERVER_CLOSING, message);
        replies.push(frame);
        proof {
            assert((replies@[0])@ == spec_error_frame(4200, bytes_of(message@)));
        }
        Effects {
            replies,
            broadcasts: Vec::new(),
            reset_activity: false,
            close_code: Some(CODE_SERVER_CLOSING),
        }
    } else {
        replies.push(connection_established_frame(socket_id));
        Effects { replies, broadcasts: Vec::new(), reset_activity: true, close_code: None }
    }
}

fn error_reply_effects(channel: &str, message: &str, code: u64) -> (eff: Effects)
    ensures
        eff.replies@.len() == 1,
        (eff.replies@[0])@ == spec_subscription_error_frame(channel@, message@, code as nat),
        eff.broadcasts@.len() == 0,
        !eff.reset_activity,
        eff.close_code is None,
{
    let mut replies: Vec<Vec<u8>> = Vec::new();
    replies.push(subscription_error_frame(channel, message, code));
    Effects { replies, broadcasts: Vec::new(), reset_activity: false, close_code: None }
}

fn join_refused_effects(channel: &str, resp: &crate::channels::JoinResponse) -> (eff: Effects)
    requires
        resp.error_code is Some,
        (resp.error_code == Some(4009i64) || resp.error_code == Some(4004i64) || resp.error_code
            == Some(4301i64)),
    ensures
        eff.replies@.len() == 1,
        exists|m: Seq<char>|
            (eff.replies@[0])@ == #[trigger] spec_subscription_error_frame(
                channel@,
                m,
                resp.error_code.unwrap() as nat,
            ),
        eff.broadcasts@.len() == 0,
        !eff.reset_activity,
        eff.close_code is None,
{
    let message = match &resp.error_message {
        Some(m) => m.as_str(),
        None => "Subscription refused.",
    };
    let code: u64 = match resp.error_code {
        Some(ci) => {
            if ci == 4004 {
                4004
            } else if ci == 4301 {
                4301
            } else {
                4009
            }
        },
        None => 4009,
    };
    let eff = error_reply_effects(channel, message, code);
    proof {
        assert((eff.replies@[0])@ == spec_subscription_error_frame(
            channel@,
            message@,
            resp.error_code.unwrap() as nat,
        ));
    }
    eff
}

proof fn lemma_refused_witness(eff: Effects, c: Seq<char>, resp: crate::channels::JoinResponse)
    requires
        resp.error_code is Some,
        eff.replies@.len() == 1,
        exists|m: Seq<char>|
            (eff.replies@[0])@ == #[trigger] spec_subscription_error_frame(
                c,
                m,
                resp.error_code.unwrap() as nat,
            ),
    ensures
        resp.error_code == Some(4009i64) ==> exists|m: Seq<char>|
            (eff.replies@[0])@ == spec_subscription_error_frame(c, m, 4009),
        resp.error_code == Some(4004i64) ==> exists|m: Seq<char>|
            (eff.replies@[0])@ == spec_subscription_error_frame(c, m, 4004),
        resp.error_code == Some(4301i64) ==> exists|m: Seq<char>|
            (eff.replies@[0])@ == spec_subscription_error_frame(c, m, 4301),
{
    let m = choose|m: Seq<char>|
        (eff.replies@[0])@ == #[trigger] spec_subscription_error_frame(
            c,
            m,
            resp.error_code.unwrap() as nat,
        );
    if resp.error_code == Some(4009i64) {
        assert((eff.replies@[0])@ == spec_subscription_error_frame(c, m, 4009));
    }
    if resp.error_code == Some(4004i64) {
        assert((eff.replies@[0])@ == spec_subscription_error_frame(c, m, 4004));
    }
    if resp.error_code == Some(4301i64) {
        assert((eff.replies@[0])@ == spec_subscription_error_frame(c, m, 4301));
    }
}

fn subscribe_public(ns: &mut Namespace, socket_id: &str, channel: &str) -> (eff: Effects)
    requires
        old(ns).wf(),
        old(ns)@.sockets.dom().contains(socket_id@),
        kind_of(channel@) == ChannelKind::Public,
    ensures
        final(ns).wf(),
        !valid_channel_name(channel@) ==> subscribe_refused(old(ns)@, final(ns)@, channel@, 4009, eff),
        valid_channel_name(channel@) ==> plain_join_outcome(
            old(ns)@,
            final(ns)@,
            channel@,
            socket_id@,
            eff,
        ),
{
    let resp = crate::channels::PublicChannelManager::join(ns, channel, socket_id);
    if resp.success {
        let mut replies: Vec<Vec<u8>> = Vec::new();
        let mut data: Vec<u8> = Vec::new();
        push_lit(&mut data, "{}");
        replies.push(subscription_succeeded_frame(channel, data.as_slice()));
        Effects { replies, broadcasts: Vec::new(), reset_activity: false, close_code: None }
    } else {
        let eff = join_refused_effects(channel, &resp);
        proof {
            lemma_refused_witness(eff, channel@, resp);
        }
        eff
    }
}

fn subscribe_private(
    ns: &mut Namespace,
    app: &App,
    socket_id: &str,
    channel: &str,
    auth: Option<&str>,
) -> (eff: Effects)
    requires
        old(ns).wf(),
        old(ns)@.sockets.dom().contains(socket_id@),
        kind_of(channel@) == ChannelKind::Private,
    ensures
        final(ns).wf(),
        ({
            let authorized = spec_authorized(
                match auth {
                    Some(a) => Some(a@),
                    None => None,
                },
                app.key@,
                app.secret@,
                socket_id@,
                channel@,
            );
            &&& !valid_channel_name(channel@) ==> subscribe_refused(
                old(ns)@,
                final(ns)@,
                channel@,
                4009,
                eff,
            )
            &&& (valid_channel_name(channel@) && !authorized) ==> subscribe_refused(
                old(ns)@,
                final(ns)@,
                channel@,
                4009,
                eff,
            )
            &&& (valid_channel_name(channel@) && authorized) ==> plain_join_outcome(
                old(ns)@,
                final(ns)@,
                channel@,
                socket_id@,
                eff,
            )
        }),
{
    let resp = crate::channels::PrivateChannelManager::join(ns, channel, socket_id, auth, app);
    if resp.success {
        let mut replies: Vec<Vec<u8>> = Vec::new();
        let mut data: Vec<u8> = Vec::new();
        push_lit(&mut data, "{}");
        replies.push(subscription_succeeded_frame(channel, data.as_slice()));
        Effects { replies, broadcasts: Vec::new(), reset_activity: false, close_code: None }
    } else {
        let eff = join_refused_effects(channel, &resp);
        proof {
            lemma_refused_witness(eff, channel@, resp);
        }
        eff
    }
}

fn subscribe_encrypted(
    ns: &mut Namespace,
    app: &App,
    socket_id: &str,
    channel: &str,
    auth: Option<&str>,
    channel_data: Option<&str>,
) -> (eff: Effects)
    requires
        old(ns).wf(),
        old(ns)@.sockets.dom().contains(socket_id@),
        kind_of(channel@) == ChannelKind::Encrypted,
    ensures
        final(ns).wf(),
        ({
            let a = match auth {
                Some(a) => Some(a@),
                None => None,
            };
            let authorized = match channel_data {
                Some(d) => spec_authorized_with_data(
                    a,
                    app.key@,
                    app.secret@,
                    socket_id@,
                    channel@,
                    d@,
                ),
                None => spec_authorized(a, app.key@, app.secret@, socket_id@, channel@),
            };
            &&& !valid_channel_name(channel@) ==> subscribe_refused(
                old(ns)@,
                final(ns)@,
                channel@,
                4009,
                eff,
            )
            &&& (valid_channel_name(channel@) && !authorized) ==> subscribe_refused(
                old(ns)@,
                final(ns)@,
                channel@,
                4009,
                eff,
            )
            &&& (valid_channel_name(channel@) && authorized) ==> plain_join_outcome(
                old(ns)@,
                final(ns)@,
                channel@,
                socket_id@,
                eff,
            )
        }),
{
    let resp = crate::channels::EncryptedChannelManager::join(
        ns,
        channel,
        socket_id,
        auth,
        channel_data,
        app,
    );
    if resp.success {
        let mut replies: Vec<Vec<u8>> = Vec::new();
        let mut data: Vec<u8> = Vec::new();
        push_lit(&mut data, "{}");
        replies.push(subscription_succeeded_frame(channel, data.as_slice()));
        Effects { replies, broadcasts: Vec::new(), reset_activity: false, close_code: None }
    } else {
        let eff = join_refused_effects(channel, &resp);
        proof {
            lemma_refused_witness(eff, channel@, resp);
        }
        eff
    }
}

#[verifier::rlimit(100)]
fn presence_reply(
    ns: &Namespace,
    channel: &str,
    socket_id: &str,
    member: &PresenceMemberInfo,
    new_member: bool,
) -> (eff: Effects)
    requires
        ns.wf(),
    ensures
        eff.replies@.len() == 1,
        exists|pairs: Seq<(String, PresenceMemberInfo)>|
            pairs_enumerate_members(pairs, ns@, channel@) && (eff.replies@[0])@
                == spec_subscription_succeeded_frame(channel@, spec_presence_data(pairs)),
        new_member ==> eff.broadcasts@.len() == 1 && ids_enumerate(
            ((eff.broadcasts@[0]).0)@,
            chan_set(ns@, channel@).remove(socket_id@),
        ) && ((eff.broadcasts@[0]).1)@ == spec_member_added_frame(channel@, member@),
        !new_member ==> eff.broadcasts@.len() == 0,
        !eff.reset_activity,
        eff.close_code is None,
{
    let pairs = ns.channel_members_pairs(channel);
    let data = presence_data(&pairs);
    let mut replies: Vec<Vec<u8>> = Vec::new();
    replies.push(subscription_succeeded_frame(channel, data.as_slice()));
    proof {
        assert(pairs_enumerate_members(pairs@, ns@, channel@));
        assert((replies@[0])@ == spec_subscription_succeeded_frame(
            channel@,
            spec_presence_data(pairs@),
        ));
    }
    let mut broadcasts: Vec<(Vec<String>, Vec<u8>)> = Vec::new();
    if new_member {
        let targets = channel_targets_except(ns, channel, socket_id);
        broadcasts.push((targets, member_added_frame(channel, member)));
    }
    Effects { replies, broadcasts, reset_activity: false, close_code: None }
}

#[verifier::rlimit(100)]
fn subscribe_presence(
    ns: &mut Namespace,
    app: &App,
    socket_id: &str,
    channel: &str,
    auth: Option<&str>,
    channel_data: &str,
    member: &PresenceMemberInfo,
) -> (eff: Effects)
    requires
        old(ns).wf(),
        old(ns)@.sockets.dom().contains(socket_id@),
        kind_of(channel@) == ChannelKind::Presence,
    ensures
        final(ns).wf(),
        ({
            let v0 = old(ns)@;
            let v1 = final(ns)@;
            let a = match auth {
                Some(x) => Some(x@),
                None => None,
            };
            let authorized = spec_authorized_with_data(
                a,
                app.key@,
                app.secret@,
                socket_id@,
                channel@,
                channel_data@,
            );
            let too_large = bytes_of(channel_data@).len() > app.max_presence_member_size_in_kb
                * 1024;
            let already = chan_set(v0, channel@).contains(socket_id@);
            let user_present = member_ids_of(v0, channel@).contains(member.user_id@);
            let at_cap = member_ids_of(v0, channel@).len() >= app.max_presence_members_per_channel;
            &&& !valid_channel_name(channel@) ==> subscribe_refused(v0, v1, channel@, 4009, eff)
            &&& (valid_channel_name(channel@) && !authorized) ==> subscribe_refused(
                v0,
                v1,
                channel@,
                4009,
                eff,
            )
            &&& (valid_channel_name(channel@) && authorized && too_large) ==> subscribe_refused(
                v0,
                v1,
                channel@,
                4301,
                eff,
            )
            &&& (valid_channel_name(channel@) && authorized && !too_large && already) ==> (v1 == v0
                && presence_join_outcome(v0, v1, channel@, socket_id@, member@, false, eff))
            &&& (valid_channel_name(channel@) && authorized && !too_large && !already
                && user_present) ==> (v1 == after_join(v0, channel@, socket_id@, Some(member@))
                && presence_join_outcome(v0, v1, channel@, socket_id@, member@, false, eff))
            &&& (valid_channel_name(channel@) && authorized && !too_large && !already
                && !user_present && at_cap) ==> subscribe_refused(v0, v1, channel@, 4004, eff)
            &&& (valid_channel_name(channel@) && authorized && !too_large && !already
                && !user_present && !at_cap) ==> (v1 == after_join(
                v0,
                channel@,
                socket_id@,
                Some(member@),
            ) && presence_join_outcome(v0, v1, channel@, socket_id@, member@, true, eff))
        }),
{
    let resp = crate::channels::PresenceChannelManager::join(
        ns,
        channel,
        socket_id,
        auth,
        channel_data,
        member.duplicate(),
        app,
    );
    if resp.success {
        let new_member = match resp.member {
            Some(b) => b,
            None => false,
        };
        presence_reply(ns, channel, socket_id, member, new_member)
    } else {
        let eff = join_refused_effects(channel, &resp);
        proof {
            lemma_refused_witness(eff, channel@, resp);
        }
        eff
    }
}

fn handle_subscribe(ns: &mut Namespace, app: &App, socket_id: &str, msg: &PusherMessage) -> (eff:
    Effects)
    requires
        old(ns).wf(),
        old(ns)@.sockets.dom().contains(socket_id@),
    ensures
        final(ns).wf(),
        subscribe_outcome(old(ns)@, final(ns)@, *app, socket_id@, *msg, eff),
{
    let channel = match &msg.channel {
        Some(c) => c.as_str(),
        None => {
            return silent_effects();
        },
    };
    let auth: Option<&str> = match &msg.auth {
        Some(a) => Some(a.as_str()),
        None => None,
    };
    let kind = crate::channel::channel_kind(channel);
    match kind {
        ChannelKind::Public => subscribe_public(ns, socket_id, channel),
        ChannelKind::Private => subscribe_private(ns, app, socket_id, channel, auth),
        ChannelKind::Encrypted => {
            let channel_data: Option<&str> = match &msg.channel_data {
                Some(d) => Some(d.as_str()),
                None => None,
            };
            subscribe_encrypted(ns, app, socket_id, channel, auth, channel_data)
        },
        ChannelKind::Presence => {
            match (&msg.channel_data, &msg.member) {
                (Some(cd), Some(mem)) => subscribe_presence(
                    ns,
                    app,
                    socket_id,
                    channel,
                    auth,
                    cd.as_str(),
                    mem,
                ),
                _ => error_reply_effects(
                    channel,
                    "A presence subscription needs signed member data.",
                    4009,
                ),
            }
        },
    }
}

fn handle_unsubscribe(ns: &mut Namespace, socket_id: &str, msg: &PusherMessage) -> (eff: Effects)
    requires
        old(ns).wf(),
    ensures
        final(ns).wf(),
        unsubscribe_outcome(old(ns)@, final(ns)@, socket_id@, *msg, eff),
{
    let channel = match &msg.channel {
        Some(c) => c.as_str(),
        None => {
            return silent_effects();
        },
    };
    let kind = crate::channel::channel_kind(channel);
    if matches!(kind, ChannelKind::Presence) {
        let uid: Option<String> = match ns.get_socket(socket_id) {
            Some(w) => match w.presence_channels.get(channel) {
                Some(info) => Some(info.user_id.clone()),
                None => None,
            },
            None => {
                return silent_effects();
            },
        };
        let resp = crate::channels::PresenceChannelManager::leave(ns, socket_id, channel);
        if !resp.left {
            return silent_effects();
        }
        let removed_last = match resp.member {
            Some(b) => b,
            None => false,
        };
        let mut broadcasts: Vec<(Vec<String>, Vec<u8>)> = Vec::new();
        if removed_last {
            let u = match uid {
                Some(u) => u,
                None => {
                    proof {
                        assert(false);
                    }
                    vstd::pervasive::unreached()
                },
            };
            let targets = channel_targets(ns, channel);
            broadcasts.push((targets, member_removed_frame(channel, u.as_str())));
        }
        Effects { replies: Vec::new(), broadcasts, reset_activity: false, close_code: None }
    } else {
        match ns.remove_from_channel(socket_id, channel) {
            Some(_) => Effects {
                replies: Vec::new(),
                broadcasts: Vec::new(),
                reset_activity: false,
                close_code: None,
            },
            None => silent_effects(),
        }
    }
}

fn handle_signin(ns: &mut Namespace, app: &App, socket_id: &str, msg: &PusherMessage) -> (eff:
    Effects)
    requires
        old(ns).wf(),
        old(ns)@.sockets.dom().contains(socket_id@),
    ensures
        final(ns).wf(),
        signin_outcome(old(ns)@, final(ns)@, *app, socket_id@, *msg, eff),
{
    let refused_message = "Connection not authorized to sign in.";
    match (&msg.user_id, &msg.user_data, &msg.auth) {
        (Some(uid), Some(ud), Some(a)) => {
            let message = signin_message(socket_id, ud.as_str());
            let authorized = crate::auth::valid_auth_token(
                a.as_str(),
                app.key.as_str(),
                app.secret.as_str(),
                message.as_str(),
            );
            if authorized {
                let bound = ns.add_user(socket_id, crate::socket::User { id: uid.clone() });
                if bound {
                    let mut replies: Vec<Vec<u8>> = Vec::new();
                    replies.push(signin_success_frame(ud.as_str()));
                    return Effects {
                        replies,
                        broadcasts: Vec::new(),
                        reset_activity: false,
                        close_code: None,
                    };
                }
            }
            let mut replies: Vec<Vec<u8>> = Vec::new();
            let frame = crate::frames::error_frame(4009, refused_message);
            replies.push(frame);
            proof {
                assert((replies@[0])@ == spec_error_frame(4009, bytes_of(refused_message@)));
            }
            Effects {
                replies,
                broadcasts: Vec::new(),
                reset_activity: false,
                close_code: Some(4009),
            }
        },
        _ => {
            let mut replies: Vec<Vec<u8>> = Vec::new();
            let frame = crate::frames::error_frame(4009, refused_message);
            replies.push(frame);
            proof {
                assert((replies@[0])@ == spec_error_frame(4009, bytes_of(refused_message@)));
            }
            Effects {
                replies,
                broadcasts: Vec::new(),
                reset_activity: false,
                close_code: Some(4009),
            }
        },
    }
}

fn handle_client_event(ns: &Namespace, app: &App, socket_id: &str, msg: &PusherMessage) -> (eff:
    Effects)
    requires
        msg.event is Some,
    ensures
        client_event_outcome(ns@, ns@, *app, socket_id@, *msg, eff),
{
    let (channel, data) = match (&msg.channel, &msg.data) {
        (Some(c), Some(d)) => (c.as_str(), d.as_str()),
        _ => {
            return silent_effects();
        },
    };
    let kind = crate::channel::channel_kind(channel);
    let allowed = match kind {
        ChannelKind::Private => true,
        ChannelKind::Presence => true,
        ChannelKind::Encrypted => true,
        ChannelKind::Public => false,
    };
    if !allowed || !app.enable_client_messages || !ns.is_in_channel(channel, socket_id) {
        return silent_effects();
    }
    let event = match &msg.event {
        Some(e) => e.as_str(),
        None => {
            proof {
                assert(false);
            }
            vstd::pervasive::unreached()
        },
    };
    let targets = channel_targets_except(ns, channel, socket_id);
    let frame = channel_event_frame(event, channel, data.as_bytes());
    let mut broadcasts: Vec<(Vec<String>, Vec<u8>)> = Vec::new();
    broadcasts.push((targets, frame));
    Effects { replies: Vec::new(), broadcasts, reset_activity: false, close_code: None }
}

/// After tearing `sid` down from `v0` (giving `v1`), channel `c` owes a
/// `member_removed` broadcast: the socket held presence info for `c` and its
/// user is no longer represented there.
#[verifier::opaque]
pub open spec fn teardown_notifies(
    v0: NamespaceView,
    v1: NamespaceView,
    sid: Seq<char>,
    c: Seq<char>,
) -> bool {
    &&& v0.sockets[sid].presence.dom().contains(c)
    &&& !member_ids_of(v1, c).contains(v0.sockets[sid].presence[c].user_id)
}

/// One teardown broadcast is sound: it names some presence channel that
/// owes a `member_removed` for the torn-down socket's user, carries exactly
/// that frame, and goes to exactly the channel's remaining sockets.
#[verifier::opaque]
pub open spec fn teardown_broadcast_ok(
    v0: NamespaceView,
    v1: NamespaceView,
    sid: Seq<char>,
    entry: (Vec<String>, Vec<u8>),
) -> bool {
    exists|c: Seq<char>|
        #[trigger] teardown_notifies(v0, v1, sid, c) && (entry.1)@ == spec_member_removed_frame(
            c,
            v0.sockets[sid].presence[c].user_id,
        ) && ids_enumerate((entry.0)@, chan_set(v1, c))
}

/// Tear a closed socket down: every membership is withdrawn, and for each
/// presence channel where it was its user's last socket, the remaining
/// sockets are told with `pusher_internal:member_removed`.
/// The presence memberships a socket holds, as channel / user-id pairs.
fn presence_pairs_of(ns: &Namespace, socket_id: &str) -> (r: Option<Vec<(String, String)>>)
    ensures
        r is Some <==> ns@.sockets.dom().contains(socket_id@),
        r matches Some(pairs) ==> ({
            let p = ns@.sockets[socket_id@].presence;
            &&& forall|j: int|
                0 <= j < pairs@.len() ==> p.dom().contains((#[trigger] pairs@[j]).0@) && p[(
                pairs@[j]).0@].user_id == (pairs@[j]).1@
            &&& forall|c: Seq<char>|
                #[trigger] p.dom().contains(c) ==> exists|j: int|
                    0 <= j < pairs@.len() && (#[trigger] pairs@[j]).0@ == c
        }),
{
    let ghost v0 = ns@;
    let ghost sid = socket_id@;
    match ns.get_socket(socket_id) {
        Some(w) => {
            let es = w.presence_channels.entries();
            let n = es.len();
            let mut v: Vec<(String, String)> = Vec::new();
            let mut i: usize = 0;
            proof {
                assert(w@ == v0.sockets[sid]);
            }
            while i < n
                invariant
                    i <= n,
                    n == es@.len(),
                    v@.len() == i,
                    w@ == v0.sockets[sid],
                    forall|j: int|
                        0 <= j < n ==> w.presence_channels@.dom().contains(
                            (#[trigger] es@[j]).0@,
                        ) && w.presence_channels@[(es@[j]).0@] == (es@[j]).1,
                    forall|k: Seq<char>|
                        w.presence_channels@.dom().contains(k) ==> exists|j: int|
                            0 <= j < n && (#[trigger] es@[j]).0@ == k,
                    forall|j: int|
                        0 <= j < i ==> (#[trigger] v@[j]).0@ == (es@[j]).0@ && (v@[j]).1@ == ((
                        es@[j]).1).user_id@,
                decreases n - i,
            {
                v.push((es[i].0.clone(), es[i].1.user_id.clone()));
                i = i + 1;
            }
            proof {
                assert forall|j: int|
                    0 <= j < v@.len() implies v0.sockets[sid].presence.dom().contains(
                    (#[trigger] v@[j]).0@,
                ) && v0.sockets[sid].presence[(v@[j]).0@].user_id == (v@[j]).1@ by {
                    assert(w.presence_channels@.dom().contains((es@[j]).0@));
                    assert(v0.sockets[sid].presence[(es@[j]).0@] == (w.presence_channels@[(
                    es@[j]).0@])@);
                }
                assert forall|c: Seq<char>|
                    #[trigger] v0.sockets[sid].presence.dom().contains(c) implies exists|j: int|
                    0 <= j < v@.len() && (#[trigger] v@[j]).0@ == c by {
                    assert(w.presence_channels@.dom().contains(c));
                    let j = choose|j: int| 0 <= j < es@.len() && (#[trigger] es@[j]).0@ == c;
                    assert((v@[j]).0@ == c);
                }
            }
            Some(v)
        },
        None => None,
    }
}

/// The `member_removed` broadcasts a teardown owes, computed over the
/// registry as it stands after the removal.
#[verifier::rlimit(100)]
fn teardown_broadcasts(
    ns: &Namespace,
    pairs: &Vec<(String, String)>,
    Ghost(v0): Ghost<NamespaceView>,
    Ghost(sid): Ghost<Seq<char>>,
) -> (broadcasts: Vec<(Vec<String>, Vec<u8>)>)
    requires
        ns.wf(),
        forall|j: int|
            0 <= j < pairs@.len() ==> v0.sockets[sid].presence.dom().contains(
                (#[trigger] pairs@[j]).0@,
            ) && v0.sockets[sid].presence[(pairs@[j]).0@].user_id == (pairs@[j]).1@,
        forall|c: Seq<char>|
            #[trigger] v0.sockets[sid].presence.dom().contains(c) ==> exists|j: int|
                0 <= j < pairs@.len() && (#[trigger] pairs@[j]).0@ == c,
    ensures
        forall|i: int|
            0 <= i < broadcasts@.len() ==> teardown_broadcast_ok(
                v0,
                ns@,
                sid,
                #[trigger] broadcasts@[i],
            ),
        forall|c: Seq<char>|
            #[trigger] v0.sockets[sid].presence.dom().contains(c) && teardown_notifies(
                v0,
                ns@,
                sid,
                c,
            ) ==> exists|i: int|
                0 <= i < broadcasts@.len() && ((broadcasts@[i]).1)@ == spec_member_removed_frame(
                    c,
                    v0.sockets[sid].presence[c].user_id,
                ),
{
    let ghost v1 = ns@;
    let n = pairs.len();
    let mut broadcasts: Vec<(Vec<String>, Vec<u8>)> = Vec::new();
    let mut i: usize = 0;
    while i < n
        invariant
            i <= n,
            n == pairs@.len(),
            ns.wf(),
            v1 == ns@,
            forall|j: int|
                0 <= j < n ==> v0.sockets[sid].presence.dom().contains((#[trigger] pairs@[j]).0@)
                    && v0.sockets[sid].presence[(pairs@[j]).0@].user_id == (pairs@[j]).1@,
            forall|x: int|
                0 <= x < broadcasts@.len() ==> teardown_broadcast_ok(
                    v0,
                    v1,
                    sid,
                    #[trigger] broadcasts@[x],
                ),
            forall|j: int|
                0 <= j < i && teardown_notifies(v0, v1, sid, (#[trigger] pairs@[j]).0@)
                    ==> exists|x: int|
                    0 <= x < broadcasts@.len() && ((broadcasts@[x]).1)@
                        == spec_member_removed_frame(
                        (pairs@[j]).0@,
                        v0.sockets[sid].presence[(pairs@[j]).0@].user_id,
                    ),
        decreases n - i,
    {
        let ghost bpre = broadcasts@;
        let members = ns.channel_members(pairs[i].0.as_str());
        if !members.contains_key(pairs[i].1.as_str()) {
            let targets = channel_targets(ns, pairs[i].0.as_str());
            let frame = member_removed_frame(pairs[i].0.as_str(), pairs[i].1.as_str());
            proof {
                reveal(teardown_notifies);
                assert(teardown_notifies(v0, v1, sid, (pairs@[i as int]).0@));
                assert(frame@ == spec_member_removed_frame(
                    (pairs@[i as int]).0@,
                    v0.sockets[sid].presence[(pairs@[i as int]).0@].user_id,
                ));
            }
            let ghost entry = (targets, frame);
            proof {
                assert((entry.1)@ == spec_member_removed_frame(
                    (pairs@[i as int]).0@,
                    v0.sockets[sid].presence[(pairs@[i as int]).0@].user_id,
                ) && ids_enumerate((entry.0)@, chan_set(v1, (pairs@[i as int]).0@)));
                assert(teardown_broadcast_ok(v0, v1, sid, entry)) by {
                    reveal(teardown_broadcast_ok);
                };
            }
            broadcasts.push((targets, frame));
            proof {
                assert(broadcasts@[broadcasts@.len() - 1] == entry);
            }
        }
        proof {
            reveal(teardown_notifies);
            assert forall|j: int|
                0 <= j < i + 1 && teardown_notifies(v0, v1, sid, (#[trigger] pairs@[j]).0@) implies exists|
                x: int,
            |
                0 <= x < broadcasts@.len() && ((broadcasts@[x]).1)@ == spec_member_removed_frame(
                    (pairs@[j]).0@,
                    v0.sockets[sid].presence[(pairs@[j]).0@].user_id,
                ) by {
                if j < i {
                    let x = choose|x: int|
                        0 <= x < bpre.len() && ((#[trigger] bpre[x]).1)@
                            == spec_member_removed_frame(
                            (pairs@[j]).0@,
                            v0.sockets[sid].presence[(pairs@[j]).0@].user_id,
                        );
                    assert(((broadcasts@[x]).1)@ == spec_member_removed_frame(
                        (pairs@[j]).0@,
                        v0.sockets[sid].presence[(pairs@[j]).0@].user_id,
                    ));
                } else {
                    assert(((broadcasts@[broadcasts@.len() - 1]).1)@ == spec_member_removed_frame(
                        (pairs@[j]).0@,
                        v0.sockets[sid].presence[(pairs@[j]).0@].user_id,
                    ));
                }
            }
        }
        i = i + 1;
    }
    proof {
        reveal(teardown_notifies);
        assert forall|c: Seq<char>|
            #[trigger] v0.sockets[sid].presence.dom().contains(c) && teardown_notifies(
                v0,
                v1,
                sid,
                c,
            ) implies exists|x: int|
            0 <= x < broadcasts@.len() && ((broadcasts@[x]).1)@ == spec_member_removed_frame(
                c,
                v0.sockets[sid].presence[c].user_id,
            ) by {
            let j = choose|j: int| 0 <= j < n && (#[trigger] pairs@[j]).0@ == c;
        }
    }
    broadcasts
}

#[verifier::rlimit(100)]
#[verifier::spinoff_prover]
pub fn on_close(ns: &mut Namespace, socket_id: &str) -> (eff: Effects)
    requires
        old(ns).wf(),
    ensures
        final(ns).wf(),
        !old(ns)@.sockets.dom().contains(socket_id@) ==> final(ns)@ == old(ns)@ && no_effects(eff),
        old(ns)@.sockets.dom().contains(socket_id@) ==> ({
            let v0 = old(ns)@;
            let v1 = final(ns)@;
            let sid = socket_id@;
            &&& v1 == crate::namespace::after_socket_removal(v0, sid)
            &&& eff.replies@.len() == 0
            &&& eff.close_code is None
            &&& !eff.reset_activity
            &&& forall|i: int|
                0 <= i < eff.broadcasts@.len() ==> teardown_broadcast_ok(
                    v0,
                    v1,
                    sid,
                    #[trigger] eff.broadcasts@[i],
                )
            &&& forall|c: Seq<char>|
                #[trigger] v0.sockets[sid].presence.dom().contains(c) && teardown_notifies(
                    v0,
                    v1,
                    sid,
                    c,
                ) ==> exists|i: int|
                    0 <= i < eff.broadcasts@.len() && ((eff.broadcasts@[i]).1)@
                        == spec_member_removed_frame(c, v0.sockets[sid].presence[c].user_id)
        }),
{
    let ghost v0 = ns@;
    let ghost sid = socket_id@;
    let pairs = match presence_pairs_of(ns, socket_id) {
        Some(pairs) => pairs,
        None => {
            return silent_effects();
        },
    };
    let removed = ns.remove_socket(socket_id);
    proof {
        assert(removed);
    }
    let broadcasts = teardown_broadcasts(ns, &pairs, Ghost(v0), Ghost(sid));
    let eff = Effects { replies: Vec::new(), broadcasts, reset_activity: false, close_code: None };
    proof {
        assert forall|c: Seq<char>|
            #[trigger] v0.sockets[sid].presence.dom().contains(c) && teardown_notifies(
                v0,
                ns@,
                sid,
                c,
            ) implies exists|i: int|
            0 <= i < eff.broadcasts@.len() && ((eff.broadcasts@[i]).1)@
                == spec_member_removed_frame(c, v0.sockets[sid].presence[c].user_id) by {
            let i = choose|i: int|
                0 <= i < eff.broadcasts@.len() && ((#[trigger] eff.broadcasts@[i]).1)@
                    == spec_member_removed_frame(c, v0.sockets[sid].presence[c].user_id);
        }
    }
    eff
}

/// Dispatch one inbound message: the reserved `pusher:` events, client
/// events, and silence for everything else.
pub fn on_message(ns: &mut Namespace, app: &App, socket_id: &str, msg: &PusherMessage) -> (eff:
    Effects)
    requires
        old(ns).wf(),
        old(ns)@.sockets.dom().contains(socket_id@),
    ensures
        final(ns).wf(),
        ({
            let v0 = old(ns)@;
            let v1 = final(ns)@;
            let ev = opt_str_view(msg.event);
            &&& ev is None ==> silent_outcome(v0, v1, eff)
            &&& ev == Some("pusher:ping"@) ==> ping_outcome(v0, v1, eff)
            &&& ev == Some("pusher:pong"@) ==> pong_outcome(v0, v1, eff)
            &&& ev == Some("pusher:subscribe"@) ==> subscribe_outcome(
                v0,
                v1,
                *app,
                socket_id@,
                *msg,
                eff,
            )
            &&& ev == Some("pusher:unsubscribe"@) ==> unsubscribe_outcome(
                v0,
                v1,
                socket_id@,
                *msg,
                eff,
            )
            &&& ev == Some("pusher:signin"@) ==> signin_outcome(v0, v1, *app, socket_id@, *msg, eff)
            &&& (ev matches Some(e) && e != "pusher:ping"@ && e != "pusher:pong"@ && e
                != "pusher:subscribe"@ && e != "pusher:unsubscribe"@ && e != "pusher:signin"@
                && crate::channel::is_client_event(e)) ==> client_event_outcome(
                v0,
                v1,
                *app,
                socket_id@,
                *msg,
                eff,
            )
            &&& (ev matches Some(e) && e != "pusher:ping"@ && e != "pusher:pong"@ && e
                != "pusher:subscribe"@ && e != "pusher:unsubscribe"@ && e != "pusher:signin"@
                && !crate::channel::is_client_event(e)) ==> silent_outcome(v0, v1, eff)
        }),
{
    proof {
        reveal_strlit("pusher:ping");
        reveal_strlit("pusher:pong");
        reveal_strlit("pusher:subscribe");
        reveal_strlit("pusher:unsubscribe");
        reveal_strlit("pusher:signin");
        assert("pusher:ping"@.len() == 11);
        assert("pusher:pong"@.len() == 11);
        assert("pusher:subscribe"@.len() == 16);
        assert("pusher:unsubscribe"@.len() == 18);
        assert("pusher:signin"@.len() == 13);
        assert("pusher:ping"@ != "pusher:pong"@) by {
            assert("pusher:ping"@[8] == 'i');
            assert("pusher:pong"@[8] == 'o');
        }
    }
    let event = match &msg.event {
        Some(e) => e.as_str(),
        None => {
            return silent_effects();
        },
    };
    if crate::strmap::str_eq(event, "pusher:ping") {
        let mut replies: Vec<Vec<u8>> = Vec::new();
        replies.push(pong_frame());
        Effects { replies, broadcasts: Vec::new(), reset_activity: true, close_code: None }
    } else if crate::strmap::str_eq(event, "pusher:pong") {
        Effects {
            replies: Vec::new(),
            broadcasts: Vec::new(),
            reset_activity: true,
            close_code: None,
        }
    } else if crate::strmap::str_eq(event, "pusher:subscribe") {
        handle_subscribe(ns, app, socket_id, msg)
    } else if crate::strmap::str_eq(event, "pusher:unsubscribe") {
        handle_unsubscribe(ns, socket_id, msg)
    } else if crate::strmap::str_eq(event, "pusher:signin") {
        handle_signin(ns, app, socket_id, msg)
    } else if crate::channel::client_event(event) {
        handle_client_event(ns, app, socket_id, msg)
    } else {
        silent_effects()
    }
}

} // verus!
