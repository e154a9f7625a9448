//! Join / leave semantics of the four channel kinds: name screening, HMAC
//! authorization for private, encrypted and presence channels, presence
//! member bookkeeping with its caps, and the responses handed back to the
//! session.

use vstd::prelude::*;

use crate::app::App;
use crate::auth::{spec_auth_token, valid_auth_token};
use crate::channel::{restricted_channel_name, valid_channel_name};
use crate::namespace::{after_join, after_leave, chan_set, member_ids_of, Namespace};

use crate::socket::PresenceMemberInfo;

verus! {

/// Closing / error code for a forbidden or ill-formed channel name, and for
/// a rejected authorization.
pub const CODE_FORBIDDEN: i64 = 4009;

/// Error code for a presence channel that already holds the most members it
/// may.
pub const CODE_OVER_CAPACITY: i64 = 4004;

/// Error code for presence member data over the app's size cap.
pub const CODE_PAYLOAD_TOO_LARGE: i64 = 4301;

/// What a join attempt came to.
pub struct JoinResponse {
    pub success: bool,
    /// How many sockets the channel holds after the attempt.
    pub channel_connections: Option<u64>,
    pub auth_error: Option<bool>,
    /// Whether a new presence member appeared (so `member_added` must be
    /// broadcast).
    pub member: Option<bool>,
    pub error_message: Option<String>,
    pub error_code: Option<i64>,
    pub type_: Option<String>,
}

/// What a leave came to.
pub struct LeaveResponse {
    pub left: bool,
    /// How many sockets the channel still holds.
    pub remaining_connections: Option<u64>,
    /// Whether the user's last socket departed (so `member_removed` must be
    /// broadcast).
    pub member: Option<bool>,
}

/// The text a private or encrypted subscription signature covers.
pub open spec fn spec_channel_message(sid: Seq<char>, channel: Seq<char>) -> Seq<char> {
    sid + ":"@ + channel
}

/// The text a subscription signature covers when member data is attached.
pub open spec fn spec_channel_data_message(
    sid: Seq<char>,
    channel: Seq<char>,
    data: Seq<char>,
) -> Seq<char> {
    sid + ":"@ + channel + ":"@ + data
}

fn channel_message(socket_id: &str, channel: &str) -> (r: String)
    ensures
        r@ == spec_channel_message(socket_id@, channel@),
{
    proof {
        reveal_strlit(":");
    }
    socket_id.to_owned().concat(":").concat(channel)
}

fn channel_data_message(socket_id: &str, channel: &str, data: &str) -> (r: String)
    ensures
        r@ == spec_channel_data_message(socket_id@, channel@, data@),
{
    proof {
        reveal_strlit(":");
    }
    socket_id.to_owned().concat(":").concat(channel).concat(":").concat(data)
}

/// Whether a presented token authorizes `socket_id` onto `channel` under
/// this app, the signature covering `socket_id:channel`.
pub open spec fn spec_authorized(
    auth: Option<Seq<char>>,
    app_key: Seq<char>,
    secret: Seq<char>,
    sid: Seq<char>,
    channel: Seq<char>,
) -> bool {
    auth matches Some(a) && a == spec_auth_token(app_key, secret, spec_channel_message(sid, channel))
}

/// As `spec_authorized`, the signature covering `socket_id:channel:data`.
pub open spec fn spec_authorized_with_data(
    auth: Option<Seq<char>>,
    app_key: Seq<char>,
    secret: Seq<char>,
    sid: Seq<char>,
    channel: Seq<char>,
    data: Seq<char>,
) -> bool {
    auth matches Some(a) && a == spec_auth_token(
        app_key,
        secret,
        spec_channel_data_message(sid, channel, data),
    )
}

fn name_refused_response() -> (r: JoinResponse)
    ensures
        !r.success,
        r.error_message matches Some(m) && m@.len() > 0,
        r.channel_connections == Some(0u64),
        r.auth_error == Some(true),
        r.member == Some(false),
        r.error_code == Some(CODE_FORBIDDEN),
        r.type_ is Some,
{
    proof {
        reveal_strlit(
            "The channel name is not allowed. Read channel conventions: https://pusher.com/docs/channels/using_channels/channels/#channel-naming-conventions",
        );
    }
    JoinResponse {
        success: false,
        channel_connections: Some(0),
        auth_error: Some(true),
        member: Some(false),
        error_message: Some(
            "The channel name is not allowed. Read channel conventions: https://pusher.com/docs/channels/using_channels/channels/#channel-naming-conventions".to_owned(),
        ),
        error_code: Some(CODE_FORBIDDEN),
        type_: Some("PusherError".to_owned()),
    }
}

fn auth_refused_response() -> (r: JoinResponse)
    ensures
        !r.success,
        r.error_message matches Some(m) && m@.len() > 0,
        r.channel_connections == Some(0u64),
        r.auth_error == Some(true),
        r.member == Some(false),
        r.error_code == Some(CODE_FORBIDDEN),
        r.type_ is Some,
{
    proof {
        reveal_strlit("The connection is not authorized to join this channel.");
    }
    JoinResponse {
        success: false,
        channel_connections: Some(0),
        auth_error: Some(true),
        member: Some(false),
        error_message: Some("The connection is not authorized to join this channel.".to_owned()),
        error_code: Some(CODE_FORBIDDEN),
        type_: Some("PusherError".to_owned()),
    }
}

/// Join and leave for public channels: no authorization, only the name
/// rules.
pub struct PublicChannelManager;

impl PublicChannelManager {
    /// A name outside the rules is refused with code 4009; any other public
    /// channel is joined at once.
    pub fn join(ns: &mut Namespace, channel: &str, socket_id: &str) -> (r: JoinResponse)
        requires
            old(ns).wf(),
            old(ns)@.sockets.dom().contains(socket_id@),
            crate::channel::kind_of(channel@) == crate::channel::ChannelKind::Public,
        ensures
            final(ns).wf(),
            r.success == valid_channel_name(channel@),
            !valid_channel_name(channel@) ==> final(ns)@ == old(ns)@ && r.error_code == Some(
                CODE_FORBIDDEN,
            ) && r.auth_error == Some(true) && r.member == Some(false) && (
            r.error_message matches Some(m) && m@.len() > 0) && r.type_ is Some,
            valid_channel_name(channel@) ==> final(ns)@ == after_join(
                old(ns)@,
                channel@,
                socket_id@,
                None,
            ) && r.channel_connections == Some(
                chan_set(old(ns)@, channel@).insert(socket_id@).len() as u64,
            ) && r.auth_error == Some(false) && r.member == Some(false) && r.error_code is None
                && r.error_message is None && r.type_ is None,
    {
        if restricted_channel_name(channel) {
            return name_refused_response();
        }
        let count = ns.add_to_channel(channel, socket_id, None);
        JoinResponse {
            success: true,
            channel_connections: Some(count as u64),
            auth_error: Some(false),
            member: Some(false),
            error_message: None,
            error_code: None,
            type_: None,
        }
    }

    /// Leaving never fails; the response reports whether the socket was
    /// known and how many sockets remain.
    pub fn leave(ns: &mut Namespace, socket_id: &str, channel: &str) -> (r: LeaveResponse)
        requires
            old(ns).wf(),
        ensures
            final(ns).wf(),
            r.left == old(ns)@.sockets.dom().contains(socket_id@),
            !r.left ==> final(ns)@ == old(ns)@,
            r.left ==> final(ns)@ == after_leave(old(ns)@, channel@, socket_id@)
                && r.remaining_connections == Some(
                chan_set(old(ns)@, channel@).remove(socket_id@).len() as u64,
            ),
            r.member is None,
    {
        match ns.remove_from_channel(socket_id, channel) {
            Some(count) => LeaveResponse {
                left: true,
                remaining_connections: Some(count as u64),
                member: None,
            },
            None => LeaveResponse { left: false, remaining_connections: Some(0), member: None },
        }
    }
}

/// Join and leave for private channels: an HMAC-signed auth token is
/// demanded.
pub struct PrivateChannelManager;

impl PrivateChannelManager {
    /// The token must be exactly `<app_key>:<hmac_sha256_hex(secret,
    /// "<socket_id>:<channel>")>`; anything else is refused with 4009.
    pub fn join(
        ns: &mut Namespace,
        channel: &str,
        socket_id: &str,
        auth: Option<&str>,
        app: &App,
    ) -> (r: JoinResponse)
        requires
            old(ns).wf(),
            old(ns)@.sockets.dom().contains(socket_id@),
            crate::channel::kind_of(channel@) != crate::channel::ChannelKind::Presence,
        ensures
            final(ns).wf(),
            ({
                let authorized = spec_authorized(
                    match auth {
                        Some(a) => Some(a@),
                        None => None,
                    },
                    app.key@,
                    app.secret@,
                    socket_id@,
                    channel@,
                );
                &&& r.success == (valid_channel_name(channel@) && authorized)
                &&& !r.success ==> final(ns)@ == old(ns)@ && r.auth_error == Some(true)
                    && r.member == Some(false) && r.error_code == Some(CODE_FORBIDDEN) && (
                r.error_message matches Some(m) && m@.len() > 0) && r.type_ is Some
                &&& r.success ==> final(ns)@ == after_join(
                    old(ns)@,
                    channel@,
                    socket_id@,
                    None,
                ) && r.channel_connections == Some(
                    chan_set(old(ns)@, channel@).insert(socket_id@).len() as u64,
                ) && r.auth_error == Some(false) && r.member == Some(false) && r.error_code is None
                    && r.error_message is None && r.type_ is None
            }),
    {
        if restricted_channel_name(channel) {
            return name_refused_response();
        }
        let message = channel_message(socket_id, channel);
        let authorized = match auth {
            Some(a) => valid_auth_token(a, app.key.as_str(), app.secret.as_str(), message.as_str()),
            None => false,
        };
        if !authorized {
            return auth_refused_response();
        }
        let count = ns.add_to_channel(channel, socket_id, None);
        JoinResponse {
            success: true,
            channel_connections: Some(count as u64),
            auth_error: Some(false),
            member: Some(false),
            error_message: None,
            error_code: None,
            type_: None,
        }
    }

    /// Leave mirrors the public channel: no authorization on the way out.
    pub fn leave(ns: &mut Namespace, socket_id: &str, channel: &str) -> (r: LeaveResponse)
        requires
            old(ns).wf(),
        ensures
            final(ns).wf(),
            r.left == old(ns)@.sockets.dom().contains(socket_id@),
            !r.left ==> final(ns)@ == old(ns)@,
            r.left ==> final(ns)@ == after_leave(old(ns)@, channel@, socket_id@)
                && r.remaining_connections == Some(
                chan_set(old(ns)@, channel@).remove(socket_id@).len() as u64,
            ),
            r.member is None,
    {
        PublicChannelManager::leave(ns, socket_id, channel)
    }
}

/// Join and leave for encrypted channels: as private, but the signature also
/// covers the shared-secret carrying `channel_data` when one is attached.
/// Payloads themselves pass through the broker as opaque ciphertext.
pub struct EncryptedChannelManager;

impl EncryptedChannelManager {
    /// The signed text is `<socket_id>:<channel>` or, with data,
    /// `<socket_id>:<channel>:<channel_data>`.
    pub fn join(
        ns: &mut Namespace,
        channel: &str,
        socket_id: &str,
        auth: Option<&str>,
        channel_data: Option<&str>,
        app: &App,
    ) -> (r: JoinResponse)
        requires
            old(ns).wf(),
            old(ns)@.sockets.dom().contains(socket_id@),
            crate::channel::kind_of(channel@) != crate::channel::ChannelKind::Presence,
        ensures
            final(ns).wf(),
            ({
                let authorized = match channel_data {
                    Some(d) => spec_authorized_with_data(
                        match auth {
                            Some(a) => Some(a@),
                            None => None,
                        },
                        app.key@,
                        app.secret@,
                        socket_id@,
                        channel@,
                        d@,
                    ),
                    None => spec_authorized(
                        match auth {
                            Some(a) => Some(a@),
                            None => None,
                        },
                        app.key@,
                        app.secret@,
                        socket_id@,
                        channel@,
                    ),
                };
                &&& r.success == (valid_channel_name(channel@) && authorized)
                &&& !r.success ==> final(ns)@ == old(ns)@ && r.auth_error == Some(true)
                    && r.member == Some(false) && r.error_code == Some(CODE_FORBIDDEN) && (
                r.error_message matches Some(m) && m@.len() > 0) && r.type_ is Some
                &&& r.success ==> final(ns)@ == after_join(
                    old(ns)@,
                    channel@,
                    socket_id@,
                    None,
                ) && r.channel_connections == Some(
                    chan_set(old(ns)@, channel@).insert(socket_id@).len() as u64,
                ) && r.auth_error == Some(false) && r.member == Some(false) && r.error_code is None
                    && r.error_message is None && r.type_ is None
            }),
    {
        if restricted_channel_name(channel) {
            return name_refused_response();
        }
        let message = match channel_data {
            Some(d) => channel_data_message(socket_id, channel, d),
            None => channel_message(socket_id, channel),
        };
        let authorized = match auth {
            Some(a) => valid_auth_token(a, app.key.as_str(), app.secret.as_str(), message.as_str()),
            None => false,
        };
        if !authorized {
            return auth_refused_response();
        }
        let count = ns.add_to_channel(channel, socket_id, None);
        JoinResponse {
            success: true,
            channel_connections: Some(count as u64),
            auth_error: Some(false),
            member: Some(false),
            error_message: None,
            error_code: None,
            type_: None,
        }
    }

    /// Leave mirrors the public channel.
    pub fn leave(ns: &mut Namespace, socket_id: &str, channel: &str) -> (r: LeaveResponse)
        requires
            old(ns).wf(),
        ensures
            final(ns).wf(),
            r.left == old(ns)@.sockets.dom().contains(socket_id@),
            !r.left ==> final(ns)@ == old(ns)@,
            r.left ==> final(ns)@ == after_leave(old(ns)@, channel@, socket_id@)
                && r.remaining_connections == Some(
                chan_set(old(ns)@, channel@).remove(socket_id@).len() as u64,
            ),
            r.member is None,
    {
        PublicChannelManager::leave(ns, socket_id, channel)
    }
}

fn payload_refused_response() -> (r: JoinResponse)
    ensures
        !r.success,
        r.error_message matches Some(m) && m@.len() > 0,
        r.channel_connections == Some(0u64),
        r.auth_error == Some(false),
        r.member == Some(false),
        r.error_code == Some(CODE_PAYLOAD_TOO_LARGE),
        r.type_ is Some,
{
    proof {
        reveal_strlit("The member data is over the app's size cap.");
    }
    JoinResponse {
        success: false,
        channel_connections: Some(0),
        auth_error: Some(false),
        member: Some(false),
        error_message: Some("The member data is over the app's size cap.".to_owned()),
        error_code: Some(CODE_PAYLOAD_TOO_LARGE),
        type_: Some("PusherError".to_owned()),
    }
}

fn capacity_refused_response() -> (r: JoinResponse)
    ensures
        !r.success,
        r.error_message matches Some(m) && m@.len() > 0,
        r.channel_connections == Some(0u64),
        r.auth_error == Some(false),
        r.member == Some(false),
        r.error_code == Some(CODE_OVER_CAPACITY),
        r.type_ is Some,
{
    proof {
        reveal_strlit("The presence channel already holds the most members it may.");
    }
    JoinResponse {
        success: false,
        channel_connections: Some(0),
        auth_error: Some(false),
        member: Some(false),
        error_message: Some("The presence channel already holds the most members it may.".to_owned()),
        error_code: Some(CODE_OVER_CAPACITY),
        type_: Some("PusherError".to_owned()),
    }
}

/// Join and leave for presence channels: authorized like private channels
/// with the member data under the signature, capped in member count and in
/// member data size, and with one membership per user id however many
/// sockets the user holds.
pub struct PresenceChannelManager;

impl PresenceChannelManager {
    /// The signed text is `<socket_id>:<channel>:<channel_data>`. A socket
    /// already in the channel is accepted again without effect; a further
    /// socket of a user already represented joins the channel set silently;
    /// only a user id new to the channel reports `member = true`, and only
    /// then must `pusher_internal:member_added` be broadcast.
    pub fn join(
        ns: &mut Namespace,
        channel: &str,
        socket_id: &str,
        auth: Option<&str>,
        channel_data: &str,
        member: PresenceMemberInfo,
        app: &App,
    ) -> (r: JoinResponse)
        requires
            old(ns).wf(),
            old(ns)@.sockets.dom().contains(socket_id@),
            crate::channel::kind_of(channel@) == crate::channel::ChannelKind::Presence,
        ensures
            final(ns).wf(),
            ({
                let valid = valid_channel_name(channel@);
                let authorized = spec_authorized_with_data(
                    match auth {
                        Some(a) => Some(a@),
                        None => None,
                    },
                    app.key@,
                    app.secret@,
                    socket_id@,
                    channel@,
                    channel_data@,
                );
                let too_large = crate::session::bytes_of(channel_data@).len()
                    > app.max_presence_member_size_in_kb * 1024;
                let already = chan_set(old(ns)@, channel@).contains(socket_id@);
                let user_present = member_ids_of(old(ns)@, channel@).contains(member.user_id@);
                let at_cap = member_ids_of(old(ns)@, channel@).len()
                    >= app.max_presence_members_per_channel;
                &&& r.success == (valid && authorized && !too_large && (already || user_present
                    || !at_cap))
                &&& !r.success ==> final(ns)@ == old(ns)@ && r.member == Some(false) && (
                r.error_message matches Some(m) && m@.len() > 0) && r.type_ is Some
                &&& r.success ==> r.auth_error == Some(false) && r.error_code is None
                    && r.error_message is None && r.type_ is None
                &&& !valid ==> r.error_code == Some(CODE_FORBIDDEN) && r.auth_error == Some(true)
                &&& (valid && !authorized) ==> r.auth_error == Some(true) && r.error_code == Some(
                    CODE_FORBIDDEN,
                )
                &&& (valid && authorized && too_large) ==> r.error_code == Some(
                    CODE_PAYLOAD_TOO_LARGE,
                )
                &&& (valid && authorized && !too_large && already) ==> final(ns)@ == old(ns)@
                    && r.member == Some(false) && r.channel_connections == Some(
                    chan_set(old(ns)@, channel@).len() as u64,
                )
                &&& (valid && authorized && !too_large && !already && (user_present || !at_cap))
                    ==> final(ns)@ == after_join(old(ns)@, channel@, socket_id@, Some(member@))
                    && r.member == Some(!user_present) && r.channel_connections == Some(
                    chan_set(old(ns)@, channel@).insert(socket_id@).len() as u64,
                )
                &&& (valid && authorized && !too_large && !already && !user_present && at_cap)
                    ==> final(ns)@ == old(ns)@ && r.error_code == Some(CODE_OVER_CAPACITY)
            }),
    {
        if restricted_channel_name(channel) {
            return name_refused_response();
        }
        let message = channel_data_message(socket_id, channel, channel_data);
        let authorized = match auth {
            Some(a) => valid_auth_token(a, app.key.as_str(), app.secret.as_str(), message.as_str()),
            None => false,
        };
        if !authorized {
            return auth_refused_response();
        }
        if (channel_data.as_bytes().len() as u128) > (app.max_presence_member_size_in_kb as u128)
            * 1024 {
            return payload_refused_response();
        }
        if ns.is_in_channel(channel, socket_id) {
            let count = ns.channel_sockets_count(channel);
            return JoinResponse {
                success: true,
                channel_connections: Some(count as u64),
                auth_error: Some(false),
                member: Some(false),
                error_message: None,
                error_code: None,
                type_: None,
            };
        }
        let members = ns.channel_members(channel);
        let user_present = members.contains_key(member.user_id.as_str());
        if !user_present && members.len() >= app.max_presence_members_per_channel {
            return capacity_refused_response();
        }
        let count = ns.add_to_channel(channel, socket_id, Some(member));
        JoinResponse {
            success: true,
            channel_connections: Some(count as u64),
            auth_error: Some(false),
            member: Some(!user_present),
            error_message: None,
            error_code: None,
            type_: None,
        }
    }

    /// Leave reports `member = true` only when the departing socket was the
    /// user's last in the channel, and only then must
    /// `pusher_internal:member_removed` be broadcast.
    pub fn leave(ns: &mut Namespace, socket_id: &str, channel: &str) -> (r: LeaveResponse)
        requires
            old(ns).wf(),
        ensures
            final(ns).wf(),
            r.left == old(ns)@.sockets.dom().contains(socket_id@),
            !r.left ==> final(ns)@ == old(ns)@ && r.member == Some(false),
            r.left ==> final(ns)@ == after_leave(old(ns)@, channel@, socket_id@)
                && r.remaining_connections == Some(
                chan_set(old(ns)@, channel@).remove(socket_id@).len() as u64,
            ) && r.member == Some(
                old(ns)@.sockets[socket_id@].presence.dom().contains(channel@)
                    && !member_ids_of(final(ns)@, channel@).contains(
                    old(ns)@.sockets[socket_id@].presence[channel@].user_id,
                ),
            ),
    {
        let uid: Option<String> = match ns.get_socket(socket_id) {
            Some(w) => match w.presence_channels.get(channel) {
                Some(info) => Some(info.user_id.clone()),
                None => None,
            },
            None => {
                return LeaveResponse {
                    left: false,
                    remaining_connections: Some(0),
                    member: Some(false),
                };
            },
        };
        let count = match ns.remove_from_channel(socket_id, channel) {
            Some(c) => c,
            None => {
                proof {
                    assert(false);
                }
                vstd::pervasive::unreached()
            },
        };
        let member = match uid {
            Some(u) => {
                let members = ns.channel_members(channel);
                Some(!members.contains_key(u.as_str()))
            },
            None => Some(false),
        };
        LeaveResponse { left: true, remaining_connections: Some(count as u64), member }
    }
}

} // verus!
