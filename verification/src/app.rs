//! The credentials and limits of one application (tenant).

use vstd::prelude::*;

verus! {

/// How many distinct presence members one channel may hold by default.
pub const DEFAULT_MAX_PRESENCE_MEMBERS: usize = 100;

/// How large one member's `channel_data` may be by default, in kilobytes.
pub const DEFAULT_MAX_PRESENCE_MEMBER_SIZE_KB: usize = 10;

/// One application: its credential pair and per-channel limits.
pub struct App {
    pub id: String,
    pub key: String,
    pub secret: String,
    pub max_presence_members_per_channel: usize,
    pub max_presence_member_size_in_kb: usize,
    pub enable_client_messages: bool,
}

impl App {
    /// An app with the default limits and client events enabled.
    pub fn new(id: String, key: String, secret: String) -> (r: Self)
        ensures
            r.id@ == id@,
            r.key@ == key@,
            r.secret@ == secret@,
            r.max_presence_members_per_channel == DEFAULT_MAX_PRESENCE_MEMBERS,
            r.max_presence_member_size_in_kb == DEFAULT_MAX_PRESENCE_MEMBER_SIZE_KB,
            r.enable_client_messages,
    {
        App {
            id,
            key,
            secret,
            max_presence_members_per_channel: DEFAULT_MAX_PRESENCE_MEMBERS,
            max_presence_member_size_in_kb: DEFAULT_MAX_PRESENCE_MEMBER_SIZE_KB,
            enable_client_messages: true,
        }
    }
}

} // verus!
