//! Limits that the environment may set.

use vstd::prelude::*;

use crate::text::{limit_value, parse_limit_text};

verus! {

/// The creations that one client may make in an hour, unless the environment
/// says otherwise.
pub const DEFAULT_CREATE_LIMIT: usize = 120;

/// The pushes that one client may make in an hour, unless the environment says
/// otherwise.
pub const DEFAULT_PUSH_LIMIT: usize = 600;

/// The limit that the environment sets: the number of the variable's text; the
/// default where the variable is not set or its text is no number. A limit of 0
/// switches the limiting off.
pub fn limit_from_env(value: Option<String>, default_limit: usize) -> (r: usize)
    ensures
        r == env_limit(value, default_limit),
{
    match value {
        Some(text) => match parse_limit_text(text.as_str()) {
            Some(n) => n,
            None => default_limit,
        },
        None => default_limit,
    }
}

/// The window of every limiter, in seconds.
pub const LIMIT_WINDOW_SECS: u64 = 3600;

/// The most clients that a limiter remembers. Clients choose their own keys, so
/// the memory has to be bounded.
pub const LIMIT_MAX_KEYS: usize = 200_000;

/// The creations that one identity may make in a window.
pub const CREATIONS_PER_DID: usize = 10;

/// A limiter: so many requests of one client in a window, and so many clients.
#[derive(Clone, Copy, PartialEq, Eq, Structural, Debug)]
pub struct LimiterSettings {
    pub limit: usize,
    pub window_secs: u64,
    pub max_keys: usize,
}

/// The limiters of the node.
#[derive(Clone, Copy, PartialEq, Eq, Structural, Debug)]
pub struct Limiters {
    /// Creations, by identity.
    pub create_by_did: LimiterSettings,
    /// Creations, by client address.
    pub create_by_ip: LimiterSettings,
    /// Pushes, by client address.
    pub push: LimiterSettings,
    /// Requests to synchronise, by client address.
    pub sync_trigger: LimiterSettings,
    /// Announcements and notices of peers, by client address.
    pub peer_write: LimiterSettings,
}

/// A limiter with the common window and bound.
pub open spec fn limiter(limit: usize) -> LimiterSettings {
    LimiterSettings { limit, window_secs: LIMIT_WINDOW_SECS, max_keys: LIMIT_MAX_KEYS }
}

fn limiter_of(limit: usize) -> (r: LimiterSettings)
    ensures
        r == limiter(limit),
{
    LimiterSettings { limit, window_secs: LIMIT_WINDOW_SECS, max_keys: LIMIT_MAX_KEYS }
}

/// The limit that a variable's text sets, or the default.
pub open spec fn env_limit(value: Option<String>, default_limit: usize) -> usize {
    match value {
        Some(text) => match limit_value(text@) {
            Some(n) => n as usize,
            None => default_limit,
        },
        None => default_limit,
    }
}

/// The limiters of the node: the environment may set the ones for creations and
/// for pushes, the configuration sets the ones for peers.
pub fn limiters(
    create_env: Option<String>,
    push_env: Option<String>,
    sync_trigger: usize,
    peer_write: usize,
) -> (r: Limiters)
    ensures
        r == (Limiters {
            create_by_did: limiter(CREATIONS_PER_DID),
            create_by_ip: limiter(env_limit(create_env, DEFAULT_CREATE_LIMIT)),
            push: limiter(env_limit(push_env, DEFAULT_PUSH_LIMIT)),
            sync_trigger: limiter(sync_trigger),
            peer_write: limiter(peer_write),
        }),
        r == node_limiters(create_env, push_env, sync_trigger, peer_write),
{
    Limiters {
        create_by_did: limiter_of(CREATIONS_PER_DID),
        create_by_ip: limiter_of(limit_from_env(create_env, DEFAULT_CREATE_LIMIT)),
        push: limiter_of(limit_from_env(push_env, DEFAULT_PUSH_LIMIT)),
        sync_trigger: limiter_of(sync_trigger),
        peer_write: limiter_of(peer_write),
    }
}

impl LimiterSettings {
    /// Whether the limiter is switched off, which the operator is warned of.
    pub fn is_off(&self) -> (r: bool)
        ensures
            r == (self.limit == 0),
    {
        self.limit == 0
    }
}

/// The limiters of the node, from what the environment and the configuration say.
pub open spec fn node_limiters(
    create_env: Option<String>,
    push_env: Option<String>,
    sync_trigger: usize,
    peer_write: usize,
) -> Limiters {
    Limiters {
        create_by_did: limiter(CREATIONS_PER_DID),
        create_by_ip: limiter(env_limit(create_env, DEFAULT_CREATE_LIMIT)),
        push: limiter(env_limit(push_env, DEFAULT_PUSH_LIMIT)),
        sync_trigger: limiter(sync_trigger),
        peer_write: limiter(peer_write),
    }
}

/// A variable that is a number sets the limit to it, zero included; one that is
/// not set, or is no number, leaves the default.
pub proof fn variables_set_their_limit(value: Option<String>, default_limit: usize)
    ensures
        match value {
            None => env_limit(value, default_limit) == default_limit,
            Some(text) => match limit_value(text@) {
                None => env_limit(value, default_limit) == default_limit,
                Some(n) => n <= usize::MAX ==> env_limit(value, default_limit) == n,
            },
        },
{
}

/// The limits of the node: ten creations of one identity, and 120 creations and
/// 600 pushes of one client unless the environment says otherwise, within an hour
/// each; each variable and each setting has its own limiter, and every limiter
/// remembers 200000 clients.
pub proof fn limiters_limit_what_they_are_for(
    create_env: Option<String>,
    push_env: Option<String>,
    sync_trigger: usize,
    peer_write: usize,
)
    ensures
        ({
            let l = node_limiters(create_env, push_env, sync_trigger, peer_write);
            &&& l.create_by_did.limit == 10
            &&& l.create_by_ip.limit == env_limit(create_env, 120)
            &&& l.push.limit == env_limit(push_env, 600)
            &&& l.sync_trigger.limit == sync_trigger
            &&& l.peer_write.limit == peer_write
            &&& l.create_by_did.window_secs == 3600 && l.create_by_did.max_keys == 200_000
            &&& l.create_by_ip.window_secs == 3600 && l.create_by_ip.max_keys == 200_000
            &&& l.push.window_secs == 3600 && l.push.max_keys == 200_000
            &&& l.sync_trigger.window_secs == 3600 && l.sync_trigger.max_keys == 200_000
            &&& l.peer_write.window_secs == 3600 && l.peer_write.max_keys == 200_000
        }),
{
}

} // verus!
