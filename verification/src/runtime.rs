//! The decisions that a runtime takes when it starts and when messages
//! reach a session.
use vstd::prelude::*;
use crate::config::{Config, WhatAmI};

verus! {

/// The default timeout of queries in milliseconds.
pub const QUERIES_DEFAULT_TIMEOUT_MS: u64 = 10000;

/// The settings that a runtime starts with.
#[derive(Clone, Copy, Debug, PartialEq, Eq, Structural)]
pub struct RuntimeSettings {
    /// The role of the node.
    pub whatami: WhatAmI,
    /// Whether a hybrid logical clock timestamps data.
    pub timestamping: bool,
    /// Whether peers connect to each other automatically.
    pub peers_autoconnect: bool,
    /// Whether routers discovered by gossip are connected to automatically.
    pub routers_autoconnect_gossip: bool,
    /// Whether the link state protocol runs.
    pub use_link_state: bool,
    /// The default timeout of queries in milliseconds.
    pub queries_default_timeout: u64,
}

/// The settings of a runtime started with `config`.
pub open spec fn settings_of(config: Config) -> RuntimeSettings {
    let whatami = match config.mode {
        Some(w) => w,
        None => WhatAmI::Peer,
    };
    RuntimeSettings {
        whatami,
        timestamping: match config.add_timestamp {
            Some(b) => b,
            None => false,
        },
        peers_autoconnect: match config.peers_autoconnect {
            Some(b) => b,
            None => true,
        },
        routers_autoconnect_gossip: match config.gossip_autoconnect {
            Some(m) => match whatami {
                WhatAmI::Router => m.router,
                WhatAmI::Peer => m.peer,
                WhatAmI::Client => m.client,
            },
            None => false,
        },
        use_link_state: whatami != WhatAmI::Client,
        queries_default_timeout: match config.queries_default_timeout {
            Some(t) => t,
            None => QUERIES_DEFAULT_TIMEOUT_MS,
        },
    }
}

/// The settings of a runtime started with `config`: unset values take
/// their defaults (a peer, no timestamps, peers connecting to each other,
/// no gossip connections, the default query timeout), and every role but
/// a client runs the link state protocol.
pub fn runtime_settings(config: &Config) -> (r: RuntimeSettings)
    ensures
        r == settings_of(*config),
            match config.mode {
                Some(w) => r.whatami == w,
                None => r.whatami == WhatAmI::Peer,
            },
            match config.add_timestamp {
                Some(b) => r.timestamping == b,
                None => !r.timestamping,
            },
            match config.peers_autoconnect {
                Some(b) => r.peers_autoconnect == b,
                None => r.peers_autoconnect,
            },
            match config.gossip_autoconnect {
                Some(m) => r.routers_autoconnect_gossip == (
                    (r.whatami == WhatAmI::Router && m.router)
                    || (r.whatami == WhatAmI::Peer && m.peer)
                    || (r.whatami == WhatAmI::Client && m.client)),
                None => !r.routers_autoconnect_gossip,
            },
            r.use_link_state == (r.whatami != WhatAmI::Client),
            match config.queries_default_timeout {
                Some(t) => r.queries_default_timeout == t,
                None => r.queries_default_timeout == 10000,
            },
{
    let whatami = match config.mode {
        Some(w) => w,
        None => WhatAmI::Peer,
    };
    let routers_autoconnect_gossip = match &config.gossip_autoconnect {
        Some(m) => m.matches(whatami),
        None => false,
    };
    RuntimeSettings {
        whatami,
        timestamping: match config.add_timestamp {
            Some(b) => b,
            None => false,
        },
        peers_autoconnect: match config.peers_autoconnect {
            Some(b) => b,
            None => true,
        },
        routers_autoconnect_gossip,
        use_link_state: whatami != WhatAmI::Client,
        queries_default_timeout: match config.queries_default_timeout {
            Some(t) => t,
            None => QUERIES_DEFAULT_TIMEOUT_MS,
        },
    }
}

/// Where the identifier of a runtime comes from.
#[derive(Debug, PartialEq, Eq)]
pub enum PeerIdSource {
    /// The identifier set in the configuration.
    Configured(String),
    /// A random version 4 UUID, as its 16 bytes.
    Random([u8; 16]),
}

/// The bytes of a version 4 UUID: 16 bytes, the high half of byte 6 (the
/// version) is 4 and the two high bits of byte 8 (the variant) are `10`.
pub open spec fn is_uuid_v4(b: Seq<u8>) -> bool {
    &&& b.len() == 16
    &&& 0x40 <= b[6] < 0x50
    &&& 0x80 <= b[8] < 0xC0
}

/// `uuid::Uuid::new_v4`, as its bytes: random but for the version and
/// variant bits, which the uuid crate sets to those of a version 4 UUID.
#[verifier::external_body]
fn new_v4_bytes() -> (r: [u8; 16])
    ensures
        is_uuid_v4(r@),
{
    uuid::Uuid::new_v4().into_bytes()
}

/// The identifier a runtime starts with: the one set in the configuration,
/// else a random version 4 UUID.
pub fn peer_id_source(config: &Config) -> (r: PeerIdSource)
    ensures
        match config.id {
            Some(id) => r matches PeerIdSource::Configured(s) && s@ == id@,
            None => r matches PeerIdSource::Random(b) && is_uuid_v4(b@),
        },
{
    match &config.id {
        Some(id) => PeerIdSource::Configured(id.clone()),
        None => PeerIdSource::Random(new_v4_bytes()),
    }
}

/// Where a message that reaches a session goes.
#[derive(Clone, Copy, Debug, PartialEq, Eq, Structural)]
pub enum MessageRoute {
    /// Straight to the data routing of the router.
    DirectData,
    /// To the full message handling of the router.
    Router,
}

/// Data that answers no query takes the direct route; every other message
/// goes through the router's message handling.
pub fn message_route(is_data: bool, has_reply_context: bool) -> (r: MessageRoute)
    ensures
        r == (if is_data && !has_reply_context { MessageRoute::DirectData } else { MessageRoute::Router }),
{
    if is_data && !has_reply_context {
        MessageRoute::DirectData
    } else {
        MessageRoute::Router
    }
}

/// What a runtime starts with, field by field: each setting of the
/// configuration is taken as written; an unset role is a peer, unset
/// timestamping is off, unset peer autoconnection is on, an unset gossip
/// role set connects to no one, a set one connects when it holds the node's
/// role, every role but a client runs the link state protocol, and an unset
/// query timeout is 10000 ms.
pub proof fn lemma_settings_fields(config: Config)
    ensures
        match config.mode {
            Some(w) => settings_of(config).whatami == w,
            None => settings_of(config).whatami == WhatAmI::Peer,
        },
        match config.add_timestamp {
            Some(b) => settings_of(config).timestamping == b,
            None => !settings_of(config).timestamping,
        },
        match config.peers_autoconnect {
            Some(b) => settings_of(config).peers_autoconnect == b,
            None => settings_of(config).peers_autoconnect,
        },
        match config.gossip_autoconnect {
            Some(m) => settings_of(config).routers_autoconnect_gossip == (
                (settings_of(config).whatami == WhatAmI::Router && m.router)
                || (settings_of(config).whatami == WhatAmI::Peer && m.peer)
                || (settings_of(config).whatami == WhatAmI::Client && m.client)),
            None => !settings_of(config).routers_autoconnect_gossip,
        },
        settings_of(config).use_link_state == (settings_of(config).whatami != WhatAmI::Client),
        match config.queries_default_timeout {
            Some(t) => settings_of(config).queries_default_timeout == t,
            None => settings_of(config).queries_default_timeout == 10000,
        },
{
}

} // verus!
