use zenoh::config::{empty, WhatAmI, WhatAmIMatcher};
use zenoh::notifier::drop_failed;
use zenoh::runtime::{
    message_route, peer_id_source, runtime_settings, MessageRoute, PeerIdSource, RuntimeSettings,
    QUERIES_DEFAULT_TIMEOUT_MS,
};
use zenoh::transport::{
    authenticator_inputs, check_open_ack, OpenAckError, OpenAckOutput, TransportBodyKind,
    CLOSE_REASON_INVALID,
};

#[test]
fn settings_defaults() {
    let s = runtime_settings(&empty());
    assert_eq!(
        s,
        RuntimeSettings {
            whatami: WhatAmI::Peer,
            timestamping: false,
            peers_autoconnect: true,
            routers_autoconnect_gossip: false,
            use_link_state: true,
            queries_default_timeout: QUERIES_DEFAULT_TIMEOUT_MS,
        }
    );
    assert_eq!(QUERIES_DEFAULT_TIMEOUT_MS, 10000);
}

#[test]
fn settings_from_config() {
    let mut c = empty();
    c.mode = Some(WhatAmI::Client);
    c.add_timestamp = Some(true);
    c.peers_autoconnect = Some(false);
    c.gossip_autoconnect = Some(WhatAmIMatcher { router: false, peer: false, client: true });
    c.queries_default_timeout = Some(250);
    let s = runtime_settings(&c);
    assert_eq!(s.whatami, WhatAmI::Client);
    assert!(s.timestamping);
    assert!(!s.peers_autoconnect);
    assert!(s.routers_autoconnect_gossip);
    assert!(!s.use_link_state);
    assert_eq!(s.queries_default_timeout, 250);
    c.mode = Some(WhatAmI::Router);
    let s = runtime_settings(&c);
    assert!(!s.routers_autoconnect_gossip);
    assert!(s.use_link_state);
}

#[test]
fn routes_of_messages() {
    assert_eq!(message_route(true, false), MessageRoute::DirectData);
    assert_eq!(message_route(true, true), MessageRoute::Router);
    assert_eq!(message_route(false, false), MessageRoute::Router);
}

#[test]
fn open_ack_checks() {
    let ack = TransportBodyKind::OpenAck { initial_sn: 7, lease_ms: 10000 };
    assert_eq!(check_open_ack(&vec![ack]), Ok(OpenAckOutput { initial_sn: 7, lease_ms: 10000 }));
    let e = check_open_ack(&vec![ack, ack]).unwrap_err();
    assert_eq!(e, OpenAckError::MessageCount(2));
    assert_eq!(e.close_reason(), Some(CLOSE_REASON_INVALID));
    assert_eq!(check_open_ack(&vec![]), Err(OpenAckError::MessageCount(0)));
    let e = check_open_ack(&vec![TransportBodyKind::Close { reason: 4 }]).unwrap_err();
    assert_eq!(e, OpenAckError::Closed(4));
    assert_eq!(e.close_reason(), None);
    let e = check_open_ack(&vec![TransportBodyKind::Other]).unwrap_err();
    assert_eq!(e, OpenAckError::Unexpected);
    assert_eq!(e.close_reason(), Some(CLOSE_REASON_INVALID));
}

#[test]
fn failed_subscribers_are_dropped() {
    let mut subs = vec!["a", "b", "c", "d", "e"];
    drop_failed(&mut subs, &vec![false, true, false, true, false]);
    // positions 3 then 1 are swap-removed
    assert_eq!(subs, vec!["a", "e", "c"]);
    let mut subs = vec![1, 2, 3];
    drop_failed(&mut subs, &vec![false, false, false]);
    assert_eq!(subs, vec![1, 2, 3]);
    let mut subs = vec![1, 2];
    drop_failed(&mut subs, &vec![true, true]);
    assert!(subs.is_empty());
}

#[test]
fn configured_or_random_peer_id() {
    let mut c = zenoh::config::peer();
    c.id = Some("a1b2".to_string());
    assert_eq!(peer_id_source(&c), PeerIdSource::Configured("a1b2".to_string()));
    let c = zenoh::config::peer();
    match peer_id_source(&c) {
        PeerIdSource::Random(b) => {
            assert_eq!(b[6] >> 4, 4);
            assert_eq!(b[8] >> 6, 2);
        }
        other => panic!("unexpected {:?}", other),
    }
    let first = peer_id_source(&c);
    let second = peer_id_source(&c);
    assert_ne!(first, second);
}

#[test]
fn authenticators_get_their_properties() {
    let props = vec![(1u64, vec![10u8]), (2, vec![20]), (1, vec![11])];
    assert_eq!(
        authenticator_inputs(props, &vec![1, 3, 1, 1, 2]),
        vec![Some(vec![10u8]), None, Some(vec![11]), None, Some(vec![20])]
    );
    assert_eq!(authenticator_inputs(vec![], &vec![7]), vec![None]);
    assert_eq!(authenticator_inputs(vec![(7, vec![])], &vec![]), Vec::<Option<Vec<u8>>>::new());
}

#[test]
fn attachment_and_authentication_failures_close_as_invalid() {
    assert_eq!(OpenAckError::BadAttachment.close_reason(), Some(CLOSE_REASON_INVALID));
    assert_eq!(OpenAckError::Refused.close_reason(), Some(CLOSE_REASON_INVALID));
}
