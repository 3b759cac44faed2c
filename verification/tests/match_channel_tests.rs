use nexus::events::MatchConfirmedEvent;
use nexus::match_channels::MatchChannelRegistry;
use nexus::router::MessageRouter;

fn match_channel(match_id: u128) -> String {
    format!("match:{}", uuid::Uuid::from_u128(match_id))
}

#[test]
fn match_channel_is_ready_when_all_players_are_connected() {
    let mut registry = MatchChannelRegistry::new();
    let mut router = MessageRouter::default();
    let match_id = uuid::Uuid::new_v4().as_u128();
    let rule_id = uuid::Uuid::new_v4().as_u128();
    let alpha = uuid::Uuid::new_v4().as_u128();
    let beta = uuid::Uuid::new_v4().as_u128();

    router.add_connection(alpha).expect("alpha connection is added");
    router.add_connection(beta).expect("beta connection is added");

    let ready_event = registry
        .create_match_channel(
            &mut router,
            MatchConfirmedEvent {
                match_id,
                rule_id,
                ticket_key: "duel".to_string(),
                player_ids: vec![alpha, beta],
            },
        )
        .expect("match channel is created")
        .expect("match channel is ready");

    let channel = match_channel(match_id);
    assert_eq!(ready_event.channel, channel);
    assert_eq!(ready_event.match_id, match_id);
    assert_eq!(ready_event.rule_id, rule_id);
    assert_eq!(ready_event.ticket_key, "duel");
    assert_eq!(ready_event.player_ids, vec![alpha, beta]);
    assert_eq!(
        router.channels_for_connection(alpha).expect("alpha channels"),
        vec!["default".to_string(), channel.clone()]
    );
    assert_eq!(
        router.channels_for_connection(beta).expect("beta channels"),
        vec!["default".to_string(), channel]
    );
}

#[test]
fn match_channel_waits_until_missing_player_connects() {
    let mut registry = MatchChannelRegistry::new();
    let mut router = MessageRouter::default();
    let match_id = uuid::Uuid::new_v4().as_u128();
    let rule_id = uuid::Uuid::new_v4().as_u128();
    let alpha = uuid::Uuid::new_v4().as_u128();
    let beta = uuid::Uuid::new_v4().as_u128();

    router.add_connection(alpha).expect("alpha connection is added");

    let ready_event = registry
        .create_match_channel(
            &mut router,
            MatchConfirmedEvent {
                match_id,
                rule_id,
                ticket_key: "duel".to_string(),
                player_ids: vec![alpha, beta],
            },
        )
        .expect("match channel is created");

    assert!(ready_event.is_none());
    assert_eq!(registry.pending_count(), 1);

    let channel = match_channel(match_id);
    assert_eq!(
        router.channels_for_connection(alpha).expect("alpha channels"),
        vec!["default".to_string(), channel.clone()]
    );
    assert!(router.channels_for_connection(beta).is_err());

    router.add_connection(beta).expect("beta connection is added");

    let ready_events = registry
        .join_pending_match_channels(&mut router, beta)
        .expect("pending match channel is joined");

    assert_eq!(ready_events.len(), 1);
    assert_eq!(ready_events[0].match_id, match_id);
    assert_eq!(ready_events[0].channel, channel);
    assert_eq!(registry.pending_count(), 0);
    assert_eq!(
        router.channels_for_connection(beta).expect("beta channels"),
        vec!["default".to_string(), match_channel(match_id)]
    );
}

#[test]
fn match_channel_name_is_match_prefix_and_hyphenated_id() {
    let mut registry = MatchChannelRegistry::new();
    let mut router = MessageRouter::default();
    router.add_connection(5).expect("connection is added");
    let ready = registry
        .create_match_channel(
            &mut router,
            MatchConfirmedEvent {
                match_id: 0x11111111_1111_1111_1111_111111111111,
                rule_id: 2,
                ticket_key: "duel".to_string(),
                player_ids: vec![5],
            },
        )
        .expect("created")
        .expect("ready");
    assert_eq!(ready.channel, "match:11111111-1111-1111-1111-111111111111");
}

#[test]
fn joining_player_not_waited_for_changes_nothing() {
    let mut registry = MatchChannelRegistry::new();
    let mut router = MessageRouter::default();
    router.add_connection(1).expect("connection is added");
    registry
        .create_match_channel(
            &mut router,
            MatchConfirmedEvent { match_id: 10, rule_id: 2, ticket_key: "duel".to_string(), player_ids: vec![1, 2] },
        )
        .expect("created");
    router.add_connection(3).expect("connection is added");
    let ready = registry.join_pending_match_channels(&mut router, 3).expect("joined");
    assert!(ready.is_empty());
    assert_eq!(registry.pending_count(), 1);
    assert_eq!(router.channels_for_connection(3).expect("channels"), vec!["default".to_string()]);
}

#[test]
fn unconnected_player_joins_no_pending_channel() {
    let mut registry = MatchChannelRegistry::new();
    let mut router = MessageRouter::default();
    let ready = registry.join_pending_match_channels(&mut router, 77).expect("nothing to join");
    assert!(ready.is_empty());
}
