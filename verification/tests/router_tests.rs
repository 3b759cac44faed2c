use nexus::router::{MessageRouter, MessagingError, DEFAULT_CHANNEL_ID};

fn names(v: &[&str]) -> Vec<String> {
    v.iter().map(|s| s.to_string()).collect()
}

#[test]
fn broadcast_to_channels_only_sends_to_channel_members() {
    let mut router = MessageRouter::default();
    let alpha_conn: u128 = 0x1111_0000_0000_4000_8000_0000_0000_0001;
    let beta_conn: u128 = 0x2222_0000_0000_4000_8000_0000_0000_0002;

    router.add_connection(alpha_conn).expect("alpha connection is added");
    router.add_connection(beta_conn).expect("beta connection is added");
    router.create_channel("alpha");
    router.join_channel(alpha_conn, "alpha").expect("alpha connection joins alpha channel");

    let recipients = router.broadcast_to_channels(&names(&["alpha"]));

    assert_eq!(recipients, vec![alpha_conn]);
    assert!(!recipients.contains(&beta_conn));
}

#[test]
fn channel_lifecycle_updates_channel_membership_indexes() {
    let mut router = MessageRouter::default();
    let conn_id: u128 = 42;

    router.add_connection(conn_id).expect("connection is added");
    router.create_channel("match-1");
    router.join_channel(conn_id, "match-1").expect("connection joins channel");

    assert_eq!(
        router.channels_for_connection(conn_id).expect("channels exist"),
        names(&["default", "match-1"])
    );
    assert_eq!(router.all_channels(), names(&["default", "match-1"]));

    router.leave_channel(conn_id, "match-1").expect("connection leaves channel");
    assert_eq!(router.channels_for_connection(conn_id).expect("channels exist"), names(&["default"]));

    router.join_channel(conn_id, "match-1").expect("connection rejoins channel");
    router.remove_channel("match-1").expect("channel is removed");
    assert_eq!(router.channels_for_connection(conn_id).expect("channels exist"), names(&["default"]));
    assert_eq!(router.all_channels(), names(&["default"]));
}

#[test]
fn new_connection_starts_in_default_channel_only() {
    let mut router = MessageRouter::default();
    router.add_connection(7).expect("connection is added");
    assert_eq!(router.channels_for_connection(7).expect("channels exist"), names(&[DEFAULT_CHANNEL_ID]));
    assert!(router.has_connection(7));
    assert!(!router.has_connection(8));
}

#[test]
fn adding_a_connection_twice_is_refused() {
    let mut router = MessageRouter::default();
    router.add_connection(7).expect("connection is added");
    match router.add_connection(7) {
        Err(MessagingError::ConnectionAlreadyExists { conn_id }) => assert_eq!(conn_id, 7),
        other => panic!("unexpected outcome: {other:?}"),
    }
}

#[test]
fn unknown_connection_and_channel_are_reported() {
    let mut router = MessageRouter::default();
    match router.join_channel(9, "default") {
        Err(MessagingError::ConnectionNotFound { conn_id }) => assert_eq!(conn_id, 9),
        other => panic!("unexpected outcome: {other:?}"),
    }
    router.add_connection(9).expect("connection is added");
    match router.join_channel(9, "nowhere") {
        Err(MessagingError::ChannelNotFound { channel_id }) => assert_eq!(channel_id, "nowhere"),
        other => panic!("unexpected outcome: {other:?}"),
    }
    match router.leave_channel(9, "nowhere") {
        Err(MessagingError::ChannelNotFound { channel_id }) => assert_eq!(channel_id, "nowhere"),
        other => panic!("unexpected outcome: {other:?}"),
    }
    assert!(router.channels_for_connection(10).is_err());
}

#[test]
fn default_channel_cannot_be_removed() {
    let mut router = MessageRouter::default();
    match router.remove_channel("default") {
        Err(MessagingError::CannotRemoveDefaultChannel) => {}
        other => panic!("unexpected outcome: {other:?}"),
    }
    assert_eq!(router.all_channels(), names(&["default"]));
    assert!(router.remove_channel("missing").is_ok());
}

#[test]
fn leave_undoes_join() {
    let mut router = MessageRouter::default();
    router.add_connection(1).expect("connection is added");
    router.create_channel("room");
    let before = router.channels_for_connection(1).expect("channels exist");
    router.join_channel(1, "room").expect("joins");
    router.leave_channel(1, "room").expect("leaves");
    assert_eq!(router.channels_for_connection(1).expect("channels exist"), before);
}

#[test]
fn removed_connection_is_no_longer_reached() {
    let mut router = MessageRouter::default();
    router.add_connection(1).expect("connection is added");
    router.add_connection(2).expect("connection is added");
    router.remove_connection(1);
    assert_eq!(router.broadcast(), vec![2]);
    assert!(router.broadcast_to_channels(&names(&["default"])).iter().all(|c| *c == 2));
    router.remove_connections(&vec![2]);
    assert!(router.broadcast().is_empty());
}

#[test]
fn removed_channel_has_no_members() {
    let mut router = MessageRouter::default();
    router.add_connection(1).expect("connection is added");
    router.create_channel("room");
    router.join_channel(1, "room").expect("joins");
    router.remove_channel("room").expect("removed");
    assert!(router.broadcast_to_channels(&names(&["room"])).is_empty());
    assert_eq!(router.all_channels(), names(&["default"]));
}

#[test]
fn broadcast_reaches_each_member_once() {
    let mut router = MessageRouter::default();
    for c in [3u128, 1, 2] {
        router.add_connection(c).expect("connection is added");
    }
    router.create_channel("a");
    router.create_channel("b");
    router.join_channel(1, "a").expect("joins");
    router.join_channel(1, "b").expect("joins");
    router.join_channel(2, "b").expect("joins");
    let mut reached = router.broadcast_to_channels(&names(&["a", "b"]));
    reached.sort();
    assert_eq!(reached, vec![1, 2]);
    let mut all = router.broadcast();
    all.sort();
    assert_eq!(all, vec![1, 2, 3]);
}

#[test]
fn refusals_have_texts() {
    assert_eq!(
        MessagingError::ConnectionNotFound { conn_id: 0x550e8400_e29b_41d4_a716_446655440000 }.to_string(),
        "connection 550e8400-e29b-41d4-a716-446655440000 not found"
    );
    assert_eq!(
        MessagingError::ConnectionAlreadyExists { conn_id: 1 }.to_string(),
        "connection 00000000-0000-0000-0000-000000000001 already exists"
    );
    assert_eq!(MessagingError::ChannelNotFound { channel_id: "x".to_string() }.to_string(), "channel x not found");
    assert_eq!(MessagingError::CannotRemoveDefaultChannel.to_string(), "default channel cannot be removed");
}

#[test]
fn removing_an_added_connection_restores_the_router() {
    let mut router = MessageRouter::default();
    router.add_connection(1).expect("connection is added");
    router.create_channel("room");
    router.join_channel(1, "room").expect("joins");
    let channels = router.all_channels();
    let reached = router.broadcast();
    router.add_connection(2).expect("connection is added");
    router.remove_connection(2);
    assert_eq!(router.all_channels(), channels);
    assert_eq!(router.broadcast(), reached);
    assert!(!router.has_connection(2));
}

#[test]
fn membership_reads_the_same_from_both_sides() {
    let mut router = MessageRouter::default();
    router.add_connection(1).expect("connection is added");
    router.add_connection(2).expect("connection is added");
    router.create_channel("room");
    router.join_channel(2, "room").expect("joins");
    for conn in [1u128, 2] {
        let member = router.channels_for_connection(conn).expect("channels").contains(&"room".to_string());
        let reached = router.broadcast_to_channels(&names(&["room"])).contains(&conn);
        assert_eq!(member, reached);
    }
}
