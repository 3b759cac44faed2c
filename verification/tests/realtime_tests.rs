use nexus::connections::ConnectionRegistry;
use nexus::events::{MatchDeclinedEvent, MatchFoundEvent, MatchTimedOutEvent};
use nexus::notifications::{RoomError, ServerEvent, WebSocketConnectQuery};
use nexus::realtime::{
    client_message_event, command_kind, consumer_name, register_connection, unregister_connection,
    user_channel_id, CommandKind, RealtimeCommand,
};
use nexus::realtime_events;
use nexus::router::{MessageRouter, MessagingError};

#[test]
fn consumers_have_names() {
    assert_eq!(consumer_name(), "realtime-service");
    assert_eq!(realtime_events::consumer_name(), "realtime-service-matchmaking");
    assert!(realtime_events::is_match_confirmed("events.matchmaking.match_confirmed"));
    assert!(!realtime_events::is_match_confirmed("events.matchmaking.match_found"));
}

#[test]
fn subjects_name_command_kinds() {
    assert_eq!(command_kind("commands.broadcast"), Some(CommandKind::Broadcast));
    assert_eq!(command_kind("commands.broadcast.channels"), Some(CommandKind::BroadcastChannels));
    assert_eq!(command_kind("commands.channels.create"), Some(CommandKind::CreateChannel));
    assert_eq!(command_kind("commands.channels.remove"), Some(CommandKind::RemoveChannel));
    assert_eq!(command_kind("commands.channels.join"), Some(CommandKind::JoinChannel));
    assert_eq!(command_kind("commands.channels.leave"), Some(CommandKind::LeaveChannel));
    assert_eq!(command_kind("commands.other"), None);
}

#[test]
fn commands_change_the_router() {
    let mut router = MessageRouter::default();
    router.add_connection(1).expect("added");
    router.add_connection(2).expect("added");
    RealtimeCommand::CreateChannel { channel: "room".to_string() }.apply(&mut router).expect("created");
    RealtimeCommand::JoinChannel { connection_id: 1, channel: "room".to_string() }.apply(&mut router).expect("joined");
    let out = RealtimeCommand::BroadcastChannels { channels: vec!["room".to_string()], payload: b"hi".to_vec() }
        .apply(&mut router)
        .expect("sent")
        .expect("a broadcast delivers");
    assert_eq!(out.recipients, vec![1]);
    assert_eq!(out.payload, b"hi".to_vec());
    let all = RealtimeCommand::Broadcast { payload: b"x".to_vec() }.apply(&mut router).expect("sent").expect("delivers");
    let mut to = all.recipients.clone();
    to.sort();
    assert_eq!(to, vec![1, 2]);
    RealtimeCommand::LeaveChannel { connection_id: 1, channel: "room".to_string() }.apply(&mut router).expect("left");
    RealtimeCommand::RemoveChannel { channel: "room".to_string() }.apply(&mut router).expect("removed");
    assert!(matches!(
        RealtimeCommand::JoinChannel { connection_id: 3, channel: "default".to_string() }.apply(&mut router),
        Err(MessagingError::ConnectionNotFound { conn_id: 3 })
    ));
}

#[test]
fn a_connection_gets_its_user_channel() {
    let mut router = MessageRouter::default();
    let conn: u128 = 0x550e8400_e29b_41d4_a716_446655440000;
    assert_eq!(user_channel_id(conn), "user:550e8400-e29b-41d4-a716-446655440000");
    register_connection(&mut router, conn).expect("registered");
    assert_eq!(
        router.channels_for_connection(conn).expect("channels"),
        vec!["default".to_string(), "user:550e8400-e29b-41d4-a716-446655440000".to_string()]
    );
    assert!(register_connection(&mut router, conn).is_err());
    let event = client_message_event(&router, conn, b"{}".to_vec()).expect("known connection");
    assert_eq!(event.connection_id, conn);
    assert_eq!(event.channels, vec!["default".to_string(), user_channel_id(conn)]);
    assert_eq!(event.all_channels, vec!["default".to_string(), user_channel_id(conn)]);
    assert_eq!(event.payload, b"{}".to_vec());
    unregister_connection(&mut router, conn).expect("unregistered");
    assert!(!router.has_connection(conn));
    assert_eq!(router.all_channels(), vec!["default".to_string()]);
    assert!(client_message_event(&router, conn, vec![]).is_err());
}

#[test]
fn user_connections_are_tracked() {
    let mut registry = ConnectionRegistry::new();
    registry.register(1, 10);
    registry.register(1, 11);
    registry.register(2, 20);
    registry.register(1, 10);
    let mut c = registry.connections_for_user(1);
    c.sort();
    assert_eq!(c, vec![10, 11]);
    registry.remove(1, 10);
    assert_eq!(registry.connections_for_user(1), vec![11]);
    assert!(registry.has_user(1));
    registry.remove(1, 11);
    assert!(!registry.has_user(1));
    assert!(registry.connections_for_user(1).is_empty());
    assert_eq!(registry.connections_for_user(2), vec![20]);
}

#[test]
fn match_events_become_server_events() {
    let found = ServerEvent::from(MatchFoundEvent {
        match_id: 1,
        rule_id: 2,
        ticket_key: "duel".to_string(),
        player_ids: vec![3, 4],
        expires_at_unix_seconds: 99,
    });
    match found {
        ServerEvent::MatchFound { match_id, rule_id, ticket_key, player_ids, expires_at_unix_seconds } => {
            assert_eq!((match_id, rule_id, ticket_key.as_str(), player_ids, expires_at_unix_seconds), (1, 2, "duel", vec![3, 4], 99));
        }
        _ => panic!("wrong variant"),
    }
    let declined: ServerEvent = MatchDeclinedEvent { match_id: 1, rule_id: 2, ticket_key: "k".to_string(), player_ids: vec![3], declined_by: 3 }.into();
    assert!(matches!(declined, ServerEvent::MatchDeclined { declined_by: 3, .. }));
    let timed_out = ServerEvent::from(MatchTimedOutEvent { match_id: 5, rule_id: 6, ticket_key: "k".to_string(), player_ids: vec![] });
    assert!(matches!(timed_out, ServerEvent::MatchTimedOut { match_id: 5, rule_id: 6, .. }));
    let q = WebSocketConnectQuery { token: "t".to_string() };
    assert_eq!(q.token, "t");
}

#[test]
fn room_errors_name_the_room() {
    let e = RoomError::RoomNotFound { room_id: "lobby-7".to_string() };
    assert_eq!(e.to_string(), "room lobby-7 not found");
}
