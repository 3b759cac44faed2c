use nexus::game_commands::{
    channel_ids_from_array, subject_to_hook, validate_id, CommandApi, ScriptError, StateStore,
};

fn json(bytes: &[u8]) -> serde_json::Value {
    serde_json::from_slice(bytes).expect("valid json")
}

fn expected(text: &str) -> serde_json::Value {
    serde_json::from_str(text).expect("expected json is valid")
}

fn channels(v: &[&str]) -> Vec<Option<String>> {
    v.iter().map(|s| Some(s.to_string())).collect()
}

#[test]
fn state_persists_across_command_apis() {
    let mut state: StateStore<i64> = StateStore::new();
    let mut payloads = Vec::new();
    for _ in 0..2 {
        let mut api = CommandApi::new(state);
        if api.get("count").is_none() {
            api.put("count", 0);
        }
        let count = *api.get("count").expect("count is set") + 1;
        api.put("count", count);
        api.broadcast(serde_json::to_vec(&count).expect("count serializes"));
        let commands = api.take_commands();
        assert_eq!(commands.len(), 1);
        payloads.push(commands[0].payload.clone());
        state = api.into_state();
    }
    assert_eq!(payloads[0], b"1".to_vec());
    assert_eq!(payloads[1], b"2".to_vec());
}

#[test]
fn broadcast_to_channels_frames_channels_and_bytes() {
    let mut api: CommandApi<i64> = CommandApi::new(StateStore::new());
    api.broadcast_to_channels(Ok(vec![104, 105]), &channels(&["default", "match-1"]))
        .expect("broadcast is queued");
    let commands = api.take_commands();
    assert_eq!(commands.len(), 1);
    assert_eq!(commands[0].subject, "commands.broadcast.channels");
    assert_eq!(
        String::from_utf8(commands[0].payload.clone()).expect("utf-8"),
        "{\"channels\":[\"default\",\"match-1\"],\"payload\":[104,105]}"
    );
    let command = json(&commands[0].payload);
    assert_eq!(command["channels"], expected("[\"default\",\"match-1\"]"));
    assert_eq!(command["payload"], expected("[104,105]"));
}

#[test]
fn channel_management_commands_are_queued_in_order() {
    let mut api: CommandApi<i64> = CommandApi::new(StateStore::new());
    let connection_id = "550e8400-e29b-41d4-a716-446655440000";
    api.create_channel("match-2").expect("create is queued");
    api.add_to_channel(connection_id, "match-2").expect("join is queued");
    api.remove_from_channel(connection_id, "default").expect("leave is queued");
    api.remove_channel("match-1").expect("remove is queued");
    let commands = api.take_commands();

    assert_eq!(commands.len(), 4);
    assert_eq!(commands[0].subject, "commands.channels.create");
    assert_eq!(commands[1].subject, "commands.channels.join");
    assert_eq!(commands[2].subject, "commands.channels.leave");
    assert_eq!(commands[3].subject, "commands.channels.remove");
    assert_eq!(json(&commands[0].payload), expected("{\"channel\":\"match-2\"}"));
    assert_eq!(
        json(&commands[1].payload),
        expected("{\"connection_id\":\"550e8400-e29b-41d4-a716-446655440000\",\"channel\":\"match-2\"}")
    );
    assert_eq!(
        json(&commands[2].payload),
        expected("{\"connection_id\":\"550e8400-e29b-41d4-a716-446655440000\",\"channel\":\"default\"}")
    );
    assert_eq!(json(&commands[3].payload), expected("{\"channel\":\"match-1\"}"));
    assert_eq!(
        String::from_utf8(commands[1].payload.clone()).expect("utf-8"),
        "{\"channel\":\"match-2\",\"connection_id\":\"550e8400-e29b-41d4-a716-446655440000\"}"
    );
}

#[test]
fn taking_commands_empties_the_queue() {
    let mut api: CommandApi<i64> = CommandApi::new(StateStore::new());
    api.broadcast(b"x".to_vec());
    assert_eq!(api.take_commands().len(), 1);
    assert!(api.take_commands().is_empty());
}

#[test]
fn ids_are_trimmed_and_must_not_be_blank() {
    assert_eq!(validate_id("  room  ", "channel id").expect("valid"), "room");
    match validate_id(" \t ", "connection id") {
        Err(e) => assert_eq!(e.to_string(), "connection id must be a non-empty string"),
        Ok(id) => panic!("unexpected id {id}"),
    }
    let mut api: CommandApi<i64> = CommandApi::new(StateStore::new());
    assert!(api.create_channel("   ").is_err());
    assert!(api.add_to_channel("", "room").is_err());
    assert!(api.take_commands().is_empty());
    api.create_channel(" spaced ").expect("queued");
    assert_eq!(json(&api.take_commands()[0].payload), expected("{\"channel\":\"spaced\"}"));
}

#[test]
fn channel_lists_must_hold_non_empty_strings() {
    assert_eq!(channel_ids_from_array(&channels(&["a", "b"])).expect("valid"), vec!["a".to_string(), "b".to_string()]);
    assert!(matches!(channel_ids_from_array(&vec![Some("a".to_string()), None]), Err(ScriptError::InvalidChannelId)));
    assert!(matches!(channel_ids_from_array(&channels(&["a", ""])), Err(ScriptError::InvalidChannelId)));
    assert_eq!(ScriptError::InvalidChannelId.to_string(), "channel id must be a non-empty string");
}

#[test]
fn channel_list_is_checked_before_the_payload() {
    let mut api: CommandApi<i64> = CommandApi::new(StateStore::new());
    let r = api.broadcast_to_channels(Err("failed to serialize payload".to_string()), &vec![None]);
    assert!(matches!(r, Err(ScriptError::InvalidChannelId)));
    let r = api.broadcast_to_channels(Err("failed to serialize payload".to_string()), &channels(&["a"]));
    match r {
        Err(e) => assert_eq!(e.to_string(), "failed to serialize payload"),
        Ok(()) => panic!("payload failure must be reported"),
    }
    assert!(api.take_commands().is_empty());
}

#[test]
fn channel_names_are_escaped_as_json() {
    let mut api: CommandApi<i64> = CommandApi::new(StateStore::new());
    api.create_channel("a\"b\\c\nd").expect("queued");
    let commands = api.take_commands();
    assert_eq!(
        String::from_utf8(commands[0].payload.clone()).expect("utf-8"),
        "{\"channel\":\"a\\\"b\\\\c\\nd\"}"
    );
    assert_eq!(json(&commands[0].payload)["channel"], "a\"b\\c\nd");
}

#[test]
fn only_known_subjects_have_hooks() {
    assert_eq!(subject_to_hook("events.realtime.message"), Some("on_message"));
    assert_eq!(subject_to_hook("events.realtime.match_channel_ready"), Some("on_match_channel_ready"));
    assert_eq!(subject_to_hook("events.matchmaking.match_confirmed"), None);
    assert_eq!(subject_to_hook(""), None);
}

#[test]
fn state_store_keeps_the_last_value_of_a_key() {
    let mut store: StateStore<i64> = StateStore::new();
    assert!(store.get("k").is_none());
    store.put("k", 1);
    store.put("j", 5);
    store.put("k", 2);
    assert_eq!(store.get("k"), Some(&2));
    assert_eq!(store.get("j"), Some(&5));
}
