use nexus::error::AppError;
use nexus::room_queue::{
    decide_queue_join, user_ticket_key, matched_ticket, new_queue_ticket, session_players, MatchmakingTicket,
    MatchmakingTicketStatus,
};
use nexus::rooms::{
    create_game_session, create_lobby, game_session_key, game_session_or_not_found, lobby_key,
    lobby_or_not_found, new_game_session_at, new_lobby_at, validate_create_lobby_request,
    validate_players, CreateLobbyRequest, GameSessionStatus, LobbyStatus,
};

fn message(e: &AppError) -> (&'static str, String) {
    match e {
        AppError::BadRequest(m) => ("bad_request", m.clone()),
        AppError::Unauthorized(m) => ("unauthorized", m.clone()),
        AppError::Forbidden(m) => ("forbidden", m.clone()),
        AppError::NotFound(m) => ("not_found", m.clone()),
        AppError::Conflict(m) => ("conflict", m.clone()),
        AppError::Internal(m) => ("internal", m.clone()),
    }
}

#[test]
fn lobby_keys_and_session_keys() {
    assert_eq!(lobby_key(0x11111111_1111_1111_1111_111111111111), "lobbies:11111111-1111-1111-1111-111111111111");
    assert_eq!(game_session_key(1), "game_sessions:00000000-0000-0000-0000-000000000001");
}

#[test]
fn a_lobby_starts_open_with_its_owner() {
    let lobby = new_lobby_at(CreateLobbyRequest { owner_user_id: 7, name: "friends".to_string() }, 9, 1234);
    assert_eq!(lobby.id, 9);
    assert_eq!(lobby.owner_user_id, 7);
    assert_eq!(lobby.name, "friends");
    assert_eq!(lobby.status, LobbyStatus::Open);
    assert_eq!(lobby.members.len(), 1);
    assert_eq!(lobby.members[0].user_id, 7);
    assert_eq!(lobby.members[0].joined_at, 1234);

    let live = create_lobby(CreateLobbyRequest { owner_user_id: 7, name: "x".to_string() }).expect("created");
    assert_eq!(live.members[0].user_id, 7);
    assert_eq!(
        message(&create_lobby(CreateLobbyRequest { owner_user_id: 7, name: "  ".to_string() }).expect_err("blank")),
        ("bad_request", "name is required".to_string())
    );
    assert!(validate_create_lobby_request(&CreateLobbyRequest { owner_user_id: 1, name: "\n".to_string() }).is_err());
}

#[test]
fn a_game_session_waits_for_its_players() {
    let session = new_game_session_at(&vec![3, 1, 2], 5, 77);
    assert_eq!(session.id, 5);
    assert_eq!(session.status, GameSessionStatus::WaitingForStart);
    assert_eq!(session.players.iter().map(|p| p.user_id).collect::<Vec<_>>(), vec![3, 1, 2]);
    assert!(session.players.iter().all(|p| p.joined_at == 77));
    assert_eq!(
        message(&create_game_session(vec![]).expect_err("empty")),
        ("bad_request", "at least one player is required to create a game session".to_string())
    );
    assert!(validate_players(&vec![1]).is_ok());
    assert_eq!(create_game_session(vec![4]).expect("created").players[0].user_id, 4);
}

#[test]
fn missing_lobbies_and_sessions_are_not_found() {
    assert_eq!(message(&lobby_or_not_found(None).expect_err("missing")), ("not_found", "lobby not found".to_string()));
    assert_eq!(
        message(&game_session_or_not_found(None).expect_err("missing")),
        ("not_found", "game session not found".to_string())
    );
    let lobby = new_lobby_at(CreateLobbyRequest { owner_user_id: 1, name: "n".to_string() }, 2, 3);
    assert_eq!(lobby_or_not_found(Some(lobby)).expect("found").id, 2);
}

fn ticket(id: u128, players: Vec<u128>) -> MatchmakingTicket {
    MatchmakingTicket {
        id,
        owner_user_id: players[0],
        player_ids: players,
        game_mode: "duel".to_string(),
        status: MatchmakingTicketStatus::Queued,
        game_session_id: None,
    }
}

#[test]
fn queue_join_is_refused_for_queued_or_matched_users() {
    assert!(decide_queue_join(None).is_ok());
    let queued = ticket(1, vec![5]);
    assert_eq!(message(&decide_queue_join(Some(&queued)).expect_err("queued")), ("conflict", "user is already in queue".to_string()));
    let matched = matched_ticket(&queued, 99);
    assert_eq!(matched.status, MatchmakingTicketStatus::Matched);
    assert_eq!(matched.game_session_id, Some(99));
    assert_eq!(matched.player_ids, vec![5]);
    assert_eq!(
        message(&decide_queue_join(Some(&matched)).expect_err("matched")),
        ("conflict", "user is already assigned to a match".to_string())
    );
    let fresh = new_queue_ticket(8, "duel");
    assert_eq!(fresh.player_ids, vec![8]);
    assert_eq!(fresh.status, MatchmakingTicketStatus::Queued);
    assert_eq!(fresh.game_session_id, None);
}

#[test]
fn sessions_form_from_the_queue_head() {
    let q = vec![ticket(1, vec![10]), ticket(2, vec![20]), ticket(3, vec![30])];
    assert_eq!(session_players(&q, 2), Some(vec![10, 20]));
    assert_eq!(session_players(&vec![ticket(1, vec![10])], 2), None);
    let groups = vec![ticket(1, vec![10, 11]), ticket(2, vec![20])];
    assert_eq!(session_players(&groups, 2), None);
    assert_eq!(session_players(&groups, 1), None);
}

#[test]
fn queue_user_key_follows_its_format() {
    assert_eq!(user_ticket_key(0x11111111_1111_1111_1111_111111111111), "matchmaking:user:11111111-1111-1111-1111-111111111111");
}
