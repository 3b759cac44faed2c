use nexus::error::AppError;
use nexus::matchmaking::{
    active_pending_matches_key, check_rule_updated, decide_confirm, decide_confirm_at,
    decide_decline, decide_leave, expired_match_events, expired_match_events_at, is_expired,
    is_expired_at, new_ticket, next_join_action, pending_match_key, pending_match_ttl_seconds,
    pending_match_ttl_seconds_at, plan_match, plan_match_at, player_pending_match_key,
    player_ticket_key, queue_key, required_players_of, rule_creation_error, ticket_key,
    timed_out_event, validate_rule_request, ConfirmDecision, CreateMatchmakingRuleRequest,
    JoinAction, JoinMatchmakingRequest, JoinProgress, MatchmakingRule, MatchmakingTicket,
    PendingMatch,
};

const ID_A: u128 = 0x11111111_1111_1111_1111_111111111111;
const ID_B: u128 = 0x22222222_2222_2222_2222_222222222222;
const P1: u128 = 0x33333333_3333_3333_3333_333333333333;
const P2: u128 = 0x44444444_4444_4444_4444_444444444444;
const P3: u128 = 0x55555555_5555_5555_5555_555555555555;

fn pending(confirmed: Vec<u128>, expires: u64) -> PendingMatch {
    PendingMatch {
        id: ID_A,
        rule_id: ID_B,
        ticket_key: "duel".to_string(),
        player_ids: vec![P1, P2],
        confirmed_player_ids: confirmed,
        expires_at_unix_seconds: expires,
    }
}

fn message(e: &AppError) -> (&'static str, String) {
    match e {
        AppError::BadRequest(m) => ("bad_request", m.clone()),
        AppError::Unauthorized(m) => ("unauthorized", m.clone()),
        AppError::Forbidden(m) => ("forbidden", m.clone()),
        AppError::NotFound(m) => ("not_found", m.clone()),
        AppError::Conflict(m) => ("conflict", m.clone()),
        AppError::Internal(m) => ("internal", m.clone()),
    }
}

fn progress(rule: Option<bool>, pending: Option<bool>, queued: Option<bool>) -> JoinProgress {
    JoinProgress { rule_enabled: rule, in_pending_match: pending, already_queued: queued }
}

fn join(key: &str, p: JoinProgress) -> JoinAction {
    next_join_action(&JoinMatchmakingRequest { ticket_key: key.to_string() }, &p)
}

fn refused(a: JoinAction) -> (&'static str, String) {
    match a {
        JoinAction::Refuse(e) => message(&e),
        _ => panic!("expected a refusal"),
    }
}

#[test]
fn store_keys_follow_their_formats() {
    assert_eq!(ticket_key(ID_A), "matchmaking:tickets:11111111-1111-1111-1111-111111111111");
    assert_eq!(player_ticket_key(P1), "matchmaking:player:33333333-3333-3333-3333-333333333333");
    assert_eq!(queue_key("duel"), "matchmaking:queues:duel");
    assert_eq!(pending_match_key(ID_B), "matchmaking:pending_matches:22222222-2222-2222-2222-222222222222");
    assert_eq!(
        player_pending_match_key(P2),
        "matchmaking:pending_match_player:44444444-4444-4444-4444-444444444444"
    );
    assert_eq!(active_pending_matches_key(), "matchmaking:pending_matches:active");
    let id: u128 = 0x0123456789abcdef0123456789abcdef;
    assert_eq!(ticket_key(id), format!("matchmaking:tickets:{}", uuid::Uuid::from_u128(id)));
}

#[test]
fn join_checks_come_in_order() {
    assert_eq!(refused(join("  ", progress(None, None, None))), ("bad_request", "ticket_key is required".to_string()));
    assert!(matches!(join("duel", progress(None, None, None)), JoinAction::FindEnabledRule));
    assert_eq!(
        refused(join("duel", progress(Some(false), None, None))),
        ("bad_request", "ticket_key does not match an enabled rule".to_string())
    );
    assert!(matches!(join("duel", progress(Some(true), None, None)), JoinAction::FindPendingMatch));
    assert_eq!(
        refused(join("duel", progress(Some(true), Some(true), None))),
        ("conflict", "player is already in a pending match".to_string())
    );
    assert!(matches!(join("duel", progress(Some(true), Some(false), None)), JoinAction::FindQueuedTicket));
    assert_eq!(
        refused(join("duel", progress(Some(true), Some(false), Some(true)))),
        ("conflict", "player is already in queue".to_string())
    );
    assert!(matches!(join("duel", progress(Some(true), Some(false), Some(false))), JoinAction::CreateTicket));
}

#[test]
fn new_ticket_belongs_to_the_player() {
    let a = new_ticket(P1, "duel");
    let b = new_ticket(P1, "duel");
    assert_eq!(a.player_id, P1);
    assert_eq!(a.ticket_key, "duel");
    assert_ne!(a.id, b.id);
}

#[test]
fn leaving_is_refused_during_a_pending_match() {
    assert!(decide_leave(false).is_ok());
    assert_eq!(
        message(&decide_leave(true).expect_err("refused")),
        ("conflict", "player is already in a pending match and cannot leave matchmaking".to_string())
    );
}

#[test]
fn rule_requests_are_checked() {
    let ok = validate_rule_request(&CreateMatchmakingRuleRequest { ticket_key: "  duel ".to_string(), required_players: 2 });
    assert_eq!(ok.expect("valid"), "duel");
    let blank = validate_rule_request(&CreateMatchmakingRuleRequest { ticket_key: " ".to_string(), required_players: 2 });
    assert_eq!(message(&blank.expect_err("blank")), ("bad_request", "ticket_key is required".to_string()));
    let small = validate_rule_request(&CreateMatchmakingRuleRequest { ticket_key: "duel".to_string(), required_players: 1 });
    assert_eq!(message(&small.expect_err("small")), ("bad_request", "required_players must be at least 2".to_string()));
}

#[test]
fn stored_required_players_are_checked() {
    let rule = |n: i32| MatchmakingRule { id: ID_B, ticket_key: "duel".to_string(), required_players: n };
    assert_eq!(required_players_of(&rule(3)).expect("valid"), 3);
    assert_eq!(
        message(&required_players_of(&rule(-1)).expect_err("negative")),
        ("internal", "stored rule required_players is invalid".to_string())
    );
    assert_eq!(
        message(&required_players_of(&rule(1)).expect_err("one")),
        ("internal", "stored rule required_players must be at least 2".to_string())
    );
}

#[test]
fn expiry_is_a_deadline_not_after_now() {
    assert!(is_expired_at(&pending(vec![], 100), 100));
    assert!(is_expired_at(&pending(vec![], 100), 101));
    assert!(!is_expired_at(&pending(vec![], 100), 99));
    assert!(is_expired(&pending(vec![], 0)));
    assert!(!is_expired(&pending(vec![], u64::MAX)));
}

#[test]
fn pending_match_ttl_adds_grace_to_time_left() {
    assert_eq!(pending_match_ttl_seconds_at(&pending(vec![], 130), 100), 35);
    assert_eq!(pending_match_ttl_seconds_at(&pending(vec![], 100), 100), 5);
    assert_eq!(pending_match_ttl_seconds_at(&pending(vec![], 50), 100), 5);
    assert_eq!(pending_match_ttl_seconds_at(&pending(vec![], u64::MAX), 0), -1);
    assert_eq!(pending_match_ttl_seconds(&pending(vec![], 0)), 5);
}

#[test]
fn confirming_records_the_player_then_completes() {
    let first = decide_confirm_at(Some(pending(vec![], 200)), P1, 100);
    let saved = match first {
        ConfirmDecision::Save(p) => p,
        _ => panic!("first confirmation is stored"),
    };
    assert_eq!(saved.confirmed_player_ids, vec![P1]);

    let again = decide_confirm_at(Some(saved), P1, 100);
    let saved = match again {
        ConfirmDecision::Save(p) => p,
        _ => panic!("repeated confirmation is stored unchanged"),
    };
    assert_eq!(saved.confirmed_player_ids, vec![P1]);

    match decide_confirm_at(Some(saved), P2, 100) {
        ConfirmDecision::Complete(event, done) => {
            assert_eq!(event.match_id, ID_A);
            assert_eq!(event.rule_id, ID_B);
            assert_eq!(event.ticket_key, "duel");
            assert_eq!(event.player_ids, vec![P1, P2]);
            assert_eq!(done.confirmed_player_ids, vec![P1, P2]);
        }
        _ => panic!("last confirmation completes the match"),
    }
}

#[test]
fn confirming_is_refused_or_times_out() {
    match decide_confirm_at(None, P1, 100) {
        ConfirmDecision::Refuse(e) => assert_eq!(message(&e), ("not_found", "pending match was not found".to_string())),
        _ => panic!("missing match"),
    }
    match decide_confirm_at(Some(pending(vec![], 100)), P3, 100) {
        ConfirmDecision::TimeOut(event, e) => {
            assert_eq!(message(&e), ("conflict", "pending match has already timed out".to_string()));
            assert_eq!(event.match_id, ID_A);
            assert_eq!(event.player_ids, vec![P1, P2]);
        }
        _ => panic!("expired match"),
    }
    match decide_confirm_at(Some(pending(vec![], 200)), P3, 100) {
        ConfirmDecision::Refuse(e) => {
            assert_eq!(message(&e), ("forbidden", "player is not part of this pending match".to_string()))
        }
        _ => panic!("outsider"),
    }
    assert!(matches!(decide_confirm(Some(pending(vec![], 0)), P1), ConfirmDecision::TimeOut(_, _)));
    assert!(matches!(decide_confirm(None, P1), ConfirmDecision::Refuse(_)));
}

#[test]
fn declining_names_the_decliner() {
    let (event, p) = decide_decline(Some(pending(vec![P1], 0)), P2).expect("declined");
    assert_eq!(event.declined_by, P2);
    assert_eq!(event.match_id, ID_A);
    assert_eq!(event.player_ids, vec![P1, P2]);
    assert_eq!(p.id, ID_A);
    assert_eq!(
        message(&decide_decline(None, P2).expect_err("missing")),
        ("not_found", "pending match was not found".to_string())
    );
    assert_eq!(
        message(&decide_decline(Some(pending(vec![], 0)), P3).expect_err("outsider")),
        ("forbidden", "player is not part of this pending match".to_string())
    );
}

fn queued(players: &[u128]) -> Vec<MatchmakingTicket> {
    players
        .iter()
        .enumerate()
        .map(|(i, p)| MatchmakingTicket { id: 1000 + i as u128, player_id: *p, ticket_key: "duel".to_string() })
        .collect()
}

#[test]
fn a_match_takes_the_head_of_the_queue() {
    let rule = MatchmakingRule { id: ID_B, ticket_key: "duel".to_string(), required_players: 2 };
    let plan = plan_match_at(&rule, &queued(&[P1, P2, P3]), 2, ID_A, 1000).expect("enough players");
    assert_eq!(plan.pending_match.id, ID_A);
    assert_eq!(plan.pending_match.rule_id, ID_B);
    assert_eq!(plan.pending_match.ticket_key, "duel");
    assert_eq!(plan.pending_match.player_ids, vec![P1, P2]);
    assert!(plan.pending_match.confirmed_player_ids.is_empty());
    assert_eq!(plan.pending_match.expires_at_unix_seconds, 1030);
    assert_eq!(plan.event.match_id, ID_A);
    assert_eq!(plan.event.player_ids, vec![P1, P2]);
    assert_eq!(plan.event.expires_at_unix_seconds, 1030);
    assert_eq!(plan.matched_tickets.len(), 2);
    assert_eq!(plan.matched_tickets[1].id, 1001);

    assert!(plan_match_at(&rule, &queued(&[P1]), 2, ID_A, 1000).is_none());
    assert!(plan_match(&rule, &queued(&[P1]), 2).is_none());
    let live = plan_match(&rule, &queued(&[P1, P2]), 2).expect("formed");
    assert_eq!(live.pending_match.player_ids, vec![P1, P2]);
    let wrapped = plan_match_at(&rule, &queued(&[P1, P2]), 2, ID_A, u64::MAX - 9).expect("formed");
    assert_eq!(wrapped.pending_match.expires_at_unix_seconds, 20);
}

#[test]
fn only_expired_matches_time_out() {
    let mut a = pending(vec![], 100);
    a.id = 1;
    let mut b = pending(vec![], 300);
    b.id = 2;
    let mut c = pending(vec![], 50);
    c.id = 3;
    let events = expired_match_events_at(&vec![a, b, c], 200);
    assert_eq!(events.iter().map(|e| e.match_id).collect::<Vec<_>>(), vec![1, 3]);
    assert_eq!(timed_out_event(&pending(vec![P1], 5)).player_ids, vec![P1, P2]);
    assert_eq!(expired_match_events(&vec![pending(vec![], 0)]).len(), 1);
}

#[test]
fn rule_repository_failures_are_named() {
    assert_eq!(message(&rule_creation_error(true)), ("conflict", "ticket_key already exists".to_string()));
    assert_eq!(message(&rule_creation_error(false)), ("internal", "database operation failed".to_string()));
    assert!(check_rule_updated(1).is_ok());
    assert_eq!(
        message(&check_rule_updated(0).expect_err("no row")),
        ("not_found", "matchmaking rule not found".to_string())
    );
}

#[test]
fn a_formed_match_lives_for_the_time_to_confirm_and_completes_when_all_confirm() {
    let rule = MatchmakingRule { id: ID_B, ticket_key: "duel".to_string(), required_players: 2 };
    let plan = plan_match_at(&rule, &queued(&[P1, P2]), 2, ID_A, 500).expect("formed");
    assert!(!is_expired_at(&plan.pending_match, 500));
    assert!(!is_expired_at(&plan.pending_match, 529));
    assert!(is_expired_at(&plan.pending_match, 530));
    let saved = match decide_confirm_at(Some(plan.pending_match), P2, 510) {
        ConfirmDecision::Save(p) => p,
        _ => panic!("first of two confirmations is stored"),
    };
    assert!(matches!(decide_confirm_at(Some(saved), P1, 520), ConfirmDecision::Complete(_, _)));
}
