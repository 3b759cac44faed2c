use nexus::auth::{
    authenticated_user_from_claims, bearer_token, parse_stored_id, require_admin_role,
    require_player_role, require_role, AccessTokenClaims, AuthenticatedUser, AuthorizationHeader,
    UserRole,
};
use nexus::error::AppError;

fn message(e: &AppError) -> (&'static str, String) {
    match e {
        AppError::BadRequest(m) => ("bad_request", m.clone()),
        AppError::Unauthorized(m) => ("unauthorized", m.clone()),
        AppError::Forbidden(m) => ("forbidden", m.clone()),
        AppError::NotFound(m) => ("not_found", m.clone()),
        AppError::Conflict(m) => ("conflict", m.clone()),
        AppError::Internal(m) => ("internal", m.clone()),
    }
}

fn user(role: UserRole) -> AuthenticatedUser {
    AuthenticatedUser { user_id: 1, email: "a@b.c".to_string(), role }
}

#[test]
fn roles_have_names() {
    assert_eq!(UserRole::Player.as_str(), "player");
    assert_eq!(UserRole::Admin.as_str(), "admin");
    assert_eq!(UserRole::Admin.to_string(), "admin");
    assert_eq!(UserRole::parse("player"), Some(UserRole::Player));
    assert_eq!(UserRole::parse("admin"), Some(UserRole::Admin));
    assert_eq!(UserRole::parse("Admin"), None);
    assert_eq!(UserRole::parse(""), None);
    assert_eq!("admin".parse::<UserRole>(), Ok(UserRole::Admin));
    assert_eq!("root".parse::<UserRole>(), Err(()));
    for role in [UserRole::Player, UserRole::Admin] {
        assert_eq!(UserRole::parse(role.as_str()), Some(role));
    }
}

#[test]
fn bearer_token_follows_the_prefix() {
    let token = bearer_token(&AuthorizationHeader::Text("Bearer abc.def".to_string())).expect("token");
    assert_eq!(token, "abc.def");
    assert_eq!(bearer_token(&AuthorizationHeader::Text("Bearer ".to_string())).expect("empty token"), "");
    assert_eq!(
        message(&bearer_token(&AuthorizationHeader::Missing).expect_err("missing")),
        ("unauthorized", "missing authorization header".to_string())
    );
    assert_eq!(
        message(&bearer_token(&AuthorizationHeader::Invalid).expect_err("invalid")),
        ("unauthorized", "authorization header is invalid".to_string())
    );
    assert_eq!(
        message(&bearer_token(&AuthorizationHeader::Text("Basic abc".to_string())).expect_err("basic")),
        ("unauthorized", "authorization header must use Bearer token".to_string())
    );
    assert!(bearer_token(&AuthorizationHeader::Text("bearer abc".to_string())).is_err());
}

#[test]
fn claims_name_the_user() {
    let claims = AccessTokenClaims {
        sub: "550e8400-e29b-41d4-a716-446655440000".to_string(),
        email: "player@example.com".to_string(),
        role: UserRole::Player,
        exp: 10,
    };
    let u = authenticated_user_from_claims(claims).expect("valid subject");
    assert_eq!(u.user_id, 0x550e8400_e29b_41d4_a716_446655440000);
    assert_eq!(u.email, "player@example.com");
    assert_eq!(u.role, UserRole::Player);

    let bad = AccessTokenClaims { sub: "not-a-uuid".to_string(), email: String::new(), role: UserRole::Admin, exp: 0 };
    assert_eq!(
        message(&authenticated_user_from_claims(bad).expect_err("bad subject")),
        ("unauthorized", "invalid token subject".to_string())
    );
}

#[test]
fn roles_are_required() {
    assert!(require_player_role(&user(UserRole::Player)).is_ok());
    assert_eq!(
        message(&require_player_role(&user(UserRole::Admin)).expect_err("admin is not a player")),
        ("forbidden", "player role is required".to_string())
    );
    assert!(require_admin_role(&user(UserRole::Admin)).is_ok());
    assert_eq!(
        message(&require_admin_role(&user(UserRole::Player)).expect_err("player is not an admin")),
        ("forbidden", "admin role is required".to_string())
    );
    assert_eq!(
        message(&require_role(&user(UserRole::Player), UserRole::Admin, "nope").expect_err("refused")),
        ("forbidden", "nope".to_string())
    );
}

#[test]
fn stored_ids_must_be_uuids() {
    assert_eq!(parse_stored_id("11111111-1111-1111-1111-111111111111", "bad").expect("uuid"), 0x11111111_1111_1111_1111_111111111111);
    assert_eq!(
        message(&parse_stored_id("xyz", "stored matchmaking ticket id is invalid").expect_err("not a uuid")),
        ("internal", "stored matchmaking ticket id is invalid".to_string())
    );
    let id = uuid::Uuid::new_v4();
    assert_eq!(parse_stored_id(&id.to_string(), "bad").expect("round trip"), id.as_u128());
}
