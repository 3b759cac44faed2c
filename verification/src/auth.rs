//! Who is calling: roles, access-token claims, the bearer token of a request and the
//! checks on the caller's role.
use vstd::prelude::*;
use crate::error::{AppError, AppErrorKind};
use crate::text::{has_prefix, str_eq, strip_prefix, uuid_text};

verus! {

/// The role of an account.
#[derive(Debug, Clone, Copy, PartialEq, Eq, Structural)]
pub enum UserRole {
    Player,
    Admin,
}

/// The name of a role, as tokens and responses spell it.
pub open spec fn role_name(role: UserRole) -> Seq<char> {
    match role {
        UserRole::Player => "player"@,
        UserRole::Admin => "admin"@,
    }
}

/// The role a name spells, if any.
pub open spec fn role_named(name: Seq<char>) -> Option<UserRole> {
    if name == "player"@ {
        Some(UserRole::Player)
    } else if name == "admin"@ {
        Some(UserRole::Admin)
    } else {
        None
    }
}

impl UserRole {
    /// The name of the role.
    pub fn as_str(&self) -> (r: &'static str)
        ensures
            r@ == role_name(*self),
    {
        match self {
            UserRole::Player => "player",
            UserRole::Admin => "admin",
        }
    }

    /// The role's name as an owned string, as `Display` writes it.
    pub fn to_string(&self) -> (r: String)
        ensures
            r@ == role_name(*self),
    {
        self.as_str().to_string()
    }

    /// The role that `value` names: `player` or `admin`, nothing else.
    pub fn parse(value: &str) -> (r: Option<UserRole>)
        ensures
            r == role_named(value@),
    {
        if str_eq(value, "player") {
            Some(UserRole::Player)
        } else if str_eq(value, "admin") {
            Some(UserRole::Admin)
        } else {
            None
        }
    }
}

impl std::str::FromStr for UserRole {
    type Err = ();

    fn from_str(value: &str) -> (r: Result<UserRole, ()>)
        ensures
            r == (match role_named(value@) {
                Some(role) => Ok::<UserRole, ()>(role),
                None => Err(()),
            }),
    {
        match UserRole::parse(value) {
            Some(role) => Ok(role),
            None => Err(()),
        }
    }
}

/// The name of a role names that role back.
pub proof fn law_role_name_round_trip(role: UserRole)
    ensures
        role_named(role_name(role)) == Some(role),
{
    reveal_strlit("player");
    reveal_strlit("admin");
    assert(role_name(role) != "player"@ ==> role == UserRole::Admin);
    if role == UserRole::Admin {
        assert("admin"@ != "player"@) by {
            assert("admin"@[0] != "player"@[0]);
        }
    }
}

/// What an access token says of its holder.
#[derive(Debug)]
pub struct AccessTokenClaims {
    pub sub: String,
    pub email: String,
    pub role: UserRole,
    pub exp: usize,
}

/// The caller of a request, as its access token names them.
#[derive(Debug, Clone)]
pub struct AuthenticatedUser {
    pub user_id: u128,
    pub email: String,
    pub role: UserRole,
}

/// The content of an authenticated user.
pub struct UserInfo {
    pub user_id: u128,
    pub email: Seq<char>,
    pub role: UserRole,
}

impl View for AuthenticatedUser {
    type V = UserInfo;

    open spec fn view(&self) -> UserInfo {
        UserInfo { user_id: self.user_id, email: self.email@, role: self.role }
    }
}

/// The UUID that a text spells, as `uuid::Uuid::parse_str` reads it, if it spells one.
pub uninterp spec fn uuid_parse(text: Seq<char>) -> Option<u128>;

/// `uuid::Uuid::parse_str`: the 128-bit value of the UUID that `text` spells, if it spells
/// one. It reads the hyphenated lowercase form that UUIDs are written in (and some other
/// forms, left unsaid here beyond the name `uuid_parse`).
#[verifier::external_body]
pub(crate) fn parse_uuid(text: &str) -> (r: Option<u128>)
    ensures
        r == uuid_parse(text@),
        forall|id: u128| text@ == uuid_text(id) ==> r == Some(id),
{
    match uuid::Uuid::parse_str(text) {
        Ok(id) => Some(id.as_u128()),
        Err(_) => None,
    }
}

/// The user an access token's claims name, or `invalid token subject` when the subject is
/// not a UUID.
pub fn authenticated_user_from_claims(claims: AccessTokenClaims) -> (r: Result<AuthenticatedUser, AppError>)
    ensures
        match (r, uuid_parse(claims.sub@)) {
            (Ok(user), Some(id)) => user@ == (UserInfo {
                user_id: id,
                email: claims.email@,
                role: claims.role,
            }),
            (Err(e), None) => e@ == (AppErrorKind::Unauthorized, "invalid token subject"@),
            _ => false,
        },
{
    match parse_uuid(claims.sub.as_str()) {
        Some(user_id) => Ok(AuthenticatedUser { user_id, email: claims.email, role: claims.role }),
        None => Err(AppError::unauthorized("invalid token subject")),
    }
}

/// The `Authorization` header of a request, as far as the bearer check reads it.
pub enum AuthorizationHeader {
    /// The request has no such header.
    Missing,
    /// The header holds something other than visible ASCII.
    Invalid,
    /// The header's text.
    Text(String),
}

pub const BEARER_PREFIX: &'static str = "Bearer ";

/// The bearer token of a request, or why there is none.
pub open spec fn bearer_outcome(header: AuthorizationHeader) -> Result<Seq<char>, (AppErrorKind, Seq<char>)> {
    match header {
        AuthorizationHeader::Missing => Err(
            (AppErrorKind::Unauthorized, "missing authorization header"@),
        ),
        AuthorizationHeader::Invalid => Err(
            (AppErrorKind::Unauthorized, "authorization header is invalid"@),
        ),
        AuthorizationHeader::Text(text) => if has_prefix(text@, BEARER_PREFIX@) {
            Ok(text@.subrange(BEARER_PREFIX@.len() as int, text@.len() as int))
        } else {
            Err((AppErrorKind::Unauthorized, "authorization header must use Bearer token"@))
        },
    }
}

/// The token that follows `Bearer ` in the `Authorization` header.
pub fn bearer_token(header: &AuthorizationHeader) -> (r: Result<String, AppError>)
    ensures
        match (r, bearer_outcome(*header)) {
            (Ok(token), Ok(expected)) => token@ == expected,
            (Err(e), Err(expected)) => e@ == expected,
            _ => false,
        },
{
    match header {
        AuthorizationHeader::Missing => Err(AppError::unauthorized("missing authorization header")),
        AuthorizationHeader::Invalid => Err(AppError::unauthorized("authorization header is invalid")),
        AuthorizationHeader::Text(text) => match strip_prefix(text.as_str(), BEARER_PREFIX) {
            Some(token) => Ok(token.to_string()),
            None => Err(AppError::unauthorized("authorization header must use Bearer token")),
        },
    }
}

/// Lets the user through when they hold `required_role`; else refuses with
/// `forbidden_message`.
pub fn require_role(user: &AuthenticatedUser, required_role: UserRole, forbidden_message: &str) -> (r: Result<(), AppError>)
    ensures
        r is Ok <==> user.role == required_role,
        r matches Err(e) ==> e@ == (AppErrorKind::Forbidden, forbidden_message@),
{
    if user.role != required_role {
        return Err(AppError::forbidden(forbidden_message));
    }
    Ok(())
}

/// Lets players through.
pub fn require_player_role(user: &AuthenticatedUser) -> (r: Result<(), AppError>)
    ensures
        r is Ok <==> user.role == UserRole::Player,
        r matches Err(e) ==> e@ == (AppErrorKind::Forbidden, "player role is required"@),
{
    require_role(user, UserRole::Player, "player role is required")
}

/// Lets administrators through.
pub fn require_admin_role(user: &AuthenticatedUser) -> (r: Result<(), AppError>)
    ensures
        r is Ok <==> user.role == UserRole::Admin,
        r matches Err(e) ==> e@ == (AppErrorKind::Forbidden, "admin role is required"@),
{
    require_role(user, UserRole::Admin, "admin role is required")
}

/// A stored id that must be a UUID, or an internal error with `message`.
pub fn parse_stored_id(text: &str, message: &str) -> (r: Result<u128, AppError>)
    ensures
        match (r, uuid_parse(text@)) {
            (Ok(id), Some(expected)) => id == expected,
            (Err(e), None) => e@ == (AppErrorKind::Internal, message@),
            _ => false,
        },
{
    match parse_uuid(text) {
        Some(id) => Ok(id),
        None => Err(AppError::internal(message)),
    }
}

/// A header made of `Bearer ` and a token yields that token.
pub proof fn law_bearer_token_round_trip(header: AuthorizationHeader, token: Seq<char>)
    requires
        header matches AuthorizationHeader::Text(text) && text@ == BEARER_PREFIX@ + token,
    ensures
        bearer_outcome(header) == Ok::<Seq<char>, (AppErrorKind, Seq<char>)>(token),
{
    let text = header->Text_0@;
    assert(text.subrange(0, BEARER_PREFIX@.len() as int) =~= BEARER_PREFIX@);
    assert(text.subrange(BEARER_PREFIX@.len() as int, text.len() as int) =~= token);
}

} // verus!
