//! Lobbies and game sessions: what creating one builds and when a request is refused.
use vstd::prelude::*;
use crate::error::{AppError, AppErrorKind};
use crate::text::{concat, is_blank, trim_spec, uuid_text, uuid_to_string};

verus! {

/// A user in a lobby, with the time they joined it.
#[derive(Debug)]
pub struct LobbyMember {
    pub user_id: u128,
    pub joined_at: u64,
}

/// Where a lobby stands.
#[derive(Debug, Clone, Copy, PartialEq, Eq, Structural)]
pub enum LobbyStatus {
    Open,
    InQueue,
    InMatch,
    Closed,
}

/// A lobby: an owner, a name, a status and its members.
#[derive(Debug)]
pub struct Lobby {
    pub id: u128,
    pub owner_user_id: u128,
    pub name: String,
    pub status: LobbyStatus,
    pub members: Vec<LobbyMember>,
}

/// A player of a game session, with the time they joined it.
#[derive(Debug)]
pub struct GameSessionPlayer {
    pub user_id: u128,
    pub joined_at: u64,
}

/// Where a game session stands.
#[derive(Debug, Clone, Copy, PartialEq, Eq, Structural)]
pub enum GameSessionStatus {
    WaitingForStart,
    Active,
    Finished,
}

/// A game session and its players.
#[derive(Debug)]
pub struct GameSession {
    pub id: u128,
    pub status: GameSessionStatus,
    pub players: Vec<GameSessionPlayer>,
}

/// A request to open a lobby.
#[derive(Debug)]
pub struct CreateLobbyRequest {
    pub owner_user_id: u128,
    pub name: String,
}

pub const LOBBY_KEY_PREFIX: &'static str = "lobbies:";

pub const GAME_SESSION_KEY_PREFIX: &'static str = "game_sessions:";

/// The store key of a lobby: `lobbies:{id}`.
pub fn lobby_key(id: u128) -> (r: String)
    ensures
        r@ == LOBBY_KEY_PREFIX@ + uuid_text(id),
{
    let text = uuid_to_string(id);
    concat(LOBBY_KEY_PREFIX, text.as_str())
}

/// The store key of a game session: `game_sessions:{id}`.
pub fn game_session_key(id: u128) -> (r: String)
    ensures
        r@ == GAME_SESSION_KEY_PREFIX@ + uuid_text(id),
{
    let text = uuid_to_string(id);
    concat(GAME_SESSION_KEY_PREFIX, text.as_str())
}

/// A lobby request is refused exactly when its name is blank.
pub fn validate_create_lobby_request(payload: &CreateLobbyRequest) -> (r: Result<(), AppError>)
    ensures
        r is Ok <==> trim_spec(payload.name@).len() != 0,
        r matches Err(e) ==> e@ == (AppErrorKind::BadRequest, "name is required"@),
{
    if is_blank(payload.name.as_str()) {
        return Err(AppError::bad_request("name is required"));
    }
    Ok(())
}

/// The content of a lobby member.
pub open spec fn member_info(m: LobbyMember) -> (u128, u64) {
    (m.user_id, m.joined_at)
}

/// The open lobby that a valid request creates under id `id` at time `now`: its owner is its
/// only member, joined at `now`.
pub fn new_lobby_at(payload: CreateLobbyRequest, id: u128, now: u64) -> (lobby: Lobby)
    ensures
        lobby.id == id,
        lobby.owner_user_id == payload.owner_user_id,
        lobby.name@ == payload.name@,
        lobby.status == LobbyStatus::Open,
        lobby.members@.len() == 1,
        member_info(lobby.members@[0]) == (payload.owner_user_id, now),
{
    let owner = payload.owner_user_id;
    let mut members: Vec<LobbyMember> = Vec::new();
    members.push(LobbyMember { user_id: owner, joined_at: now });
    Lobby { id, owner_user_id: owner, name: payload.name, status: LobbyStatus::Open, members }
}

/// Opens a lobby for a request, under a fresh random id and by the wall clock; a request
/// with a blank name is refused.
pub fn create_lobby(payload: CreateLobbyRequest) -> (r: Result<Lobby, AppError>)
    ensures
        r is Ok <==> trim_spec(payload.name@).len() != 0,
        r matches Err(e) ==> e@ == (AppErrorKind::BadRequest, "name is required"@),
        r matches Ok(lobby) ==> {
            &&& lobby.owner_user_id == payload.owner_user_id
            &&& lobby.name@ == payload.name@
            &&& lobby.status == LobbyStatus::Open
            &&& lobby.members@.len() == 1
            &&& lobby.members@[0].user_id == payload.owner_user_id
        },
{
    validate_create_lobby_request(&payload)?;
    let id = crate::clock::new_uuid();
    let now = crate::clock::current_unix_timestamp();
    Ok(new_lobby_at(payload, id, now))
}

/// The lobby that the store found, or `lobby not found`.
pub fn lobby_or_not_found(found: Option<Lobby>) -> (r: Result<Lobby, AppError>)
    ensures
        r is Ok <==> found is Some,
        r matches Ok(lobby) ==> found == Some(lobby),
        r matches Err(e) ==> e@ == (AppErrorKind::NotFound, "lobby not found"@),
{
    match found {
        Some(lobby) => Ok(lobby),
        None => Err(AppError::not_found("lobby not found")),
    }
}

/// A game session needs at least one player.
pub fn validate_players(players: &Vec<u128>) -> (r: Result<(), AppError>)
    ensures
        r is Ok <==> players@.len() > 0,
        r matches Err(e) ==> e@ == (
            AppErrorKind::BadRequest,
            "at least one player is required to create a game session"@,
        ),
{
    if players.len() == 0 {
        return Err(AppError::bad_request("at least one player is required to create a game session"));
    }
    Ok(())
}

/// The game session that `players` start under id `id` at time `now`: waiting for its start,
/// with the players in the given order, each joined at `now`.
pub fn new_game_session_at(players: &Vec<u128>, id: u128, now: u64) -> (session: GameSession)
    ensures
        session.id == id,
        session.status == GameSessionStatus::WaitingForStart,
        session.players@.len() == players@.len(),
        forall|k: int|
            0 <= k < players@.len() ==> #[trigger] session.players@[k].user_id == players@[k]
                && session.players@[k].joined_at == now,
{
    let mut joined: Vec<GameSessionPlayer> = Vec::new();
    let mut i: usize = 0;
    while i < players.len()
        invariant
            i <= players@.len(),
            joined@.len() == i,
            forall|k: int|
                0 <= k < i ==> #[trigger] joined@[k].user_id == players@[k] && joined@[k].joined_at
                    == now,
        decreases players.len() - i,
    {
        joined.push(GameSessionPlayer { user_id: players[i], joined_at: now });
        i = i + 1;
    }
    GameSession { id, status: GameSessionStatus::WaitingForStart, players: joined }
}

/// Starts a game session for `players`, under a fresh random id and by the wall clock; an
/// empty list of players is refused.
pub fn create_game_session(players: Vec<u128>) -> (r: Result<GameSession, AppError>)
    ensures
        r is Ok <==> players@.len() > 0,
        r matches Err(e) ==> e@ == (
            AppErrorKind::BadRequest,
            "at least one player is required to create a game session"@,
        ),
        r matches Ok(session) ==> {
            &&& session.status == GameSessionStatus::WaitingForStart
            &&& session.players@.len() == players@.len()
            &&& forall|k: int|
                0 <= k < players@.len() ==> #[trigger] session.players@[k].user_id == players@[k]
        },
{
    validate_players(&players)?;
    let id = crate::clock::new_uuid();
    let now = crate::clock::current_unix_timestamp();
    Ok(new_game_session_at(&players, id, now))
}

/// The game session that the store found, or `game session not found`.
pub fn game_session_or_not_found(found: Option<GameSession>) -> (r: Result<GameSession, AppError>)
    ensures
        r is Ok <==> found is Some,
        r matches Ok(session) ==> found == Some(session),
        r matches Err(e) ==> e@ == (AppErrorKind::NotFound, "game session not found"@),
{
    match found {
        Some(session) => Ok(session),
        None => Err(AppError::not_found("game session not found")),
    }
}

} // verus!
