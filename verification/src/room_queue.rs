//! The rooms service's own queue: tickets that wait for a game session, and the sessions
//! formed from the head of the queue.
use vstd::prelude::*;
use crate::error::{AppError, AppErrorKind};
use crate::events::copy_ids;
use crate::text::{concat, uuid_text, uuid_to_string};

verus! {

/// Where a ticket of the rooms queue stands.
#[derive(Debug, Clone, Copy, PartialEq, Eq, Structural)]
pub enum MatchmakingTicketStatus {
    Queued,
    Matched,
}

/// A ticket of the rooms queue: its owner, the players it brings, the game mode it waits
/// for, and the session it was matched into, if any.
#[derive(Debug)]
pub struct MatchmakingTicket {
    pub id: u128,
    pub owner_user_id: u128,
    pub player_ids: Vec<u128>,
    pub game_mode: String,
    pub status: MatchmakingTicketStatus,
    pub game_session_id: Option<u128>,
}

/// The content of a ticket of the rooms queue.
pub struct RoomTicketInfo {
    pub id: u128,
    pub owner_user_id: u128,
    pub player_ids: Seq<u128>,
    pub game_mode: Seq<char>,
    pub status: MatchmakingTicketStatus,
    pub game_session_id: Option<u128>,
}

impl View for MatchmakingTicket {
    type V = RoomTicketInfo;

    open spec fn view(&self) -> RoomTicketInfo {
        RoomTicketInfo {
            id: self.id,
            owner_user_id: self.owner_user_id,
            player_ids: self.player_ids@,
            game_mode: self.game_mode@,
            status: self.status,
            game_session_id: self.game_session_id,
        }
    }
}

pub const USER_TICKET_KEY_PREFIX: &'static str = "matchmaking:user:";

/// The store key that maps a user to their ticket of the rooms queue:
/// `matchmaking:user:{user_id}`.
pub fn user_ticket_key(user_id: u128) -> (r: String)
    ensures
        r@ == USER_TICKET_KEY_PREFIX@ + uuid_text(user_id),
{
    let id = uuid_to_string(user_id);
    concat(USER_TICKET_KEY_PREFIX, id.as_str())
}

/// Whether a user whose ticket is `existing` (if they have one) may queue: not while queued,
/// and not once matched.
pub fn decide_queue_join(existing: Option<&MatchmakingTicket>) -> (r: Result<(), AppError>)
    ensures
        r is Ok <==> existing is None,
        match existing {
            Some(t) => match t.status {
                MatchmakingTicketStatus::Queued => r matches Err(e) && e@ == (
                    AppErrorKind::Conflict,
                    "user is already in queue"@,
                ),
                MatchmakingTicketStatus::Matched => r matches Err(e) && e@ == (
                    AppErrorKind::Conflict,
                    "user is already assigned to a match"@,
                ),
            },
            None => true,
        },
{
    match existing {
        Some(ticket) => match ticket.status {
            MatchmakingTicketStatus::Queued => Err(AppError::conflict("user is already in queue")),
            MatchmakingTicketStatus::Matched => Err(
                AppError::conflict("user is already assigned to a match"),
            ),
        },
        None => Ok(()),
    }
}

/// A queued ticket for `user_id` alone, waiting for `game_mode`, under a fresh random id.
pub fn new_queue_ticket(user_id: u128, game_mode: &str) -> (t: MatchmakingTicket)
    ensures
        t.owner_user_id == user_id,
        t.player_ids@ == seq![user_id],
        t.game_mode@ == game_mode@,
        t.status == MatchmakingTicketStatus::Queued,
        t.game_session_id is None,
{
    let id = crate::clock::new_uuid();
    let mut player_ids: Vec<u128> = Vec::new();
    player_ids.push(user_id);
    MatchmakingTicket {
        id,
        owner_user_id: user_id,
        player_ids,
        game_mode: game_mode.to_string(),
        status: MatchmakingTicketStatus::Queued,
        game_session_id: None,
    }
}

/// The players of a list of tickets, ticket after ticket.
pub open spec fn flat_players(tickets: Seq<RoomTicketInfo>) -> Seq<u128>
    decreases tickets.len(),
{
    if tickets.len() == 0 {
        Seq::empty()
    } else {
        flat_players(tickets.drop_last()) + tickets.last().player_ids
    }
}

/// The contents of a list of tickets.
pub open spec fn room_ticket_infos(tickets: Seq<MatchmakingTicket>) -> Seq<RoomTicketInfo> {
    tickets.map_values(|t: MatchmakingTicket| t@)
}

/// The players of a session formed from the first `required` queued tickets: none when the
/// queue is shorter, or when those tickets do not bring exactly `required` players.
pub open spec fn session_players_spec(queued: Seq<RoomTicketInfo>, required: nat) -> Option<Seq<u128>> {
    if queued.len() < required {
        None
    } else if flat_players(queued.take(required as int)).len() != required {
        None
    } else {
        Some(flat_players(queued.take(required as int)))
    }
}

/// The players of the session that the head of the queue forms, if it forms one.
pub fn session_players(queued: &Vec<MatchmakingTicket>, required: usize) -> (r: Option<Vec<u128>>)
    ensures
        match (r, session_players_spec(room_ticket_infos(queued@), required as nat)) {
            (Some(players), Some(expected)) => players@ == expected,
            (None, None) => true,
            _ => false,
        },
{
    if queued.len() < required {
        return None;
    }
    let ghost q = room_ticket_infos(queued@);
    let mut players: Vec<u128> = Vec::new();
    let mut i: usize = 0;
    while i < required
        invariant
            q == room_ticket_infos(queued@),
            required <= queued@.len(),
            i <= required,
            players@ == flat_players(q.take(i as int)),
        decreases required - i,
    {
        let ghost before = players@;
        let ids = &queued[i].player_ids;
        let mut j: usize = 0;
        while j < ids.len()
            invariant
                j <= ids@.len(),
                players@ == before + ids@.take(j as int),
            decreases ids.len() - j,
        {
            players.push(ids[j]);
            proof {
                assert(players@ =~= before + ids@.take(j + 1));
            }
            j = j + 1;
        }
        proof {
            assert(ids@.take(ids@.len() as int) =~= ids@);
            assert(q.take(i + 1).drop_last() =~= q.take(i as int));
            assert(q.take(i + 1).last() == q[i as int]);
        }
        i = i + 1;
    }
    if players.len() != required {
        return None;
    }
    Some(players)
}

/// The ticket once matched into session `game_session_id`.
pub fn matched_ticket(ticket: &MatchmakingTicket, game_session_id: u128) -> (t: MatchmakingTicket)
    ensures
        t@ == (RoomTicketInfo {
            status: MatchmakingTicketStatus::Matched,
            game_session_id: Some(game_session_id),
            ..ticket@
        }),
{
    MatchmakingTicket {
        id: ticket.id,
        owner_user_id: ticket.owner_user_id,
        player_ids: copy_ids(&ticket.player_ids),
        game_mode: ticket.game_mode.clone(),
        status: MatchmakingTicketStatus::Matched,
        game_session_id: Some(game_session_id),
    }
}

/// Single-player tickets form a session exactly when at least `required` of them are
/// queued, and the session holds their players in queue order.
pub proof fn law_single_player_tickets_form_sessions(queued: Seq<RoomTicketInfo>, required: nat)
    requires
        forall|k: int| 0 <= k < queued.len() ==> (#[trigger] queued[k]).player_ids.len() == 1,
    ensures
        session_players_spec(queued, required) is Some <==> queued.len() >= required,
        queued.len() >= required ==> forall|k: int|
            0 <= k < required ==> #[trigger] session_players_spec(queued, required)->Some_0[k]
                == queued[k].player_ids[0],
{
    if queued.len() >= required {
        lemma_flat_single(queued.take(required as int));
    }
}

proof fn lemma_flat_single(tickets: Seq<RoomTicketInfo>)
    requires
        forall|k: int| 0 <= k < tickets.len() ==> (#[trigger] tickets[k]).player_ids.len() == 1,
    ensures
        flat_players(tickets).len() == tickets.len(),
        forall|k: int|
            0 <= k < tickets.len() ==> #[trigger] flat_players(tickets)[k]
                == tickets[k].player_ids[0],
    decreases tickets.len(),
{
    if tickets.len() > 0 {
        let init = tickets.drop_last();
        assert forall|k: int| 0 <= k < init.len() implies (#[trigger] init[k]).player_ids.len() == 1 by {
            assert(init[k] == tickets[k]);
        }
        lemma_flat_single(init);
        assert(tickets.last() == tickets[tickets.len() - 1]);
        assert forall|k: int| 0 <= k < tickets.len() implies #[trigger] flat_players(tickets)[k]
            == tickets[k].player_ids[0] by {
            if k < init.len() {
                assert(init[k] == tickets[k]);
            }
        }
    }
}

} // verus!
