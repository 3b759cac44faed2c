//! What the realtime service tells a connected user about their matches, and the errors of
//! its rooms.
use vstd::prelude::*;
use crate::events::{MatchConfirmedEvent, MatchDeclinedEvent, MatchFoundEvent, MatchTimedOutEvent};
use crate::text::concat;

verus! {

/// The query of a websocket connection request: the caller's access token.
#[derive(Debug)]
pub struct WebSocketConnectQuery {
    pub token: String,
}

/// An event pushed to a connected user.
#[derive(Debug)]
pub enum ServerEvent {
    Connected { user_id: u128, email: String },
    MatchFound {
        match_id: u128,
        rule_id: u128,
        ticket_key: String,
        player_ids: Vec<u128>,
        expires_at_unix_seconds: u64,
    },
    MatchConfirmed { match_id: u128, rule_id: u128, ticket_key: String, player_ids: Vec<u128> },
    MatchDeclined {
        match_id: u128,
        rule_id: u128,
        ticket_key: String,
        player_ids: Vec<u128>,
        declined_by: u128,
    },
    MatchTimedOut { match_id: u128, rule_id: u128, ticket_key: String, player_ids: Vec<u128> },
}

impl From<MatchFoundEvent> for ServerEvent {
    fn from(event: MatchFoundEvent) -> (r: ServerEvent)
        ensures
            r matches ServerEvent::MatchFound {
                match_id,
                rule_id,
                ticket_key,
                player_ids,
                expires_at_unix_seconds,
            } && match_id == event.match_id && rule_id == event.rule_id && ticket_key@
                == event.ticket_key@ && player_ids@ == event.player_ids@ && expires_at_unix_seconds
                == event.expires_at_unix_seconds,
    {
        ServerEvent::MatchFound {
            match_id: event.match_id,
            rule_id: event.rule_id,
            ticket_key: event.ticket_key,
            player_ids: event.player_ids,
            expires_at_unix_seconds: event.expires_at_unix_seconds,
        }
    }
}

impl vstd::std_specs::convert::FromSpecImpl<MatchFoundEvent> for ServerEvent {
    open spec fn obeys_from_spec() -> bool {
        true
    }

    open spec fn from_spec(event: MatchFoundEvent) -> ServerEvent {
        ServerEvent::MatchFound {
            match_id: event.match_id,
            rule_id: event.rule_id,
            ticket_key: event.ticket_key,
            player_ids: event.player_ids,
            expires_at_unix_seconds: event.expires_at_unix_seconds,
        }
    }
}

impl From<MatchConfirmedEvent> for ServerEvent {
    fn from(event: MatchConfirmedEvent) -> (r: ServerEvent)
        ensures
            r matches ServerEvent::MatchConfirmed { match_id, rule_id, ticket_key, player_ids }
                && match_id == event.match_id && rule_id == event.rule_id && ticket_key@
                == event.ticket_key@ && player_ids@ == event.player_ids@,
    {
        ServerEvent::MatchConfirmed {
            match_id: event.match_id,
            rule_id: event.rule_id,
            ticket_key: event.ticket_key,
            player_ids: event.player_ids,
        }
    }
}

impl vstd::std_specs::convert::FromSpecImpl<MatchConfirmedEvent> for ServerEvent {
    open spec fn obeys_from_spec() -> bool {
        true
    }

    open spec fn from_spec(event: MatchConfirmedEvent) -> ServerEvent {
        ServerEvent::MatchConfirmed {
            match_id: event.match_id,
            rule_id: event.rule_id,
            ticket_key: event.ticket_key,
            player_ids: event.player_ids,
        }
    }
}

impl From<MatchDeclinedEvent> for ServerEvent {
    fn from(event: MatchDeclinedEvent) -> (r: ServerEvent)
        ensures
            r matches ServerEvent::MatchDeclined {
                match_id,
                rule_id,
                ticket_key,
                player_ids,
                declined_by,
            } && match_id == event.match_id && rule_id == event.rule_id && ticket_key@
                == event.ticket_key@ && player_ids@ == event.player_ids@ && declined_by
                == event.declined_by,
    {
        ServerEvent::MatchDeclined {
            match_id: event.match_id,
            rule_id: event.rule_id,
            ticket_key: event.ticket_key,
            player_ids: event.player_ids,
            declined_by: event.declined_by,
        }
    }
}

impl vstd::std_specs::convert::FromSpecImpl<MatchDeclinedEvent> for ServerEvent {
    open spec fn obeys_from_spec() -> bool {
        true
    }

    open spec fn from_spec(event: MatchDeclinedEvent) -> ServerEvent {
        ServerEvent::MatchDeclined {
            match_id: event.match_id,
            rule_id: event.rule_id,
            ticket_key: event.ticket_key,
            player_ids: event.player_ids,
            declined_by: event.declined_by,
        }
    }
}

impl From<MatchTimedOutEvent> for ServerEvent {
    fn from(event: MatchTimedOutEvent) -> (r: ServerEvent)
        ensures
            r matches ServerEvent::MatchTimedOut { match_id, rule_id, ticket_key, player_ids }
                && match_id == event.match_id && rule_id == event.rule_id && ticket_key@
                == event.ticket_key@ && player_ids@ == event.player_ids@,
    {
        ServerEvent::MatchTimedOut {
            match_id: event.match_id,
            rule_id: event.rule_id,
            ticket_key: event.ticket_key,
            player_ids: event.player_ids,
        }
    }
}

impl vstd::std_specs::convert::FromSpecImpl<MatchTimedOutEvent> for ServerEvent {
    open spec fn obeys_from_spec() -> bool {
        true
    }

    open spec fn from_spec(event: MatchTimedOutEvent) -> ServerEvent {
        ServerEvent::MatchTimedOut {
            match_id: event.match_id,
            rule_id: event.rule_id,
            ticket_key: event.ticket_key,
            player_ids: event.player_ids,
        }
    }
}

/// The server event of a match event carries the event's own match, rule, queue and players
/// (and its deadline or its decliner), each in the field of the same name.
pub proof fn law_server_events_carry_event_fields(
    found: MatchFoundEvent,
    confirmed: MatchConfirmedEvent,
    declined: MatchDeclinedEvent,
    timed_out: MatchTimedOutEvent,
)
    ensures
        <ServerEvent as vstd::std_specs::convert::FromSpec<MatchFoundEvent>>::from_spec(found) matches ServerEvent::MatchFound {
            match_id,
            rule_id,
            ticket_key,
            player_ids,
            expires_at_unix_seconds,
        } && match_id == found.match_id && rule_id == found.rule_id && ticket_key@
            == found.ticket_key@ && player_ids@ == found.player_ids@ && expires_at_unix_seconds
            == found.expires_at_unix_seconds,
        <ServerEvent as vstd::std_specs::convert::FromSpec<MatchConfirmedEvent>>::from_spec(confirmed) matches ServerEvent::MatchConfirmed {
            match_id,
            rule_id,
            ticket_key,
            player_ids,
        } && match_id == confirmed.match_id && rule_id == confirmed.rule_id && ticket_key@
            == confirmed.ticket_key@ && player_ids@ == confirmed.player_ids@,
        <ServerEvent as vstd::std_specs::convert::FromSpec<MatchDeclinedEvent>>::from_spec(declined) matches ServerEvent::MatchDeclined {
            match_id,
            rule_id,
            ticket_key,
            player_ids,
            declined_by,
        } && match_id == declined.match_id && rule_id == declined.rule_id && ticket_key@
            == declined.ticket_key@ && player_ids@ == declined.player_ids@ && declined_by
            == declined.declined_by,
        <ServerEvent as vstd::std_specs::convert::FromSpec<MatchTimedOutEvent>>::from_spec(timed_out) matches ServerEvent::MatchTimedOut {
            match_id,
            rule_id,
            ticket_key,
            player_ids,
        } && match_id == timed_out.match_id && rule_id == timed_out.rule_id && ticket_key@
            == timed_out.ticket_key@ && player_ids@ == timed_out.player_ids@,
{
}

/// The errors of the websocket rooms.
#[derive(Debug)]
pub enum RoomError {
    RoomNotFound { room_id: String },
}

pub const ROOM_PREFIX: &'static str = "room ";

pub const NOT_FOUND_SUFFIX: &'static str = " not found";

impl RoomError {
    /// The text of the error: `room {room_id} not found`.
    pub fn to_string(&self) -> (r: String)
        ensures
            match self {
                RoomError::RoomNotFound { room_id } => r@ == ROOM_PREFIX@ + room_id@
                    + NOT_FOUND_SUFFIX@,
            },
    {
        match self {
            RoomError::RoomNotFound { room_id } => {
                let head = concat(ROOM_PREFIX, room_id.as_str());
                concat(head.as_str(), NOT_FOUND_SUFFIX)
            },
        }
    }
}

} // verus!
