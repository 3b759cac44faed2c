//! The events that the services publish about matches, and their subjects.
use vstd::prelude::*;

verus! {

pub const MATCH_FOUND_SUBJECT: &'static str = "events.matchmaking.match_found";

pub const MATCH_CONFIRMED_SUBJECT: &'static str = "events.matchmaking.match_confirmed";

pub const MATCH_DECLINED_SUBJECT: &'static str = "events.matchmaking.match_declined";

pub const MATCH_TIMED_OUT_SUBJECT: &'static str = "events.matchmaking.match_timed_out";

pub const MATCH_CHANNEL_READY_SUBJECT: &'static str = "events.realtime.match_channel_ready";

pub const USER_REGISTERED_SUBJECT: &'static str = "events.auth.user_registered";

pub const ACTIVE_USER_PROFILES_REQUEST_SUBJECT: &'static str = "requests.social.active_user_profiles";

/// The stream that holds every event, and the subjects it takes.
pub const EVENTS_STREAM: &'static str = "EVENTS";

pub const EVENTS_FILTER: &'static str = "events.>";

/// The stream that holds every command, and the subjects it takes.
pub const COMMANDS_STREAM: &'static str = "COMMANDS";

pub const COMMANDS_FILTER: &'static str = "commands.>";

/// A request for the profiles of the given users that are still active.
#[derive(Debug)]
pub struct ActiveUserProfilesRequest {
    pub user_ids: Vec<u128>,
}

/// The public profile of an active user.
#[derive(Debug)]
pub struct ActiveUserProfile {
    pub id: u128,
    pub first_name: String,
    pub last_name: String,
}

/// A copy of a list of ids.
pub fn copy_ids(v: &Vec<u128>) -> (r: Vec<u128>)
    ensures
        r@ == v@,
{
    let mut r: Vec<u128> = Vec::new();
    let mut i: usize = 0;
    while i < v.len()
        invariant
            i <= v.len(),
            r@ == v@.take(i as int),
        decreases v.len() - i,
    {
        r.push(v[i]);
        proof {
            assert(r@ =~= v@.take(i + 1));
        }
        i = i + 1;
    }
    proof {
        assert(r@ =~= v@);
    }
    r
}

/// A match was formed from queued players and waits for their confirmation.
#[derive(Debug)]
pub struct MatchFoundEvent {
    pub match_id: u128,
    pub rule_id: u128,
    pub ticket_key: String,
    pub player_ids: Vec<u128>,
    pub expires_at_unix_seconds: u64,
}

/// Every player of a pending match confirmed it.
#[derive(Debug)]
pub struct MatchConfirmedEvent {
    pub match_id: u128,
    pub rule_id: u128,
    pub ticket_key: String,
    pub player_ids: Vec<u128>,
}

/// The realtime channel of a confirmed match holds all its players.
#[derive(Debug)]
pub struct MatchChannelReadyEvent {
    pub match_id: u128,
    pub rule_id: u128,
    pub ticket_key: String,
    pub player_ids: Vec<u128>,
    pub channel: String,
}

/// A player declined a pending match.
#[derive(Debug)]
pub struct MatchDeclinedEvent {
    pub match_id: u128,
    pub rule_id: u128,
    pub ticket_key: String,
    pub player_ids: Vec<u128>,
    pub declined_by: u128,
}

/// A pending match expired before every player confirmed it.
#[derive(Debug)]
pub struct MatchTimedOutEvent {
    pub match_id: u128,
    pub rule_id: u128,
    pub ticket_key: String,
    pub player_ids: Vec<u128>,
}

/// The content of a match event: the match, its rule, its queue and its players.
pub struct MatchInfo {
    pub match_id: u128,
    pub rule_id: u128,
    pub ticket_key: Seq<char>,
    pub player_ids: Seq<u128>,
}

/// The content of a channel-ready event.
pub struct ReadyInfo {
    pub info: MatchInfo,
    pub channel: Seq<char>,
}

/// The content of a match-found event.
pub struct FoundInfo {
    pub info: MatchInfo,
    pub expires_at_unix_seconds: u64,
}

/// The content of a match-declined event.
pub struct DeclinedInfo {
    pub info: MatchInfo,
    pub declined_by: u128,
}

impl View for MatchFoundEvent {
    type V = FoundInfo;

    open spec fn view(&self) -> FoundInfo {
        FoundInfo {
            info: MatchInfo {
                match_id: self.match_id,
                rule_id: self.rule_id,
                ticket_key: self.ticket_key@,
                player_ids: self.player_ids@,
            },
            expires_at_unix_seconds: self.expires_at_unix_seconds,
        }
    }
}

impl View for MatchDeclinedEvent {
    type V = DeclinedInfo;

    open spec fn view(&self) -> DeclinedInfo {
        DeclinedInfo {
            info: MatchInfo {
                match_id: self.match_id,
                rule_id: self.rule_id,
                ticket_key: self.ticket_key@,
                player_ids: self.player_ids@,
            },
            declined_by: self.declined_by,
        }
    }
}

impl View for MatchConfirmedEvent {
    type V = MatchInfo;

    open spec fn view(&self) -> MatchInfo {
        MatchInfo {
            match_id: self.match_id,
            rule_id: self.rule_id,
            ticket_key: self.ticket_key@,
            player_ids: self.player_ids@,
        }
    }
}

impl View for MatchTimedOutEvent {
    type V = MatchInfo;

    open spec fn view(&self) -> MatchInfo {
        MatchInfo {
            match_id: self.match_id,
            rule_id: self.rule_id,
            ticket_key: self.ticket_key@,
            player_ids: self.player_ids@,
        }
    }
}

impl View for MatchChannelReadyEvent {
    type V = ReadyInfo;

    open spec fn view(&self) -> ReadyInfo {
        ReadyInfo {
            info: MatchInfo {
                match_id: self.match_id,
                rule_id: self.rule_id,
                ticket_key: self.ticket_key@,
                player_ids: self.player_ids@,
            },
            channel: self.channel@,
        }
    }
}

impl MatchChannelReadyEvent {
    /// A copy of the event.
    pub fn duplicate(&self) -> (r: MatchChannelReadyEvent)
        ensures
            r@ == self@,
    {
        MatchChannelReadyEvent {
            match_id: self.match_id,
            rule_id: self.rule_id,
            ticket_key: self.ticket_key.clone(),
            player_ids: copy_ids(&self.player_ids),
            channel: self.channel.clone(),
        }
    }
}

} // verus!
