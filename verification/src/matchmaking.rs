//! Matchmaking: queued tickets, pending matches waiting for confirmation, and the
//! decisions the matchmaking service takes on them.
use vstd::prelude::*;
use crate::error::AppError;
use crate::error::AppErrorKind;
use crate::events::{
    copy_ids, DeclinedInfo, FoundInfo, MatchConfirmedEvent, MatchDeclinedEvent, MatchFoundEvent,
    MatchInfo, MatchTimedOutEvent,
};
use crate::router::contains_id;
use crate::text::{concat, is_blank, trim, trim_spec, uuid_text, uuid_to_string};

verus! {

/// How long the players of a new pending match have to confirm it.
pub const PENDING_MATCH_TTL_SECONDS: u64 = 30;

/// How long a pending match outlives its deadline in the store.
pub const PENDING_MATCH_TTL_GRACE_SECONDS: u64 = 5;

pub const TICKET_KEY_PREFIX: &'static str = "matchmaking:tickets:";

pub const PLAYER_TICKET_KEY_PREFIX: &'static str = "matchmaking:player:";

pub const QUEUE_KEY_PREFIX: &'static str = "matchmaking:queues:";

pub const PENDING_MATCH_KEY_PREFIX: &'static str = "matchmaking:pending_matches:";

pub const PLAYER_PENDING_MATCH_KEY_PREFIX: &'static str = "matchmaking:pending_match_player:";

pub const ACTIVE_PENDING_MATCHES_KEY: &'static str = "matchmaking:pending_matches:active";

/// A player waiting in the queue of a ticket key.
#[derive(Debug)]
pub struct MatchmakingTicket {
    pub id: u128,
    pub player_id: u128,
    pub ticket_key: String,
}

/// A match formed from queued players, waiting until each of them confirms it.
#[derive(Debug)]
pub struct PendingMatch {
    pub id: u128,
    pub rule_id: u128,
    pub ticket_key: String,
    pub player_ids: Vec<u128>,
    pub confirmed_player_ids: Vec<u128>,
    pub expires_at_unix_seconds: u64,
}

/// How many players the queue of a ticket key needs to form a match.
#[derive(Debug)]
pub struct MatchmakingRule {
    pub id: u128,
    pub ticket_key: String,
    pub required_players: i32,
}

/// A player's request to queue under a ticket key.
#[derive(Debug)]
pub struct JoinMatchmakingRequest {
    pub ticket_key: String,
}

/// A request to create a matchmaking rule.
#[derive(Debug)]
pub struct CreateMatchmakingRuleRequest {
    pub ticket_key: String,
    pub required_players: i32,
}

/// A player's place in matchmaking: a queued ticket and a pending match, each if any.
#[derive(Debug)]
pub struct MatchmakingStatusResponse {
    pub ticket: Option<MatchmakingTicket>,
    pub pending_match: Option<PendingMatch>,
}

/// The content of a ticket.
pub struct TicketInfo {
    pub id: u128,
    pub player_id: u128,
    pub ticket_key: Seq<char>,
}

/// The content of a pending match.
pub struct PendingInfo {
    pub id: u128,
    pub rule_id: u128,
    pub ticket_key: Seq<char>,
    pub player_ids: Seq<u128>,
    pub confirmed_player_ids: Seq<u128>,
    pub expires_at_unix_seconds: u64,
}

impl View for MatchmakingTicket {
    type V = TicketInfo;

    open spec fn view(&self) -> TicketInfo {
        TicketInfo { id: self.id, player_id: self.player_id, ticket_key: self.ticket_key@ }
    }
}

impl View for PendingMatch {
    type V = PendingInfo;

    open spec fn view(&self) -> PendingInfo {
        PendingInfo {
            id: self.id,
            rule_id: self.rule_id,
            ticket_key: self.ticket_key@,
            player_ids: self.player_ids@,
            confirmed_player_ids: self.confirmed_player_ids@,
            expires_at_unix_seconds: self.expires_at_unix_seconds,
        }
    }
}

impl MatchmakingTicket {
    /// A copy of the ticket.
    pub fn duplicate(&self) -> (r: MatchmakingTicket)
        ensures
            r@ == self@,
    {
        MatchmakingTicket { id: self.id, player_id: self.player_id, ticket_key: self.ticket_key.clone() }
    }
}

impl PendingMatch {
    /// A copy of the pending match.
    pub fn duplicate(&self) -> (r: PendingMatch)
        ensures
            r@ == self@,
    {
        PendingMatch {
            id: self.id,
            rule_id: self.rule_id,
            ticket_key: self.ticket_key.clone(),
            player_ids: copy_ids(&self.player_ids),
            confirmed_player_ids: copy_ids(&self.confirmed_player_ids),
            expires_at_unix_seconds: self.expires_at_unix_seconds,
        }
    }
}

// ---------------------------------------------------------------------------
// Store keys
// ---------------------------------------------------------------------------

/// The store key of a ticket: `matchmaking:tickets:{ticket_id}`.
pub fn ticket_key(ticket_id: u128) -> (r: String)
    ensures
        r@ == TICKET_KEY_PREFIX@ + uuid_text(ticket_id),
{
    let id = uuid_to_string(ticket_id);
    concat(TICKET_KEY_PREFIX, id.as_str())
}

/// The store key that maps a player to their ticket: `matchmaking:player:{player_id}`.
pub fn player_ticket_key(player_id: u128) -> (r: String)
    ensures
        r@ == PLAYER_TICKET_KEY_PREFIX@ + uuid_text(player_id),
{
    let id = uuid_to_string(player_id);
    concat(PLAYER_TICKET_KEY_PREFIX, id.as_str())
}

/// The store key of the queue of a ticket key: `matchmaking:queues:{ticket_key}`.
pub fn queue_key(ticket_key_value: &str) -> (r: String)
    ensures
        r@ == QUEUE_KEY_PREFIX@ + ticket_key_value@,
{
    concat(QUEUE_KEY_PREFIX, ticket_key_value)
}

/// The store key of a pending match: `matchmaking:pending_matches:{match_id}`.
pub fn pending_match_key(match_id: u128) -> (r: String)
    ensures
        r@ == PENDING_MATCH_KEY_PREFIX@ + uuid_text(match_id),
{
    let id = uuid_to_string(match_id);
    concat(PENDING_MATCH_KEY_PREFIX, id.as_str())
}

/// The store key that maps a player to their pending match:
/// `matchmaking:pending_match_player:{player_id}`.
pub fn player_pending_match_key(player_id: u128) -> (r: String)
    ensures
        r@ == PLAYER_PENDING_MATCH_KEY_PREFIX@ + uuid_text(player_id),
{
    let id = uuid_to_string(player_id);
    concat(PLAYER_PENDING_MATCH_KEY_PREFIX, id.as_str())
}

/// The store key of the set of active pending match ids.
pub fn active_pending_matches_key() -> (r: String)
    ensures
        r@ == ACTIVE_PENDING_MATCHES_KEY@,
{
    ACTIVE_PENDING_MATCHES_KEY.to_string()
}

// ---------------------------------------------------------------------------
// Time
// ---------------------------------------------------------------------------

/// A pending match has expired at `now` when its deadline is not after `now`.
pub open spec fn expired_at(expires_at: u64, now: u64) -> bool {
    expires_at <= now
}

/// Whether the pending match has expired at time `now`.
pub fn is_expired_at(pending_match: &PendingMatch, now: u64) -> (r: bool)
    ensures
        r == expired_at(pending_match.expires_at_unix_seconds, now),
{
    pending_match.expires_at_unix_seconds <= now
}

/// Whether the pending match has expired now, by the wall clock. A match whose deadline is
/// the epoch has always expired.
pub fn is_expired(pending_match: &PendingMatch) -> (r: bool)
    ensures
        exists|now: u64| r == expired_at(pending_match.expires_at_unix_seconds, now),
        pending_match.expires_at_unix_seconds == 0 ==> r,
{
    let now = crate::clock::current_unix_timestamp();
    is_expired_at(pending_match, now)
}

/// The lifetime in the store of a pending match that expires at `expires_at`, seen at `now`:
/// the time left (none once past), plus the grace period, both saturating; 1 where that is 0;
/// read as a signed 64-bit number of seconds.
pub open spec fn pending_match_ttl(expires_at: u64, now: u64) -> i64 {
    let left: int = if expires_at >= now { expires_at - now } else { 0 };
    let ttl: int = if left + PENDING_MATCH_TTL_GRACE_SECONDS > u64::MAX {
        u64::MAX as int
    } else {
        left + PENDING_MATCH_TTL_GRACE_SECONDS
    };
    if ttl == 0 {
        1
    } else {
        (ttl as u64) as i64
    }
}

/// The store lifetime, in seconds, of a pending match seen at time `now`.
pub fn pending_match_ttl_seconds_at(pending_match: &PendingMatch, now: u64) -> (r: i64)
    ensures
        r == pending_match_ttl(pending_match.expires_at_unix_seconds, now),
{
    let ttl = pending_match.expires_at_unix_seconds.saturating_sub(now).saturating_add(
        PENDING_MATCH_TTL_GRACE_SECONDS,
    );
    if ttl == 0 {
        1
    } else {
        #[verifier::truncate]
        (ttl as i64)
    }
}

/// The store lifetime, in seconds, of a pending match, by the wall clock.
pub fn pending_match_ttl_seconds(pending_match: &PendingMatch) -> (r: i64)
    ensures
        exists|now: u64| r == pending_match_ttl(pending_match.expires_at_unix_seconds, now),
{
    let now = crate::clock::current_unix_timestamp();
    pending_match_ttl_seconds_at(pending_match, now)
}

/// A pending match lives in the store at least the grace period past its deadline, and
/// never less than one second, as long as its deadline is within the signed range.
pub proof fn law_pending_match_outlives_deadline(expires_at: u64, now: u64)
    requires
        expires_at <= i64::MAX - PENDING_MATCH_TTL_GRACE_SECONDS,
    ensures
        pending_match_ttl(expires_at, now) >= 1,
        now <= expires_at ==> now + pending_match_ttl(expires_at, now) == expires_at
            + PENDING_MATCH_TTL_GRACE_SECONDS,
        now > expires_at ==> pending_match_ttl(expires_at, now) == PENDING_MATCH_TTL_GRACE_SECONDS,
{
}

// ---------------------------------------------------------------------------
// Joining and leaving the queue
// ---------------------------------------------------------------------------

/// What the stores have answered so far while a player joins a queue: whether the ticket
/// key names an enabled rule, whether the player is in a pending match, whether the player
/// already has a queued ticket. Each is `None` until asked.
pub struct JoinProgress {
    pub rule_enabled: Option<bool>,
    pub in_pending_match: Option<bool>,
    pub already_queued: Option<bool>,
}

/// The next step of joining a queue.
pub enum JoinAction {
    /// Look up the enabled rule of the request's ticket key.
    FindEnabledRule,
    /// Look up the pending match of the player.
    FindPendingMatch,
    /// Look up the queued ticket of the player.
    FindQueuedTicket,
    /// Every check passed: create the player's ticket, store it and queue it.
    CreateTicket,
    /// The request is refused with this error.
    Refuse(AppError),
}

/// The content of a join step.
pub enum JoinStep {
    FindEnabledRule,
    FindPendingMatch,
    FindQueuedTicket,
    CreateTicket,
    Refuse((crate::error::AppErrorKind, Seq<char>)),
}

impl View for JoinAction {
    type V = JoinStep;

    open spec fn view(&self) -> JoinStep {
        match self {
            JoinAction::FindEnabledRule => JoinStep::FindEnabledRule,
            JoinAction::FindPendingMatch => JoinStep::FindPendingMatch,
            JoinAction::FindQueuedTicket => JoinStep::FindQueuedTicket,
            JoinAction::CreateTicket => JoinStep::CreateTicket,
            JoinAction::Refuse(e) => JoinStep::Refuse(e@),
        }
    }
}

/// The join step for a request whose ticket key is `ticket_key`, given the answers so far.
/// The checks come in a fixed order, and the first that fails decides the answer.
pub open spec fn join_step(
    ticket_key: Seq<char>,
    rule_enabled: Option<bool>,
    in_pending_match: Option<bool>,
    already_queued: Option<bool>,
) -> JoinStep {
    if trim_spec(ticket_key).len() == 0 {
        JoinStep::Refuse((AppErrorKind::BadRequest, "ticket_key is required"@))
    } else {
        match rule_enabled {
            None => JoinStep::FindEnabledRule,
            Some(false) => JoinStep::Refuse(
                (
                    AppErrorKind::BadRequest,
                    "ticket_key does not match an enabled rule"@,
                ),
            ),
            Some(true) => match in_pending_match {
                None => JoinStep::FindPendingMatch,
                Some(true) => JoinStep::Refuse(
                    (AppErrorKind::Conflict, "player is already in a pending match"@),
                ),
                Some(false) => match already_queued {
                    None => JoinStep::FindQueuedTicket,
                    Some(true) => JoinStep::Refuse(
                        (AppErrorKind::Conflict, "player is already in queue"@),
                    ),
                    Some(false) => JoinStep::CreateTicket,
                },
            },
        }
    }
}

/// The next step of joining the queue named in `payload`, given what the stores answered.
pub fn next_join_action(payload: &JoinMatchmakingRequest, progress: &JoinProgress) -> (a: JoinAction)
    ensures
        a@ == join_step(
            payload.ticket_key@,
            progress.rule_enabled,
            progress.in_pending_match,
            progress.already_queued,
        ),
{
    if is_blank(payload.ticket_key.as_str()) {
        return JoinAction::Refuse(AppError::bad_request("ticket_key is required"));
    }
    match progress.rule_enabled {
        None => JoinAction::FindEnabledRule,
        Some(false) => JoinAction::Refuse(
            AppError::bad_request("ticket_key does not match an enabled rule"),
        ),
        Some(true) => match progress.in_pending_match {
            None => JoinAction::FindPendingMatch,
            Some(true) => JoinAction::Refuse(
                AppError::conflict("player is already in a pending match"),
            ),
            Some(false) => match progress.already_queued {
                None => JoinAction::FindQueuedTicket,
                Some(true) => JoinAction::Refuse(AppError::conflict("player is already in queue")),
                Some(false) => JoinAction::CreateTicket,
            },
        },
    }
}

/// Once every store has answered, a player joins the queue exactly when the ticket key is
/// not blank, names an enabled rule, and the player is neither in a pending match nor
/// already queued; and no join step asks a store twice.
pub proof fn law_join_accepted_iff(
    ticket_key: Seq<char>,
    rule_enabled: bool,
    in_pending_match: bool,
    already_queued: bool,
)
    ensures
        (join_step(ticket_key, Some(rule_enabled), Some(in_pending_match), Some(already_queued))
            is CreateTicket) <==> (trim_spec(ticket_key).len() != 0 && rule_enabled
            && !in_pending_match && !already_queued),
        join_step(ticket_key, Some(rule_enabled), Some(in_pending_match), Some(already_queued))
            is CreateTicket || join_step(
            ticket_key,
            Some(rule_enabled),
            Some(in_pending_match),
            Some(already_queued),
        ) is Refuse,
{
}

/// A player in a pending match cannot queue again: the join is refused as a conflict,
/// whatever the queue would answer.
pub proof fn law_pending_match_blocks_join(ticket_key: Seq<char>, already_queued: Option<bool>)
    requires
        trim_spec(ticket_key).len() != 0,
    ensures
        join_step(ticket_key, Some(true), Some(true), already_queued) == JoinStep::Refuse(
            (AppErrorKind::Conflict, "player is already in a pending match"@),
        ),
{
}

/// A new ticket for `player_id` in the queue of `ticket_key`, under a fresh random id.
pub fn new_ticket(player_id: u128, ticket_key: &str) -> (t: MatchmakingTicket)
    ensures
        t.player_id == player_id,
        t.ticket_key@ == ticket_key@,
{
    let id = crate::clock::new_uuid();
    MatchmakingTicket { id, player_id, ticket_key: ticket_key.to_string() }
}

/// Whether a player may leave matchmaking: not while in a pending match.
pub fn decide_leave(in_pending_match: bool) -> (r: Result<(), AppError>)
    ensures
        r is Ok <==> !in_pending_match,
        r matches Err(e) ==> e@ == (
            AppErrorKind::Conflict,
            "player is already in a pending match and cannot leave matchmaking"@,
        ),
{
    if in_pending_match {
        Err(AppError::conflict("player is already in a pending match and cannot leave matchmaking"))
    } else {
        Ok(())
    }
}

/// The trimmed ticket key of a rule request, or why the request is refused.
pub open spec fn rule_request_outcome(ticket_key: Seq<char>, required_players: i32) -> Result<
    Seq<char>,
    (crate::error::AppErrorKind, Seq<char>),
> {
    if trim_spec(ticket_key).len() == 0 {
        Err((AppErrorKind::BadRequest, "ticket_key is required"@))
    } else if required_players < 2 {
        Err((AppErrorKind::BadRequest, "required_players must be at least 2"@))
    } else {
        Ok(trim_spec(ticket_key))
    }
}

/// Checks a rule request, and gives the ticket key to store the rule under (trimmed).
pub fn validate_rule_request(payload: &CreateMatchmakingRuleRequest) -> (r: Result<String, AppError>)
    ensures
        match (r, rule_request_outcome(payload.ticket_key@, payload.required_players)) {
            (Ok(k), Ok(expected)) => k@ == expected,
            (Err(e), Err(expected)) => e@ == expected,
            _ => false,
        },
{
    let ticket_key = trim(payload.ticket_key.as_str());
    if ticket_key.unicode_len() == 0 {
        return Err(AppError::bad_request("ticket_key is required"));
    }
    if payload.required_players < 2 {
        return Err(AppError::bad_request("required_players must be at least 2"));
    }
    Ok(ticket_key.to_string())
}

// ---------------------------------------------------------------------------
// Confirming and declining a pending match
// ---------------------------------------------------------------------------

/// The content of a pending match, if there is one.
pub open spec fn pending_view(o: Option<PendingMatch>) -> Option<PendingInfo> {
    match o {
        Some(p) => Some(p@),
        None => None,
    }
}

/// What the events about a pending match say of it.
pub open spec fn match_info(p: PendingInfo) -> MatchInfo {
    MatchInfo {
        match_id: p.id,
        rule_id: p.rule_id,
        ticket_key: p.ticket_key,
        player_ids: p.player_ids,
    }
}

/// The event that a pending match timed out.
pub fn timed_out_event(pending_match: &PendingMatch) -> (e: MatchTimedOutEvent)
    ensures
        e@ == match_info(pending_match@),
{
    MatchTimedOutEvent {
        match_id: pending_match.id,
        rule_id: pending_match.rule_id,
        ticket_key: pending_match.ticket_key.clone(),
        player_ids: copy_ids(&pending_match.player_ids),
    }
}

/// The confirmed players after `player` confirms: unchanged if already there, else appended.
pub open spec fn confirmed_after(confirmed: Seq<u128>, player: u128) -> Seq<u128> {
    if confirmed.contains(player) {
        confirmed
    } else {
        confirmed.push(player)
    }
}

/// The pending match with `player`'s confirmation recorded.
pub open spec fn with_confirmation(p: PendingInfo, player: u128) -> PendingInfo {
    PendingInfo {
        id: p.id,
        rule_id: p.rule_id,
        ticket_key: p.ticket_key,
        player_ids: p.player_ids,
        confirmed_player_ids: confirmed_after(p.confirmed_player_ids, player),
        expires_at_unix_seconds: p.expires_at_unix_seconds,
    }
}

/// What confirming a pending match leads to.
pub enum ConfirmDecision {
    /// The match has expired: publish this event, delete the match, answer with the error.
    TimeOut(MatchTimedOutEvent, AppError),
    /// The confirmation is refused and nothing changes.
    Refuse(AppError),
    /// Every player has confirmed: publish this event and delete this match.
    Complete(MatchConfirmedEvent, PendingMatch),
    /// Store the match with the confirmation recorded.
    Save(PendingMatch),
}

/// The content of a confirmation decision.
pub enum ConfirmOutcome {
    TimeOut(MatchInfo, (AppErrorKind, Seq<char>)),
    Refuse((AppErrorKind, Seq<char>)),
    Complete(MatchInfo, PendingInfo),
    Save(PendingInfo),
}

impl View for ConfirmDecision {
    type V = ConfirmOutcome;

    open spec fn view(&self) -> ConfirmOutcome {
        match self {
            ConfirmDecision::TimeOut(ev, e) => ConfirmOutcome::TimeOut(ev@, e@),
            ConfirmDecision::Refuse(e) => ConfirmOutcome::Refuse(e@),
            ConfirmDecision::Complete(ev, p) => ConfirmOutcome::Complete(ev@, p@),
            ConfirmDecision::Save(p) => ConfirmOutcome::Save(p@),
        }
    }
}

/// What `player` confirming `pending` (the stored match, if found) leads to at time `now`.
pub open spec fn confirm_outcome(pending: Option<PendingInfo>, player: u128, now: u64) -> ConfirmOutcome {
    match pending {
        None => ConfirmOutcome::Refuse((AppErrorKind::NotFound, "pending match was not found"@)),
        Some(p) => if expired_at(p.expires_at_unix_seconds, now) {
            ConfirmOutcome::TimeOut(
                match_info(p),
                (AppErrorKind::Conflict, "pending match has already timed out"@),
            )
        } else if !p.player_ids.contains(player) {
            ConfirmOutcome::Refuse(
                (AppErrorKind::Forbidden, "player is not part of this pending match"@),
            )
        } else if with_confirmation(p, player).confirmed_player_ids.len() == p.player_ids.len() {
            ConfirmOutcome::Complete(match_info(p), with_confirmation(p, player))
        } else {
            ConfirmOutcome::Save(with_confirmation(p, player))
        },
    }
}

/// Decides what `player_id` confirming the pending match `pending` (as found in the store)
/// leads to at time `now`.
pub fn decide_confirm_at(pending: Option<PendingMatch>, player_id: u128, now: u64) -> (d: ConfirmDecision)
    ensures
        d@ == confirm_outcome(pending_view(pending), player_id, now),
{
    match pending {
        None => ConfirmDecision::Refuse(AppError::not_found("pending match was not found")),
        Some(mut pending_match) => {
            if is_expired_at(&pending_match, now) {
                let event = timed_out_event(&pending_match);
                return ConfirmDecision::TimeOut(
                    event,
                    AppError::conflict("pending match has already timed out"),
                );
            }
            if !contains_id(&pending_match.player_ids, player_id) {
                return ConfirmDecision::Refuse(
                    AppError::forbidden("player is not part of this pending match"),
                );
            }
            if !contains_id(&pending_match.confirmed_player_ids, player_id) {
                pending_match.confirmed_player_ids.push(player_id);
            }
            if pending_match.confirmed_player_ids.len() == pending_match.player_ids.len() {
                let event = MatchConfirmedEvent {
                    match_id: pending_match.id,
                    rule_id: pending_match.rule_id,
                    ticket_key: pending_match.ticket_key.clone(),
                    player_ids: copy_ids(&pending_match.player_ids),
                };
                ConfirmDecision::Complete(event, pending_match)
            } else {
                ConfirmDecision::Save(pending_match)
            }
        },
    }
}

/// Decides what `player_id` confirming the pending match `pending` leads to, by the wall
/// clock.
pub fn decide_confirm(pending: Option<PendingMatch>, player_id: u128) -> (d: ConfirmDecision)
    ensures
        exists|now: u64| d@ == confirm_outcome(pending_view(pending), player_id, now),
{
    let now = crate::clock::current_unix_timestamp();
    decide_confirm_at(pending, player_id, now)
}

/// The content of a decline decision: the event to publish, or the refusal.
pub open spec fn decline_outcome(pending: Option<PendingInfo>, player: u128) -> Result<
    DeclinedInfo,
    (AppErrorKind, Seq<char>),
> {
    match pending {
        None => Err((AppErrorKind::NotFound, "pending match was not found"@)),
        Some(p) => if !p.player_ids.contains(player) {
            Err((AppErrorKind::Forbidden, "player is not part of this pending match"@))
        } else {
            Ok(DeclinedInfo { info: match_info(p), declined_by: player })
        },
    }
}

/// Decides what `player_id` declining the pending match `pending` leads to: the event to
/// publish before the match is deleted, with the match, or the refusal.
pub fn decide_decline(pending: Option<PendingMatch>, player_id: u128) -> (r: Result<
    (MatchDeclinedEvent, PendingMatch),
    AppError,
>)
    ensures
        match (r, decline_outcome(pending_view(pending), player_id)) {
            (Ok((ev, p)), Ok(expected)) => ev@ == expected && pending_view(pending) == Some(p@),
            (Err(e), Err(expected)) => e@ == expected,
            _ => false,
        },
{
    match pending {
        None => Err(AppError::not_found("pending match was not found")),
        Some(pending_match) => {
            if !contains_id(&pending_match.player_ids, player_id) {
                return Err(AppError::forbidden("player is not part of this pending match"));
            }
            let event = MatchDeclinedEvent {
                match_id: pending_match.id,
                rule_id: pending_match.rule_id,
                ticket_key: pending_match.ticket_key.clone(),
                player_ids: copy_ids(&pending_match.player_ids),
                declined_by: player_id,
            };
            Ok((event, pending_match))
        },
    }
}

/// A pending match is well formed when no player appears twice in it, and only its
/// players have confirmed it, each once.
pub open spec fn pending_wf(p: PendingInfo) -> bool {
    &&& p.player_ids.no_duplicates()
    &&& p.confirmed_player_ids.no_duplicates()
    &&& forall|x: u128| #[trigger] p.confirmed_player_ids.contains(x) ==> p.player_ids.contains(x)
}

proof fn lemma_confirmed_after_wf(p: PendingInfo, player: u128)
    requires
        pending_wf(p),
        p.player_ids.contains(player),
    ensures
        pending_wf(with_confirmation(p, player)),
        confirmed_after(p.confirmed_player_ids, player).contains(player),
        forall|x: u128|
            #[trigger] confirmed_after(p.confirmed_player_ids, player).contains(x) <==> (
            p.confirmed_player_ids.contains(x) || x == player),
{
    let c = p.confirmed_player_ids;
    if !c.contains(player) {
        let d = c.push(player);
        assert forall|i: int, j: int| 0 <= i < d.len() && 0 <= j < d.len() && i != j implies d[i]
            != d[j] by {
            if i < c.len() && j < c.len() {
            } else if i == c.len() {
                assert(c.contains(d[j]));
            } else {
                assert(c.contains(d[i]));
            }
        }
        assert forall|x: u128| d.contains(x) <==> (c.contains(x) || x == player) by {
            if d.contains(x) {
                let k = choose|k: int| 0 <= k < d.len() && d[k] == x;
                if k < c.len() {
                    assert(c[k] == x);
                }
            }
            if c.contains(x) {
                let k = choose|k: int| 0 <= k < c.len() && c[k] == x;
                assert(d[k] == x);
            }
            if x == player {
                assert(d[c.len() as int] == x);
            }
        }
    }
}

/// A set of distinct items that holds only members of another set of distinct items holds
/// all of them exactly when it is as long.
proof fn lemma_sub_seq_full_iff_len(a: Seq<u128>, b: Seq<u128>)
    requires
        a.no_duplicates(),
        b.no_duplicates(),
        forall|x: u128| #[trigger] a.contains(x) ==> b.contains(x),
    ensures
        a.len() == b.len() <==> (forall|x: u128| #[trigger] b.contains(x) ==> a.contains(x)),
{
    a.unique_seq_to_set();
    b.unique_seq_to_set();
    vstd::seq_lib::seq_to_set_is_finite(a);
    vstd::seq_lib::seq_to_set_is_finite(b);
    assert(a.to_set().subset_of(b.to_set()));
    if a.len() == b.len() {
        vstd::set_lib::lemma_subset_equality(a.to_set(), b.to_set());
        assert forall|x: u128| #[trigger] b.contains(x) implies a.contains(x) by {
            assert(b.to_set().contains(x));
        }
    }
    if forall|x: u128| #[trigger] b.contains(x) ==> a.contains(x) {
        assert(a.to_set() =~= b.to_set());
    }
}

/// Confirmations keep a pending match well formed; and a player of a live, well-formed
/// pending match completes it by confirming exactly when, with that confirmation, every
/// player of the match has confirmed.
pub proof fn law_confirmation_completes_when_all_confirmed(p: PendingInfo, player: u128, now: u64)
    requires
        pending_wf(p),
        p.player_ids.contains(player),
        !expired_at(p.expires_at_unix_seconds, now),
    ensures
        confirm_outcome(Some(p), player, now) is Complete || confirm_outcome(
            Some(p),
            player,
            now,
        ) is Save,
        (confirm_outcome(Some(p), player, now) is Complete) <==> (forall|x: u128| #[trigger]
            p.player_ids.contains(x) ==> (p.confirmed_player_ids.contains(x) || x == player)),
        match confirm_outcome(Some(p), player, now) {
            ConfirmOutcome::Complete(_, q) => pending_wf(q),
            ConfirmOutcome::Save(q) => pending_wf(q) && q.confirmed_player_ids.contains(player),
            _ => true,
        },
{
    lemma_confirmed_after_wf(p, player);
    let q = with_confirmation(p, player);
    lemma_sub_seq_full_iff_len(q.confirmed_player_ids, p.player_ids);
    if forall|x: u128| #[trigger]
        p.player_ids.contains(x) ==> (p.confirmed_player_ids.contains(x) || x == player) {
        assert forall|x: u128| #[trigger] p.player_ids.contains(x) implies q.confirmed_player_ids.contains(x) by {
        }
    }
    if forall|x: u128| #[trigger] p.player_ids.contains(x) ==> q.confirmed_player_ids.contains(x) {
        assert forall|x: u128| #[trigger] p.player_ids.contains(x) implies (p.confirmed_player_ids.contains(x) || x == player) by {
            assert(q.confirmed_player_ids.contains(x));
        }
    }
}

/// Confirming twice is confirming once: once a player's confirmation is stored, confirming
/// again stores the same match.
pub proof fn law_confirmation_is_idempotent(p: PendingInfo, player: u128, now: u64)
    requires
        confirm_outcome(Some(p), player, now) is Save,
    ensures
        ({
            let q = confirm_outcome(Some(p), player, now)->Save_0;
            confirm_outcome(Some(q), player, now) == ConfirmOutcome::Save(q)
        }),
{
    let q = with_confirmation(p, player);
    if !p.confirmed_player_ids.contains(player) {
        assert(q.confirmed_player_ids[p.confirmed_player_ids.len() as int] == player);
    }
    assert(q.confirmed_player_ids.contains(player));
    assert(with_confirmation(q, player) =~= q);
}

/// An expired pending match times out whoever confirms it, and nobody outside a live
/// pending match can confirm or decline it.
pub proof fn law_expired_or_foreign_confirmations_change_nothing(p: PendingInfo, player: u128, now: u64)
    ensures
        expired_at(p.expires_at_unix_seconds, now) ==> confirm_outcome(Some(p), player, now)
            == ConfirmOutcome::TimeOut(
            match_info(p),
            (AppErrorKind::Conflict, "pending match has already timed out"@),
        ),
        !p.player_ids.contains(player) ==> decline_outcome(Some(p), player) is Err,
        !expired_at(p.expires_at_unix_seconds, now) && !p.player_ids.contains(player)
            ==> confirm_outcome(Some(p), player, now) is Refuse,
{
}

// ---------------------------------------------------------------------------
// Forming matches from the queues, and expiring them
// ---------------------------------------------------------------------------

/// How many players a stored rule asks for, or why the stored value is unusable.
pub open spec fn required_players_outcome(required_players: i32) -> Result<
    nat,
    (AppErrorKind, Seq<char>),
> {
    if required_players < 0 {
        Err((AppErrorKind::Internal, "stored rule required_players is invalid"@))
    } else if required_players < 2 {
        Err((AppErrorKind::Internal, "stored rule required_players must be at least 2"@))
    } else {
        Ok(required_players as nat)
    }
}

/// Every rule that a rule request may create can form matches: a stored player count is
/// usable exactly when it is at least two, and then it is the count itself.
pub proof fn law_accepted_rules_are_usable(ticket_key: Seq<char>, required_players: i32)
    ensures
        required_players_outcome(required_players) is Ok <==> required_players >= 2,
        required_players >= 2 ==> required_players_outcome(required_players) == Ok::<
            nat,
            (AppErrorKind, Seq<char>),
        >(required_players as nat),
        rule_request_outcome(ticket_key, required_players) is Ok ==> required_players_outcome(
            required_players,
        ) == Ok::<nat, (AppErrorKind, Seq<char>)>(required_players as nat),
{
}

/// How many players the stored rule asks for.
pub fn required_players_of(rule: &MatchmakingRule) -> (r: Result<usize, AppError>)
    ensures
        match (r, required_players_outcome(rule.required_players)) {
            (Ok(n), Ok(expected)) => n == expected,
            (Err(e), Err(expected)) => e@ == expected,
            _ => false,
        },
{
    if rule.required_players < 0 {
        return Err(AppError::internal("stored rule required_players is invalid"));
    }
    if rule.required_players < 2 {
        return Err(AppError::internal("stored rule required_players must be at least 2"));
    }
    Ok(rule.required_players as usize)
}

/// The deadline of a pending match formed at `now`: the time-to-confirm later, wrapping
/// around the 64-bit range.
pub open spec fn deadline_from(now: u64) -> u64 {
    vstd::wrapping::u64_specs::wrapping_add(now, PENDING_MATCH_TTL_SECONDS)
}

/// The contents of a list of tickets.
pub open spec fn ticket_infos(tickets: Seq<MatchmakingTicket>) -> Seq<TicketInfo> {
    tickets.map_values(|t: MatchmakingTicket| t@)
}

/// The players holding a list of tickets, in order.
pub open spec fn players_of(tickets: Seq<TicketInfo>) -> Seq<u128> {
    tickets.map_values(|t: TicketInfo| t.player_id)
}

/// A match formed from the head of a queue: the pending match to store, the event to
/// publish, and the tickets that leave the queue.
#[derive(Debug)]
pub struct MatchPlan {
    pub pending_match: PendingMatch,
    pub event: MatchFoundEvent,
    pub matched_tickets: Vec<MatchmakingTicket>,
}

/// The content of a match plan.
pub struct PlanInfo {
    pub pending_match: PendingInfo,
    pub event: FoundInfo,
    pub matched_tickets: Seq<TicketInfo>,
}

impl View for MatchPlan {
    type V = PlanInfo;

    open spec fn view(&self) -> PlanInfo {
        PlanInfo {
            pending_match: self.pending_match@,
            event: self.event@,
            matched_tickets: ticket_infos(self.matched_tickets@),
        }
    }
}

/// The match that `rule` forms, under id `match_id` at time `now`, from the head of its
/// queue, when the queue holds at least `required` tickets.
pub open spec fn match_plan(
    rule_id: u128,
    rule_ticket_key: Seq<char>,
    queued: Seq<TicketInfo>,
    required: nat,
    match_id: u128,
    now: u64,
) -> Option<PlanInfo> {
    if queued.len() < required {
        None
    } else {
        let matched = queued.take(required as int);
        let players = players_of(matched);
        Some(
            PlanInfo {
                pending_match: PendingInfo {
                    id: match_id,
                    rule_id: rule_id,
                    ticket_key: rule_ticket_key,
                    player_ids: players,
                    confirmed_player_ids: Seq::empty(),
                    expires_at_unix_seconds: deadline_from(now),
                },
                event: FoundInfo {
                    info: MatchInfo {
                        match_id: match_id,
                        rule_id: rule_id,
                        ticket_key: rule_ticket_key,
                        player_ids: players,
                    },
                    expires_at_unix_seconds: deadline_from(now),
                },
                matched_tickets: matched,
            },
        )
    }
}

/// The view of an optional plan.
pub open spec fn plan_view(o: Option<MatchPlan>) -> Option<PlanInfo> {
    match o {
        Some(p) => Some(p@),
        None => None,
    }
}

/// Forms a match for `rule` under id `match_id` at time `now` from the tickets at the head
/// of its queue, if there are at least `required` of them.
pub fn plan_match_at(
    rule: &MatchmakingRule,
    queued: &Vec<MatchmakingTicket>,
    required: usize,
    match_id: u128,
    now: u64,
) -> (r: Option<MatchPlan>)
    ensures
        plan_view(r) == match_plan(
            rule.id,
            rule.ticket_key@,
            ticket_infos(queued@),
            required as nat,
            match_id,
            now,
        ),
{
    if queued.len() < required {
        return None;
    }
    let mut matched: Vec<MatchmakingTicket> = Vec::new();
    let mut players: Vec<u128> = Vec::new();
    let ghost q = ticket_infos(queued@);
    let mut i: usize = 0;
    while i < required
        invariant
            required <= queued.len(),
            q == ticket_infos(queued@),
            i <= required,
            ticket_infos(matched@) == q.take(i as int),
            players@ == players_of(q.take(i as int)),
        decreases required - i,
    {
        let t = queued[i].duplicate();
        let player = t.player_id;
        matched.push(t);
        players.push(player);
        proof {
            assert(ticket_infos(matched@) =~= q.take(i + 1));
            assert(players@ =~= players_of(q.take(i + 1)));
        }
        i = i + 1;
    }
    let expires_at = now.wrapping_add(PENDING_MATCH_TTL_SECONDS);
    let pending_match = PendingMatch {
        id: match_id,
        rule_id: rule.id,
        ticket_key: rule.ticket_key.clone(),
        player_ids: copy_ids(&players),
        confirmed_player_ids: Vec::new(),
        expires_at_unix_seconds: expires_at,
    };
    let event = MatchFoundEvent {
        match_id,
        rule_id: rule.id,
        ticket_key: rule.ticket_key.clone(),
        player_ids: players,
        expires_at_unix_seconds: expires_at,
    };
    let r = MatchPlan { pending_match, event, matched_tickets: matched };
    proof {
        assert(r@.pending_match.confirmed_player_ids =~= Seq::<u128>::empty());
    }
    Some(r)
}

/// Forms a match for `rule` from the head of its queue, under a fresh random id and by the
/// wall clock, if the queue holds at least `required` tickets.
pub fn plan_match(rule: &MatchmakingRule, queued: &Vec<MatchmakingTicket>, required: usize) -> (r: Option<MatchPlan>)
    ensures
        exists|match_id: u128, now: u64|
            plan_view(r) == match_plan(
                rule.id,
                rule.ticket_key@,
                ticket_infos(queued@),
                required as nat,
                match_id,
                now,
            ),
{
    if queued.len() < required {
        let r = None;
        assert(plan_view(r) == match_plan(rule.id, rule.ticket_key@, ticket_infos(queued@), required as nat, 0, 0));
        return r;
    }
    let match_id = crate::clock::new_uuid();
    let now = crate::clock::current_unix_timestamp();
    plan_match_at(rule, queued, required, match_id, now)
}

/// A formed match holds the players of the first tickets of the queue, as many as the rule
/// asks for, in queue order; nobody has confirmed it yet; and its event names the same
/// match, players and deadline.
pub proof fn law_match_takes_queue_head(
    rule_id: u128,
    rule_ticket_key: Seq<char>,
    queued: Seq<TicketInfo>,
    required: nat,
    match_id: u128,
    now: u64,
)
    requires
        queued.len() >= required,
    ensures
        ({
            let plan = match_plan(rule_id, rule_ticket_key, queued, required, match_id, now)->Some_0;
            &&& plan.pending_match.player_ids.len() == required
            &&& forall|k: int|
                0 <= k < required ==> #[trigger] plan.pending_match.player_ids[k]
                    == queued[k].player_id
            &&& plan.matched_tickets == queued.take(required as int)
            &&& plan.pending_match.confirmed_player_ids.len() == 0
            &&& plan.event.info == match_info(plan.pending_match)
            &&& plan.event.expires_at_unix_seconds == plan.pending_match.expires_at_unix_seconds
        }),
{
}

/// A match formed from tickets of distinct players is well formed, so the confirmation laws
/// apply to it: it completes once each of its players has confirmed it.
pub proof fn law_formed_match_is_well_formed(
    rule_id: u128,
    rule_ticket_key: Seq<char>,
    queued: Seq<TicketInfo>,
    required: nat,
    match_id: u128,
    now: u64,
)
    requires
        queued.len() >= required,
        players_of(queued.take(required as int)).no_duplicates(),
    ensures
        pending_wf(
            match_plan(rule_id, rule_ticket_key, queued, required, match_id, now)->Some_0.pending_match,
        ),
{
}

/// The events of the pending matches that have expired at `now`, in order.
pub open spec fn expired_events(pending: Seq<PendingInfo>, now: u64) -> Seq<MatchInfo>
    decreases pending.len(),
{
    if pending.len() == 0 {
        Seq::empty()
    } else {
        let rest = expired_events(pending.drop_last(), now);
        if expired_at(pending.last().expires_at_unix_seconds, now) {
            rest.push(match_info(pending.last()))
        } else {
            rest
        }
    }
}

/// The contents of a list of pending matches.
pub open spec fn pending_infos(pending: Seq<PendingMatch>) -> Seq<PendingInfo> {
    pending.map_values(|p: PendingMatch| p@)
}

/// The contents of a list of time-out events.
pub open spec fn timed_out_infos(events: Seq<MatchTimedOutEvent>) -> Seq<MatchInfo> {
    events.map_values(|e: MatchTimedOutEvent| e@)
}

/// The time-out events of the pending matches that have expired at `now`, in order.
pub fn expired_match_events_at(pending: &Vec<PendingMatch>, now: u64) -> (r: Vec<MatchTimedOutEvent>)
    ensures
        timed_out_infos(r@) == expired_events(pending_infos(pending@), now),
{
    let mut r: Vec<MatchTimedOutEvent> = Vec::new();
    let ghost ps = pending_infos(pending@);
    let mut i: usize = 0;
    while i < pending.len()
        invariant
            ps == pending_infos(pending@),
            i <= pending.len(),
            timed_out_infos(r@) == expired_events(ps.take(i as int), now),
        decreases pending.len() - i,
    {
        proof {
            assert(ps.take(i + 1).drop_last() =~= ps.take(i as int));
        }
        if is_expired_at(&pending[i], now) {
            let event = timed_out_event(&pending[i]);
            r.push(event);
            proof {
                assert(timed_out_infos(r@) =~= expired_events(ps.take(i as int), now).push(event@));
            }
        }
        i = i + 1;
    }
    proof {
        assert(ps.take(pending.len() as int) =~= ps);
    }
    r
}

/// The time-out events of the pending matches that have expired, by the wall clock.
pub fn expired_match_events(pending: &Vec<PendingMatch>) -> (r: Vec<MatchTimedOutEvent>)
    ensures
        exists|now: u64| timed_out_infos(r@) == expired_events(pending_infos(pending@), now),
{
    let now = crate::clock::current_unix_timestamp();
    expired_match_events_at(pending, now)
}

/// Exactly the expired pending matches time out: a match has a time-out event at `now`
/// exactly when its deadline has passed.
pub proof fn law_exactly_expired_matches_time_out(pending: Seq<PendingInfo>, now: u64)
    ensures
        forall|m: MatchInfo|
            #[trigger] expired_events(pending, now).contains(m) <==> exists|k: int|
                0 <= k < pending.len() && expired_at(pending[k].expires_at_unix_seconds, now)
                    && m == match_info(#[trigger] pending[k]),
    decreases pending.len(),
{
    if pending.len() > 0 {
        let init = pending.drop_last();
        law_exactly_expired_matches_time_out(init, now);
        let rest = expired_events(init, now);
        assert forall|m: MatchInfo|
            #[trigger] expired_events(pending, now).contains(m) <==> exists|k: int|
                0 <= k < pending.len() && expired_at(pending[k].expires_at_unix_seconds, now)
                    && m == match_info(#[trigger] pending[k]) by {
            let last = pending.last();
            if expired_events(pending, now).contains(m) {
                if expired_at(last.expires_at_unix_seconds, now) && m == match_info(last) {
                    assert(pending[pending.len() - 1] == last);
                } else {
                    if expired_at(last.expires_at_unix_seconds, now) {
                        let j = choose|j: int| 0 <= j < rest.push(match_info(last)).len() && rest.push(match_info(last))[j] == m;
                        assert(j < rest.len());
                        assert(rest[j] == m);
                    }
                    assert(rest.contains(m));
                    let k = choose|k: int|
                        0 <= k < init.len() && expired_at(init[k].expires_at_unix_seconds, now) && m
                            == match_info(#[trigger] init[k]);
                    assert(pending[k] == init[k]);
                }
            }
            if exists|k: int|
                0 <= k < pending.len() && expired_at(pending[k].expires_at_unix_seconds, now) && m
                    == match_info(#[trigger] pending[k]) {
                let k = choose|k: int|
                    0 <= k < pending.len() && expired_at(pending[k].expires_at_unix_seconds, now)
                        && m == match_info(#[trigger] pending[k]);
                if k == pending.len() - 1 {
                    let e = rest.push(match_info(last));
                    assert(e[rest.len() as int] == m);
                } else {
                    assert(init[k] == pending[k]);
                    assert(rest.contains(m));
                    if expired_at(last.expires_at_unix_seconds, now) {
                        let j = choose|j: int| 0 <= j < rest.len() && rest[j] == m;
                        assert(rest.push(match_info(last))[j] == m);
                    }
                }
            }
        }
    }
}

// ---------------------------------------------------------------------------
// The rule repository's answers
// ---------------------------------------------------------------------------

/// The error of a failed rule insert: a taken ticket key is a conflict, anything else an
/// internal failure.
pub fn rule_creation_error(unique_violation: bool) -> (e: AppError)
    ensures
        unique_violation ==> e@ == (AppErrorKind::Conflict, "ticket_key already exists"@),
        !unique_violation ==> e@ == (AppErrorKind::Internal, "database operation failed"@),
{
    if unique_violation {
        AppError::conflict("ticket_key already exists")
    } else {
        AppError::internal("database operation failed")
    }
}

/// An update of a rule's `enabled` flag that touched no row names no rule.
pub fn check_rule_updated(rows_affected: u64) -> (r: Result<(), AppError>)
    ensures
        r is Ok <==> rows_affected != 0,
        r matches Err(e) ==> e@ == (AppErrorKind::NotFound, "matchmaking rule not found"@),
{
    if rows_affected == 0 {
        return Err(AppError::not_found("matchmaking rule not found"));
    }
    Ok(())
}

/// A match formed at `now` is live at `now` and stays so for the whole time-to-confirm, as
/// long as the deadline does not wrap past the end of the 64-bit range.
pub proof fn law_new_match_is_live(now: u64, later: u64)
    requires
        now <= u64::MAX - PENDING_MATCH_TTL_SECONDS,
        now <= later < now + PENDING_MATCH_TTL_SECONDS,
    ensures
        deadline_from(now) == now + PENDING_MATCH_TTL_SECONDS,
        !expired_at(deadline_from(now), later),
        expired_at(deadline_from(now), (now + PENDING_MATCH_TTL_SECONDS) as u64),
{
}

} // verus!
