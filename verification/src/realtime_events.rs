//! The matchmaking events that the realtime service reads.
use crate::events::MATCH_CONFIRMED_SUBJECT;
use crate::text::owned;
use vstd::prelude::*;

verus! {

/// The durable consumer that reads matchmaking events.
pub const EVENTS_CONSUMER: &'static str = "realtime-service-matchmaking";

/// The name of the matchmaking events consumer.
pub fn consumer_name() -> (r: &'static str)
    ensures
        r@ == EVENTS_CONSUMER@,
{
    EVENTS_CONSUMER
}

/// Whether an event of `subject` is one the realtime service acts on (a confirmed match);
/// the others are acknowledged and ignored.
pub fn is_match_confirmed(subject: &str) -> (r: bool)
    ensures
        r == (subject@ == MATCH_CONFIRMED_SUBJECT@),
{
    owned(subject) == owned(MATCH_CONFIRMED_SUBJECT)
}

} // verus!
