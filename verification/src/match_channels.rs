//! Match channels: when a match is confirmed, its players are gathered in a channel of their
//! own. Players without a realtime connection are waited for; the channel is announced as
//! ready once every player has joined it.
use crate::events::{copy_ids, MatchChannelReadyEvent, MatchConfirmedEvent, MatchInfo, ReadyInfo};
use crate::router::{
    contains_id, lemma_push_set, ConnectionId, MessageRouter, MessagingError, RouterState, RoutingFailure,
};
use crate::text::{concat, uuid_text, uuid_to_string};
use vstd::prelude::*;

verus! {

/// The prefix of the name of a match channel; the match id follows it.
pub const MATCH_CHANNEL_PREFIX: &'static str = "match:";

/// The name of the channel of a match.
pub open spec fn match_channel_name(match_id: u128) -> Seq<char> {
    MATCH_CHANNEL_PREFIX@ + uuid_text(match_id)
}

/// A match channel that still waits for some of its players.
pub struct PendingMatchChannel {
    ready_event: MatchChannelReadyEvent,
    joined_player_ids: Vec<ConnectionId>,
}

/// The content of a waiting match channel: the event to announce and who has joined.
pub struct PendingInfo {
    pub ready: ReadyInfo,
    pub joined: Set<ConnectionId>,
}

impl View for PendingMatchChannel {
    type V = PendingInfo;

    closed spec fn view(&self) -> PendingInfo {
        PendingInfo { ready: self.ready_event@, joined: self.joined_player_ids@.to_set() }
    }
}

impl PendingMatchChannel {
    closed spec fn wf(&self) -> bool {
        self.joined_player_ids@.no_duplicates()
    }

    fn duplicate(&self) -> (r: PendingMatchChannel)
        ensures
            r@ == self@,
            r.joined_player_ids@ == self.joined_player_ids@,
    {
        PendingMatchChannel {
            ready_event: self.ready_event.duplicate(),
            joined_player_ids: copy_ids(&self.joined_player_ids),
        }
    }
}

/// The match channels that wait for players, in the order they were created.
pub struct MatchChannelRegistry {
    pending_match_channels: Vec<PendingMatchChannel>,
}

impl View for MatchChannelRegistry {
    type V = Seq<PendingInfo>;

    closed spec fn view(&self) -> Seq<PendingInfo> {
        self.pending_match_channels@.map_values(|e: PendingMatchChannel| e@)
    }
}

/// The players of `players` that have a connection.
pub open spec fn connected_players(players: Seq<u128>, router: RouterState) -> Set<u128> {
    players.to_set().filter(|p: u128| router.connections.contains(p))
}

/// `router` with each of `players` made a member of `channel`.
pub open spec fn with_members(router: RouterState, channel: Seq<char>, players: Set<u128>) -> RouterState {
    RouterState {
        memberships: router.memberships.union(
            Set::new(|m: (Seq<char>, ConnectionId)| m.0 == channel && players.contains(m.1)),
        ),
        ..router
    }
}

/// Whether an entry is already kept for the match `match_id`.
pub open spec fn has_match(entries: Seq<PendingInfo>, match_id: u128) -> bool {
    exists|i: int| 0 <= i < entries.len() && #[trigger] entries[i].ready.info.match_id == match_id
}

/// `entries` with `e` replacing the entry of the same match, or added at the end.
pub open spec fn upsert(entries: Seq<PendingInfo>, e: PendingInfo) -> Seq<PendingInfo> {
    if has_match(entries, e.ready.info.match_id) {
        let i = choose|i: int|
            0 <= i < entries.len() && #[trigger] entries[i].ready.info.match_id
                == e.ready.info.match_id;
        entries.update(i, e)
    } else {
        entries.push(e)
    }
}

/// Creating the channel of a confirmed match: the new entries, the new router, and the
/// ready event when every player could join at once.
pub open spec fn create_match_channel_spec(
    entries: Seq<PendingInfo>,
    router: RouterState,
    event: MatchInfo,
) -> (Seq<PendingInfo>, RouterState, Option<ReadyInfo>) {
    let channel = match_channel_name(event.match_id);
    let joined = connected_players(event.player_ids, router);
    let after = with_members(router.create_channel(channel), channel, joined);
    let ready = ReadyInfo { info: event, channel };
    if joined.len() == event.player_ids.len() {
        (entries, after, Some(ready))
    } else {
        (upsert(entries, PendingInfo { ready, joined }), after, None)
    }
}

/// Whether the player takes part in the match of the entry.
pub open spec fn involves(e: PendingInfo, player: u128) -> bool {
    e.ready.info.player_ids.contains(player)
}

/// The entry after the player joined its channel.
pub open spec fn joined_entry(e: PendingInfo, player: u128) -> PendingInfo {
    if involves(e, player) {
        PendingInfo { joined: e.joined.insert(player), ..e }
    } else {
        e
    }
}

/// Whether the player's joining completes the entry.
pub open spec fn completed_by(e: PendingInfo, player: u128) -> bool {
    involves(e, player) && e.joined.insert(player).len() == e.ready.info.player_ids.len()
}

/// Whether the entry's channel is gone although the player takes part in it.
pub open spec fn blocked(e: PendingInfo, player: u128, router: RouterState) -> bool {
    involves(e, player) && !router.channels.contains(e.ready.channel)
}

/// The memberships of the player in the channels of the entries it takes part in.
pub open spec fn player_memberships(entries: Seq<PendingInfo>, player: u128) -> Set<
    (Seq<char>, ConnectionId),
> {
    Set::new(
        |m: (Seq<char>, ConnectionId)|
            m.1 == player && exists|j: int|
                0 <= j < entries.len() && involves(entries[j], player) && #[trigger] entries[j].ready.channel
                    == m.0,
    )
}

/// The first entry whose channel is gone although the player takes part in it.
pub open spec fn first_blocked(entries: Seq<PendingInfo>, player: u128, router: RouterState) -> int {
    choose|k: int|
        0 <= k < entries.len() && blocked(entries[k], player, router) && forall|j: int|
            0 <= j < k ==> !blocked(#[trigger] entries[j], player, router)
}

/// A newly connected player joins the channels of the matches that wait for it: the new
/// entries, the new router, and the ready events of the matches it completes (or the
/// failure of the first join that could not be made).
pub open spec fn join_pending_spec(entries: Seq<PendingInfo>, router: RouterState, player: u128) -> (
    Seq<PendingInfo>,
    RouterState,
    Result<Seq<ReadyInfo>, RoutingFailure>,
) {
    if !router.connections.contains(player) {
        (entries, router, Ok(Seq::empty()))
    } else if exists|k: int| 0 <= k < entries.len() && blocked(entries[k], player, router) {
        let k = first_blocked(entries, player, router);
        (
            entries.take(k).map_values(|e: PendingInfo| joined_entry(e, player)) + entries.skip(k),
            RouterState {
                memberships: router.memberships.union(player_memberships(entries.take(k), player)),
                ..router
            },
            Err(RoutingFailure::ChannelNotFound(entries[k].ready.channel)),
        )
    } else {
        (
            entries.filter(|e: PendingInfo| !completed_by(e, player)).map_values(
                |e: PendingInfo| joined_entry(e, player),
            ),
            RouterState {
                memberships: router.memberships.union(player_memberships(entries, player)),
                ..router
            },
            Ok(entries.filter(|e: PendingInfo| completed_by(e, player)).map_values(|e: PendingInfo| e.ready)),
        )
    }
}

impl MatchChannelRegistry {
    /// The registry's invariant: one entry per match, joined players listed once.
    pub closed spec fn wf(&self) -> bool {
        &&& forall|i: int|
            0 <= i < self.pending_match_channels@.len() ==> (#[trigger] self.pending_match_channels@[i]).wf()
        &&& forall|i: int, j: int|
            0 <= i < j < self.pending_match_channels@.len() ==> (
            #[trigger] self.pending_match_channels@[i]).ready_event.match_id != (
            #[trigger] self.pending_match_channels@[j]).ready_event.match_id
    }

    /// An empty registry.
    pub fn new() -> (r: MatchChannelRegistry)
        ensures
            r.wf(),
            r@ == Seq::<PendingInfo>::empty(),
    {
        let r = MatchChannelRegistry { pending_match_channels: Vec::new() };
        assert(r@ =~= Seq::<PendingInfo>::empty());
        r
    }

    /// The number of match channels that wait for players.
    pub fn pending_count(&self) -> (n: usize)
        ensures
            n == self@.len(),
    {
        self.pending_match_channels.len()
    }

    /// Keeps `entry` as the entry of its match.
    fn upsert_entry(&mut self, entry: PendingMatchChannel)
        requires
            old(self).wf(),
            entry.wf(),
        ensures
            final(self).wf(),
            final(self)@ == upsert(old(self)@, entry@),
    {
        let ghost entries = self@;
        let mut i: usize = 0;
        let mut found = false;
        while i < self.pending_match_channels.len() && !found
            invariant
                self.pending_match_channels@ == old(self).pending_match_channels@,
                entries == self@,
                i <= self.pending_match_channels.len(),
                found ==> i < self.pending_match_channels.len()
                    && self.pending_match_channels@[i as int].ready_event.match_id
                    == entry.ready_event.match_id,
                !found ==> forall|j: int|
                    0 <= j < i ==> self.pending_match_channels@[j].ready_event.match_id
                        != entry.ready_event.match_id,
            decreases (self.pending_match_channels.len() - i) * 2 + (if found {
                0int
            } else {
                1int
            }),
        {
            if self.pending_match_channels[i].ready_event.match_id == entry.ready_event.match_id {
                found = true;
            } else {
                i = i + 1;
            }
        }
        if found {
            proof {
                assert(entries[i as int].ready.info.match_id == entry@.ready.info.match_id);
                assert(has_match(entries, entry@.ready.info.match_id));
                let k = choose|k: int|
                    0 <= k < entries.len() && #[trigger] entries[k].ready.info.match_id
                        == entry@.ready.info.match_id;
                if k != i {
                    assert(entries[k].ready.info.match_id == self.pending_match_channels@[k].ready_event.match_id);
                    if k < i {
                        assert(self.pending_match_channels@[k].ready_event.match_id
                            != self.pending_match_channels@[i as int].ready_event.match_id);
                    } else {
                        assert(self.pending_match_channels@[i as int].ready_event.match_id
                            != self.pending_match_channels@[k].ready_event.match_id);
                    }
                }
            }
            self.pending_match_channels.set(i, entry);
            proof {
                assert(self@ =~= upsert(entries, entry@));
            }
        } else {
            proof {
                assert forall|k: int| 0 <= k < entries.len() implies #[trigger] entries[k].ready.info.match_id
                    != entry@.ready.info.match_id by {
                    assert(entries[k].ready.info.match_id == self.pending_match_channels@[k].ready_event.match_id);
                }
            }
            self.pending_match_channels.push(entry);
            proof {
                assert(self@ =~= entries.push(entry@));
            }
        }
    }

    /// Creates the channel of a confirmed match and joins every player that has a connection.
    /// Returns the ready event when all players joined; otherwise the match waits here for
    /// the others.
    pub fn create_match_channel(
        &mut self,
        message_router: &mut MessageRouter,
        event: MatchConfirmedEvent,
    ) -> (r: Result<Option<MatchChannelReadyEvent>, MessagingError>)
        requires
            old(self).wf(),
            old(message_router).wf(),
        ensures
            final(self).wf(),
            final(message_router).wf(),
            r is Ok,
            final(self)@ == create_match_channel_spec(old(self)@, old(message_router)@, event@).0,
            final(message_router)@ == create_match_channel_spec(
                old(self)@,
                old(message_router)@,
                event@,
            ).1,
            r matches Ok(o) ==> match o {
                Some(ready) => create_match_channel_spec(old(self)@, old(message_router)@, event@).2
                    == Some(ready@),
                None => create_match_channel_spec(old(self)@, old(message_router)@, event@).2
                    is None,
            },
    {
        let ghost base = message_router@;
        let ghost players = event.player_ids@;
        let channel = concat(MATCH_CHANNEL_PREFIX, &uuid_to_string(event.match_id));
        let ready_event = MatchChannelReadyEvent {
            match_id: event.match_id,
            rule_id: event.rule_id,
            ticket_key: event.ticket_key,
            player_ids: event.player_ids,
            channel,
        };
        message_router.create_channel(&ready_event.channel);
        let ghost created = message_router@;
        let ghost ch = ready_event.channel@;
        let mut joined_player_ids: Vec<ConnectionId> = Vec::new();
        let mut i: usize = 0;
        proof {
            assert(players.take(0).to_set() =~= Set::<u128>::empty());
            assert(connected_players(players.take(0), created) =~= Set::<u128>::empty());
            assert(with_members(created, ch, Set::empty()) =~= created);
        }
        while i < ready_event.player_ids.len()
            invariant
                ready_event.player_ids@ == players,
                ready_event.channel@ == ch,
                created.channels.contains(ch),
                message_router.wf(),
                created.connections == base.connections,
                i <= players.len(),
                joined_player_ids@.no_duplicates(),
                joined_player_ids@.to_set() == connected_players(players.take(i as int), created),
                message_router@ == with_members(
                    created,
                    ch,
                    connected_players(players.take(i as int), created),
                ),
            decreases players.len() - i,
        {
            let p = ready_event.player_ids[i];
            let ghost before_set = connected_players(players.take(i as int), created);
            proof {
                assert(players.take(i + 1) =~= players.take(i as int).push(p));
                lemma_push_set(players.take(i as int), p);
            }
            match message_router.join_channel(p, &ready_event.channel) {
                Ok(()) => {
                    if !contains_id(&joined_player_ids, p) {
                        let ghost jb = joined_player_ids@;
                        joined_player_ids.push(p);
                        proof {
                            assert(joined_player_ids@ == jb.push(p));
                            lemma_push_set(jb, p);
                            assert forall|a: int, b: int|
                                0 <= a < joined_player_ids@.len() && 0 <= b
                                    < joined_player_ids@.len() && a != b implies joined_player_ids@[a]
                                != joined_player_ids@[b] by {
                                if a < jb.len() && b < jb.len() {
                                    assert(joined_player_ids@[a] == jb[a]);
                                    assert(joined_player_ids@[b] == jb[b]);
                                } else if a == jb.len() {
                                    assert(joined_player_ids@[b] == jb[b]);
                                } else {
                                    assert(joined_player_ids@[a] == jb[a]);
                                }
                            }
                        }
                    } else {
                        proof {
                            assert(joined_player_ids@.to_set() =~= joined_player_ids@.to_set().insert(p));
                        }
                    }
                    proof {
                        assert(created.connections.contains(p));
                        assert(connected_players(players.take(i + 1), created) =~= before_set.insert(p));
                        assert(message_router@ =~= with_members(created, ch, before_set.insert(p)));
                    }
                },
                Err(MessagingError::ConnectionNotFound { .. }) => {
                    proof {
                        assert(connected_players(players.take(i + 1), created) =~= before_set);
                    }
                },
                Err(error) => {
                    return Err(error);
                },
            }
            i = i + 1;
        }
        proof {
            assert(players.take(players.len() as int) =~= players);
            joined_player_ids@.unique_seq_to_set();
            assert(created == base.create_channel(ch));
            assert(ch == match_channel_name(event.match_id));
        }
        if joined_player_ids.len() == ready_event.player_ids.len() {
            return Ok(Some(ready_event));
        }
        let entry = PendingMatchChannel { ready_event, joined_player_ids };
        self.upsert_entry(entry);
        Ok(None)
    }
}


/// The ready events of a result, taken by their views.
pub open spec fn ready_outcome(r: Result<Vec<MatchChannelReadyEvent>, MessagingError>) -> Result<
    Seq<ReadyInfo>,
    RoutingFailure,
> {
    match r {
        Ok(v) => Ok(v@.map_values(|e: MatchChannelReadyEvent| e@)),
        Err(e) => Err(e@),
    }
}

/// No two entries are for the same match.
pub open spec fn distinct_matches(entries: Seq<PendingInfo>) -> bool {
    forall|i: int, j: int|
        0 <= i < j < entries.len() ==> (#[trigger] entries[i]).ready.info.match_id != (
        #[trigger] entries[j]).ready.info.match_id
}

proof fn lemma_filter_distinct(entries: Seq<PendingInfo>, pred: spec_fn(PendingInfo) -> bool)
    requires
        distinct_matches(entries),
    ensures
        distinct_matches(entries.filter(pred)),
        forall|e: PendingInfo| entries.filter(pred).contains(e) ==> entries.contains(e),
    decreases entries.len(),
{
    if entries.len() > 0 {
        let rest = entries.drop_last();
        assert(distinct_matches(rest)) by {
            assert forall|i: int, j: int| 0 <= i < j < rest.len() implies (#[trigger] rest[i]).ready.info.match_id
                != (#[trigger] rest[j]).ready.info.match_id by {
                assert(rest[i] == entries[i]);
                assert(rest[j] == entries[j]);
            }
        }
        lemma_filter_distinct(rest, pred);
        let f = rest.filter(pred);
        assert(entries =~= rest.push(entries.last()));
        rest.lemma_filter_push(entries.last(), pred);
        if pred(entries.last()) {
            let g = f.push(entries.last());
            assert(entries.filter(pred) == g);
            assert forall|i: int, j: int| 0 <= i < j < g.len() implies (#[trigger] g[i]).ready.info.match_id
                != (#[trigger] g[j]).ready.info.match_id by {
                if j == g.len() - 1 {
                    assert(f.contains(g[i]));
                    assert(rest.contains(g[i]));
                    let k = choose|k: int| 0 <= k < rest.len() && rest[k] == g[i];
                    assert(entries[k] == g[i]);
                    assert(entries[entries.len() - 1] == g[j]);
                } else {
                    assert(g[i] == f[i]);
                    assert(g[j] == f[j]);
                }
            }
            assert forall|e: PendingInfo| g.contains(e) implies entries.contains(e) by {
                let k = choose|k: int| 0 <= k < g.len() && g[k] == e;
                if k < f.len() {
                    assert(f[k] == e);
                    assert(f.contains(e));
                    assert(rest.contains(e));
                    let m = choose|m: int| 0 <= m < rest.len() && rest[m] == e;
                    assert(entries[m] == e);
                } else {
                    assert(entries[entries.len() - 1] == e);
                }
            }
        } else {
            assert(entries.filter(pred) == f);
            assert forall|e: PendingInfo| f.contains(e) implies entries.contains(e) by {
                assert(rest.contains(e));
                let m = choose|m: int| 0 <= m < rest.len() && rest[m] == e;
                assert(entries[m] == e);
            }
        }
    }
}

impl MatchChannelRegistry {
    proof fn lemma_distinct(&self)
        requires
            self.wf(),
        ensures
            distinct_matches(self@),
    {
        assert forall|i: int, j: int| 0 <= i < j < self@.len() implies (#[trigger] self@[i]).ready.info.match_id
            != (#[trigger] self@[j]).ready.info.match_id by {
            assert(self@[i].ready.info.match_id == self.pending_match_channels@[i].ready_event.match_id);
            assert(self@[j].ready.info.match_id == self.pending_match_channels@[j].ready_event.match_id);
        }
    }

    /// Joins a newly connected player to the channels of the matches that wait for it.
    /// Returns the ready events of the matches whose last missing player it was, and forgets
    /// those matches.
    pub fn join_pending_match_channels(
        &mut self,
        message_router: &mut MessageRouter,
        player_id: ConnectionId,
    ) -> (r: Result<Vec<MatchChannelReadyEvent>, MessagingError>)
        requires
            old(self).wf(),
            old(message_router).wf(),
        ensures
            final(self).wf(),
            final(message_router).wf(),
            final(self)@ == join_pending_spec(old(self)@, old(message_router)@, player_id).0,
            final(message_router)@ == join_pending_spec(old(self)@, old(message_router)@, player_id).1,
            ready_outcome(r) == join_pending_spec(old(self)@, old(message_router)@, player_id).2,
    {
        if !message_router.has_connection(player_id) {
            let r: Vec<MatchChannelReadyEvent> = Vec::new();
            proof {
                assert(r@.map_values(|e: MatchChannelReadyEvent| e@) =~= Seq::<ReadyInfo>::empty());
            }
            return Ok(r);
        }
        proof {
            self.lemma_distinct();
        }
        let ghost base = message_router@;
        let ghost entries = self@;
        let mut old_entries: Vec<PendingMatchChannel> = Vec::new();
        std::mem::swap(&mut old_entries, &mut self.pending_match_channels);
        let ghost step = |e: PendingInfo| joined_entry(e, player_id);
        let ghost done_pred = |e: PendingInfo| completed_by(e, player_id);
        let ghost ready_of = |e: PendingInfo| e.ready;
        let mut processed: Vec<PendingMatchChannel> = Vec::new();
        let mut done: Vec<bool> = Vec::new();
        let mut ready_events: Vec<MatchChannelReadyEvent> = Vec::new();
        let mut i: usize = 0;
        proof {
            assert(entries.take(0).map_values(step) =~= Seq::<PendingInfo>::empty());
            assert(entries.take(0).filter(done_pred) =~= Seq::<PendingInfo>::empty());
            assert(player_memberships(entries.take(0), player_id) =~= Set::empty());
            assert(base.memberships.union(Set::empty()) =~= base.memberships);
        }
        while i < old_entries.len()
            invariant
                entries == old_entries@.map_values(|e: PendingMatchChannel| e@),
                entries == old(self)@,
                base == old(message_router)@,
                forall|k: int| 0 <= k < old_entries@.len() ==> (#[trigger] old_entries@[k]).wf(),
                distinct_matches(entries),
                step == (|e: PendingInfo| joined_entry(e, player_id)),
                done_pred == (|e: PendingInfo| completed_by(e, player_id)),
                ready_of == (|e: PendingInfo| e.ready),
                base.connections.contains(player_id),
                message_router.wf(),
                i <= old_entries.len(),
                processed@.len() == i,
                done@.len() == i,
                processed@.map_values(|e: PendingMatchChannel| e@) == entries.take(i as int).map_values(step),
                forall|k: int| 0 <= k < i ==> (#[trigger] processed@[k]).wf(),
                forall|k: int| 0 <= k < i ==> done@[k] == done_pred(#[trigger] entries[k]),
                ready_events@.map_values(|e: MatchChannelReadyEvent| e@) == entries.take(i as int).filter(
                    done_pred,
                ).map_values(ready_of),
                message_router@ == (RouterState {
                    memberships: base.memberships.union(player_memberships(entries.take(i as int), player_id)),
                    ..base
                }),
                forall|j: int| 0 <= j < i ==> !blocked(#[trigger] entries[j], player_id, base),
            decreases old_entries.len() - i,
        {
            let mut entry = old_entries[i].duplicate();
            let ghost e = entries[i as int];
            let ghost pv = processed@.map_values(|e: PendingMatchChannel| e@);
            let ghost rv = ready_events@.map_values(|e: MatchChannelReadyEvent| e@);
            proof {
                assert(e == old_entries@[i as int]@);
                assert(entries.take(i + 1) =~= entries.take(i as int).push(e));
                entries.take(i as int).lemma_push_map_commute(step, e);
                entries.take(i as int).lemma_filter_push(e, done_pred);
            }
            let involved = contains_id(&entry.ready_event.player_ids, player_id);
            if involved {
                match message_router.join_channel(player_id, &entry.ready_event.channel) {
                    Ok(()) => {
                        if !contains_id(&entry.joined_player_ids, player_id) {
                            let ghost jb = entry.joined_player_ids@;
                            entry.joined_player_ids.push(player_id);
                            proof {
                                lemma_push_set(jb, player_id);
                                assert forall|a: int, b: int|
                                    0 <= a < entry.joined_player_ids@.len() && 0 <= b
                                        < entry.joined_player_ids@.len() && a != b implies entry.joined_player_ids@[a]
                                    != entry.joined_player_ids@[b] by {
                                    if a < jb.len() && b < jb.len() {
                                        assert(entry.joined_player_ids@[a] == jb[a]);
                                        assert(entry.joined_player_ids@[b] == jb[b]);
                                    } else if a == jb.len() {
                                        assert(entry.joined_player_ids@[b] == jb[b]);
                                    } else {
                                        assert(entry.joined_player_ids@[a] == jb[a]);
                                    }
                                }
                            }
                        } else {
                            proof {
                                assert(entry.joined_player_ids@.to_set() =~= entry.joined_player_ids@.to_set().insert(
                                    player_id,
                                ));
                            }
                        }
                        proof {
                            entry.joined_player_ids@.unique_seq_to_set();
                            assert(entry@ == step(e));
                        }
                        let complete = entry.joined_player_ids.len() == entry.ready_event.player_ids.len();
                        if complete {
                            let ghost rb = ready_events@;
                            ready_events.push(entry.ready_event.duplicate());
                            proof {
                                assert(ready_events@ == rb.push(ready_events@[rb.len() as int]));
                                rb.lemma_push_map_commute(|e: MatchChannelReadyEvent| e@, ready_events@[rb.len() as int]);
                                entries.take(i as int).filter(done_pred).lemma_push_map_commute(ready_of, e);
                            }
                        }
                        let ghost pb = processed@;
                        processed.push(entry);
                        done.push(complete);
                        proof {
                            pb.lemma_push_map_commute(|e: PendingMatchChannel| e@, processed@[i as int]);
                            assert(player_memberships(entries.take(i + 1), player_id) =~= player_memberships(
                                entries.take(i as int),
                                player_id,
                            ).insert((e.ready.channel, player_id))) by {
                                assert(entries.take(i + 1)[i as int] == e);
                                assert forall|j: int| 0 <= j < i implies entries.take(i + 1)[j] == entries.take(i as int)[j] by {}
                            }
                            assert(message_router@ =~= (RouterState {
                                memberships: base.memberships.union(player_memberships(entries.take(i + 1), player_id)),
                                ..base
                            }));
                        }
                    },
                    Err(MessagingError::ConnectionNotFound { .. }) => {
                        proof {
                            assert(false);
                        }
                        processed.push(entry);
                        done.push(false);
                    },
                    Err(error) => {
                        let ghost pb = processed@;
                        processed.push(entry);
                        let mut j: usize = i + 1;
                        proof {
                            pb.lemma_push_map_commute(|e: PendingMatchChannel| e@, processed@[i as int]);
                            assert(blocked(e, player_id, base));
                            assert(processed@.map_values(|e: PendingMatchChannel| e@) =~= entries.take(i as int).map_values(step) + entries.subrange(i as int, (i + 1) as int));
                        }
                        while j < old_entries.len()
                            invariant
                                entries == old_entries@.map_values(|e: PendingMatchChannel| e@),
                                entries == old(self)@,
                                base == old(message_router)@,
                                forall|k: int| 0 <= k < old_entries@.len() ==> (#[trigger] old_entries@[k]).wf(),
                                i < j <= old_entries.len(),
                                message_router@ == (RouterState {
                                    memberships: base.memberships.union(player_memberships(entries.take(i as int), player_id)),
                                    ..base
                                }),
                                message_router.wf(),
                                processed@.len() == j,
                                processed@.map_values(|e: PendingMatchChannel| e@) == entries.take(i as int).map_values(step) + entries.subrange(i as int, j as int),
                                forall|k: int| 0 <= k < j ==> (#[trigger] processed@[k]).wf(),
                            decreases old_entries.len() - j,
                        {
                            let ghost pb2 = processed@;
                            processed.push(old_entries[j].duplicate());
                            proof {
                                pb2.lemma_push_map_commute(|e: PendingMatchChannel| e@, processed@[j as int]);
                                assert(processed@.map_values(|e: PendingMatchChannel| e@) =~= entries.take(i as int).map_values(step) + entries.subrange(i as int, j + 1));
                            }
                            j = j + 1;
                        }
                        self.pending_match_channels = processed;
                        proof {
                            assert(0 <= i < entries.len() && blocked(entries[i as int], player_id, base));
                            assert(forall|j: int| 0 <= j < i ==> !blocked(#[trigger] entries[j], player_id, base));
                            let k = first_blocked(entries, player_id, base);
                            assert(k == i as int) by {
                                if k < i {
                                    assert(!blocked(entries[k], player_id, base));
                                } else if k > i {
                                    assert(!blocked(entries[i as int], player_id, base));
                                }
                            }
                            assert(entries.subrange(i as int, entries.len() as int) =~= entries.skip(i as int));
                            let fin = self@;
                            assert(fin == entries.take(i as int).map_values(step) + entries.skip(i as int));
                            assert(fin == join_pending_spec(entries, base, player_id).0);
                            assert(message_router@ == join_pending_spec(entries, base, player_id).1);
                            assert forall|a: int| 0 <= a < self.pending_match_channels@.len() implies (#[trigger] self.pending_match_channels@[a]).wf() by {}
                            assert forall|a: int, b: int| 0 <= a < b < self.pending_match_channels@.len() implies (
                                #[trigger] self.pending_match_channels@[a]).ready_event.match_id != (
                                #[trigger] self.pending_match_channels@[b]).ready_event.match_id by {
                                assert(fin[a].ready.info.match_id == self.pending_match_channels@[a].ready_event.match_id);
                                assert(fin[b].ready.info.match_id == self.pending_match_channels@[b].ready_event.match_id);
                                if a < i {
                                    assert(fin[a] == step(entries[a]));
                                } else {
                                    assert(fin[a] == entries[a]);
                                }
                                if b < i {
                                    assert(fin[b] == step(entries[b]));
                                } else {
                                    assert(fin[b] == entries[b]);
                                }
                            }
                        }
                        return Err(error);
                    },
                }
            } else {
                let ghost pb = processed@;
                processed.push(entry);
                done.push(false);
                proof {
                    pb.lemma_push_map_commute(|e: PendingMatchChannel| e@, processed@[i as int]);
                    assert(step(e) == e);
                    assert(player_memberships(entries.take(i + 1), player_id) =~= player_memberships(
                        entries.take(i as int),
                        player_id,
                    )) by {
                        assert forall|j: int| 0 <= j < i implies entries.take(i + 1)[j] == entries.take(i as int)[j] by {}
                    }
                }
            }
            proof {
                assert(processed@.map_values(|e: PendingMatchChannel| e@) =~= entries.take(i + 1).map_values(step));
                assert(ready_events@.map_values(|e: MatchChannelReadyEvent| e@) =~= entries.take(i + 1).filter(done_pred).map_values(ready_of));
            }
            i = i + 1;
        }
        proof {
            assert(entries.take(entries.len() as int) =~= entries);
            assert(!exists|k: int| 0 <= k < entries.len() && blocked(entries[k], player_id, base));
        }
        let mut kept: Vec<PendingMatchChannel> = Vec::new();
        let mut k: usize = 0;
        let ghost keep_pred = |e: PendingInfo| !completed_by(e, player_id);
        proof {
            assert(entries.take(0).filter(keep_pred).map_values(step) =~= Seq::<PendingInfo>::empty());
        }
        while k < processed.len()
            invariant
                k <= processed@.len(),
                processed@.len() == entries.len(),
                processed@.len() == done@.len(),
                step == (|e: PendingInfo| joined_entry(e, player_id)),
                keep_pred == (|e: PendingInfo| !completed_by(e, player_id)),
                processed@.map_values(|e: PendingMatchChannel| e@) == entries.map_values(step),
                forall|a: int| 0 <= a < processed@.len() ==> (#[trigger] processed@[a]).wf(),
                forall|a: int| 0 <= a < processed@.len() ==> done@[a] == completed_by(#[trigger] entries[a], player_id),
                kept@.map_values(|e: PendingMatchChannel| e@) == entries.take(k as int).filter(keep_pred).map_values(step),
                forall|a: int| 0 <= a < kept@.len() ==> (#[trigger] kept@[a]).wf(),
            decreases processed@.len() - k,
        {
            let ghost e = entries[k as int];
            proof {
                assert(entries.take(k + 1) =~= entries.take(k as int).push(e));
                entries.take(k as int).lemma_filter_push(e, keep_pred);
                assert(processed@[k as int]@ == entries.map_values(step)[k as int]);
            }
            if !done[k] {
                let ghost kb = kept@;
                kept.push(processed[k].duplicate());
                proof {
                    kb.lemma_push_map_commute(|e: PendingMatchChannel| e@, kept@[kb.len() as int]);
                    entries.take(k as int).filter(keep_pred).lemma_push_map_commute(step, e);
                }
            }
            proof {
                assert(kept@.map_values(|e: PendingMatchChannel| e@) =~= entries.take(k + 1).filter(keep_pred).map_values(step));
            }
            k = k + 1;
        }
        self.pending_match_channels = kept;
        proof {
            assert(entries.take(entries.len() as int) =~= entries);
            let fin = self@;
            assert(fin == entries.filter(keep_pred).map_values(step));
            lemma_filter_distinct(entries, keep_pred);
            assert forall|a: int, b: int| 0 <= a < b < self.pending_match_channels@.len() implies (
                #[trigger] self.pending_match_channels@[a]).ready_event.match_id != (
                #[trigger] self.pending_match_channels@[b]).ready_event.match_id by {
                assert(fin[a].ready.info.match_id == self.pending_match_channels@[a].ready_event.match_id);
                assert(fin[b].ready.info.match_id == self.pending_match_channels@[b].ready_event.match_id);
                assert(fin[a] == step(entries.filter(keep_pred)[a]));
                assert(fin[b] == step(entries.filter(keep_pred)[b]));
            }
        }
        Ok(ready_events)
    }
}

} // verus!

verus! {

/// The channel of a confirmed match is ready at once exactly when every player (listed once)
/// already has a connection.
pub proof fn law_ready_iff_all_connected(entries: Seq<PendingInfo>, router: RouterState, event: MatchInfo)
    requires
        router.wf(),
        event.player_ids.no_duplicates(),
    ensures
        create_match_channel_spec(entries, router, event).2 is Some <==> forall|p: u128|
            event.player_ids.contains(p) ==> router.connections.contains(p),
{
    let players = event.player_ids;
    let joined = connected_players(players, router);
    players.unique_seq_to_set();
    if forall|p: u128| players.contains(p) ==> router.connections.contains(p) {
        assert(joined =~= players.to_set());
    } else {
        let q = choose|p: u128| players.contains(p) && !router.connections.contains(p);
        assert(joined.subset_of(players.to_set().remove(q)));
        vstd::set_lib::lemma_len_subset(joined, players.to_set().remove(q));
    }
}

/// A match that waits for exactly one missing player becomes ready when that player connects
/// and joins: the ready event is returned, the match no longer waits, and the player is a
/// member of the match channel.
pub proof fn law_last_player_completes_match(
    entries: Seq<PendingInfo>,
    router: RouterState,
    event: MatchInfo,
    missing: u128,
)
    requires
        router.wf(),
        distinct_matches(entries),
        !has_match(entries, event.match_id),
        event.player_ids.no_duplicates(),
        event.player_ids.contains(missing),
        !router.connections.contains(missing),
        forall|p: u128| event.player_ids.contains(p) && p != missing ==> router.connections.contains(p),
        forall|i: int|
            0 <= i < entries.len() && involves(#[trigger] entries[i], missing) ==> router.channels.contains(
                entries[i].ready.channel,
            ),
    ensures
        ({
            let created = create_match_channel_spec(entries, router, event);
            let connected = created.1.add_connection(missing).0;
            let joined = join_pending_spec(created.0, connected, missing);
            let channel = match_channel_name(event.match_id);
            &&& created.2 is None
            &&& joined.2 is Ok
            &&& joined.2->Ok_0.contains(ReadyInfo { info: event, channel })
            &&& !has_match(joined.0, event.match_id)
            &&& joined.1.channels_of(missing).contains(channel)
        }),
{
    let players = event.player_ids;
    let channel = match_channel_name(event.match_id);
    let created = create_match_channel_spec(entries, router, event);
    let joined_set = connected_players(players, router);
    players.unique_seq_to_set();
    assert(joined_set =~= players.to_set().remove(missing));
    let entry = PendingInfo { ready: ReadyInfo { info: event, channel }, joined: joined_set };
    assert(created.2 is None);
    assert(created.0 == entries.push(entry));
    let e1 = created.0;
    let r1 = created.1;
    crate::router::law_operations_keep_invariant(router, missing, channel);
    assert(r1.wf()) by {
        let rc = router.create_channel(channel);
        assert(rc.wf());
        assert forall|m: (Seq<char>, ConnectionId)| #[trigger] r1.memberships.contains(m) implies r1.channels.contains(m.0)
            && r1.connections.contains(m.1) by {
            if !rc.memberships.contains(m) {
                assert(m.0 == channel && joined_set.contains(m.1));
            }
        }
        let extra = Set::new(|m: (Seq<char>, ConnectionId)| m.0 == channel && joined_set.contains(m.1));
        assert(joined_set.finite());
        assert(extra =~= joined_set.map(|p: u128| (channel, p)));
        joined_set.lemma_map_finite(|p: u128| (channel, p));
        assert(r1.memberships =~= rc.memberships.union(extra));
    }
    let r2 = r1.add_connection(missing).0;
    crate::router::law_operations_keep_invariant(r1, missing, channel);
    assert(r2.connections.contains(missing));
    assert forall|k: int| 0 <= k < e1.len() implies !blocked(#[trigger] e1[k], missing, r2) by {
        if k < entries.len() {
            assert(e1[k] == entries[k]);
        } else {
            assert(e1[k] == entry);
        }
    }
    let jr = join_pending_spec(e1, r2, missing);
    assert(completed_by(entry, missing)) by {
        assert(joined_set.insert(missing) =~= players.to_set());
    }
    let done = |e: PendingInfo| completed_by(e, missing);
    let keep = |e: PendingInfo| !completed_by(e, missing);
    entries.lemma_filter_push(entry, done);
    entries.lemma_filter_push(entry, keep);
    let ready_seq = e1.filter(done).map_values(|e: PendingInfo| e.ready);
    assert(e1.filter(done) == entries.filter(done).push(entry));
    assert(ready_seq[ready_seq.len() - 1] == entry.ready);
    assert(jr.2->Ok_0.contains(entry.ready));
    lemma_filter_distinct(entries, keep);
    assert(e1.filter(keep) == entries.filter(keep));
    assert forall|i: int| 0 <= i < jr.0.len() implies #[trigger] jr.0[i].ready.info.match_id != event.match_id by {
        let f = entries.filter(keep);
        assert(jr.0[i] == joined_entry(f[i], missing));
        assert(f.contains(f[i]));
        assert(entries.contains(f[i]));
        let k = choose|k: int| 0 <= k < entries.len() && entries[k] == f[i];
        assert(entries[k].ready.info.match_id != event.match_id);
    }
    assert(jr.1.memberships.contains((channel, missing))) by {
        assert(e1[entries.len() as int] == entry);
        assert(involves(entry, missing));
    }
}

/// A waiting match is well formed when its players are distinct and only they have joined.
pub open spec fn entry_wf(e: PendingInfo) -> bool {
    e.ready.info.player_ids.no_duplicates() && e.joined.subset_of(e.ready.info.player_ids.to_set())
}

/// A player's joining completes a waiting match exactly when the player takes part in it and,
/// with that player, every player of the match has joined, however many were missing.
pub proof fn law_join_completes_exactly_when_all_joined(e: PendingInfo, player: u128)
    requires
        entry_wf(e),
    ensures
        completed_by(e, player) <==> (involves(e, player) && forall|x: u128|
            #[trigger] e.ready.info.player_ids.contains(x) ==> (e.joined.contains(x) || x == player)),
{
    let players = e.ready.info.player_ids;
    players.unique_seq_to_set();
    vstd::seq_lib::seq_to_set_is_finite(players);
    if involves(e, player) {
        let j = e.joined.insert(player);
        assert(j.subset_of(players.to_set()));
        vstd::set_lib::lemma_len_subset(j, players.to_set());
        if j.len() == players.len() {
            vstd::set_lib::lemma_subset_equality(j, players.to_set());
            assert forall|x: u128| #[trigger] players.contains(x) implies (e.joined.contains(x) || x == player) by {
                assert(players.to_set().contains(x));
            }
        }
        if forall|x: u128| #[trigger] players.contains(x) ==> (e.joined.contains(x) || x == player) {
            assert forall|x: u128| players.to_set().contains(x) implies j.contains(x) by {
                assert(players.contains(x));
            }
            assert(j =~= players.to_set());
        }
    }
}

/// When a connected player joins the waiting matches (none of whose channels is gone), a
/// waiting match the player takes part in is announced ready exactly when, with that player,
/// every one of its players has joined; then it no longer waits. Otherwise it keeps waiting,
/// with the player added to those who joined.
pub proof fn law_join_pending_ready_iff_all_joined(
    entries: Seq<PendingInfo>,
    router: RouterState,
    player: u128,
    i: int,
)
    requires
        router.connections.contains(player),
        forall|k: int| 0 <= k < entries.len() ==> !blocked(#[trigger] entries[k], player, router),
        distinct_matches(entries),
        0 <= i < entries.len(),
        entry_wf(entries[i]),
        involves(entries[i], player),
    ensures
        ({
            let r = join_pending_spec(entries, router, player);
            let e = entries[i];
            let all_joined = forall|x: u128|
                #[trigger] e.ready.info.player_ids.contains(x) ==> (e.joined.contains(x) || x == player);
            &&& r.2 is Ok
            &&& (r.2->Ok_0.contains(e.ready) <==> all_joined)
            &&& (!all_joined ==> r.0.contains((PendingInfo { ready: e.ready, joined: e.joined.insert(player) })))
            &&& (all_joined ==> forall|k: int|
                0 <= k < r.0.len() ==> (#[trigger] r.0[k]).ready.info.match_id != e.ready.info.match_id)
        }),
{
    let e = entries[i];
    law_join_completes_exactly_when_all_joined(e, player);
    let done = |x: PendingInfo| completed_by(x, player);
    let keep = |x: PendingInfo| !completed_by(x, player);
    let step = |x: PendingInfo| joined_entry(x, player);
    let ready_of = |x: PendingInfo| x.ready;
    assert(!(exists|k: int| 0 <= k < entries.len() && blocked(entries[k], player, router)));
    let fd = entries.filter(done);
    let fk = entries.filter(keep);
    let r = join_pending_spec(entries, router, player);
    assert(r.2 == Ok::<Seq<ReadyInfo>, RoutingFailure>(fd.map_values(ready_of)));
    assert(r.0 == fk.map_values(step));
    if completed_by(e, player) {
        entries.lemma_filter_contains(done, i);
        let j = choose|j: int| 0 <= j < fd.len() && fd[j] == e;
        assert(fd.map_values(ready_of)[j] == e.ready);
        assert forall|k: int| 0 <= k < r.0.len() implies (#[trigger] r.0[k]).ready.info.match_id
            != e.ready.info.match_id by {
            entries.lemma_filter_pred(keep, k);
            assert(r.0[k] == joined_entry(fk[k], player));
            assert(fk.contains(fk[k]));
            entries.lemma_filter_contains_rev(keep, fk[k]);
            let m = choose|m: int| 0 <= m < entries.len() && entries[m] == fk[k];
            if fk[k].ready.info.match_id == e.ready.info.match_id {
                if m < i {
                    assert(entries[m].ready.info.match_id != entries[i].ready.info.match_id);
                } else if m > i {
                    assert(entries[i].ready.info.match_id != entries[m].ready.info.match_id);
                }
            }
        }
    } else {
        entries.lemma_filter_contains(keep, i);
        let j = choose|j: int| 0 <= j < fk.len() && fk[j] == e;
        assert(fk.map_values(step)[j] == joined_entry(e, player));
        assert(joined_entry(e, player) == (PendingInfo { ready: e.ready, joined: e.joined.insert(player) }));
        if fd.map_values(ready_of).contains(e.ready) {
            let j2 = choose|j2: int| 0 <= j2 < fd.map_values(ready_of).len() && fd.map_values(ready_of)[j2] == e.ready;
            entries.lemma_filter_pred(done, j2);
            assert(fd.contains(fd[j2]));
            entries.lemma_filter_contains_rev(done, fd[j2]);
            let m = choose|m: int| 0 <= m < entries.len() && entries[m] == fd[j2];
            assert(fd[j2].ready == e.ready);
            if m < i {
                assert(entries[m].ready.info.match_id != entries[i].ready.info.match_id);
            } else if m > i {
                assert(entries[i].ready.info.match_id != entries[m].ready.info.match_id);
            }
        }
    }
}

} // verus!
