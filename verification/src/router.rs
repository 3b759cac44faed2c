//! The realtime message router: which connections exist, which channels exist, and which
//! connection belongs to which channel. Delivering a message is left to the caller: the
//! router answers which connections a broadcast reaches.
use crate::text::{concat, owned, sorted_strings, strictly_sorted, uuid_text, uuid_to_string, views};
use vstd::prelude::*;

verus! {

/// The channel every connection joins when it is added, and which can never be removed.
pub const DEFAULT_CHANNEL_ID: &'static str = "default";

/// The identity of a connection (a UUID held as its 128-bit value).
pub type ConnectionId = u128;

/// The name of the default channel.
pub open spec fn default_channel() -> Seq<char> {
    DEFAULT_CHANNEL_ID@
}

/// Why a routing operation was refused.
#[derive(Debug)]
pub enum MessagingError {
    ConnectionNotFound { conn_id: ConnectionId },
    ConnectionAlreadyExists { conn_id: ConnectionId },
    ChannelNotFound { channel_id: String },
    CannotRemoveDefaultChannel,
}

/// A routing refusal with the channel name taken as text.
pub enum RoutingFailure {
    ConnectionNotFound(ConnectionId),
    ConnectionAlreadyExists(ConnectionId),
    ChannelNotFound(Seq<char>),
    CannotRemoveDefaultChannel,
}

impl View for MessagingError {
    type V = RoutingFailure;

    open spec fn view(&self) -> RoutingFailure {
        match self {
            MessagingError::ConnectionNotFound { conn_id } => RoutingFailure::ConnectionNotFound(
                *conn_id,
            ),
            MessagingError::ConnectionAlreadyExists { conn_id } =>
                RoutingFailure::ConnectionAlreadyExists(*conn_id),
            MessagingError::ChannelNotFound { channel_id } => RoutingFailure::ChannelNotFound(
                channel_id@,
            ),
            MessagingError::CannotRemoveDefaultChannel => RoutingFailure::CannotRemoveDefaultChannel,
        }
    }
}

pub const CONNECTION_WORD: &'static str = "connection ";

pub const CHANNEL_WORD: &'static str = "channel ";

pub const NOT_FOUND_TAIL: &'static str = " not found";

pub const ALREADY_EXISTS_TAIL: &'static str = " already exists";

pub const DEFAULT_CHANNEL_KEPT: &'static str = "default channel cannot be removed";

/// The text of a routing refusal.
pub open spec fn failure_text(f: RoutingFailure) -> Seq<char> {
    match f {
        RoutingFailure::ConnectionNotFound(c) => CONNECTION_WORD@ + uuid_text(c) + NOT_FOUND_TAIL@,
        RoutingFailure::ConnectionAlreadyExists(c) => CONNECTION_WORD@ + uuid_text(c)
            + ALREADY_EXISTS_TAIL@,
        RoutingFailure::ChannelNotFound(ch) => CHANNEL_WORD@ + ch + NOT_FOUND_TAIL@,
        RoutingFailure::CannotRemoveDefaultChannel => DEFAULT_CHANNEL_KEPT@,
    }
}

impl MessagingError {
    /// The text of the refusal, such as `connection {id} not found`.
    pub fn to_string(&self) -> (r: String)
        ensures
            r@ == failure_text(self@),
    {
        match self {
            MessagingError::ConnectionNotFound { conn_id } => {
                let head = concat(CONNECTION_WORD, uuid_to_string(*conn_id).as_str());
                concat(head.as_str(), NOT_FOUND_TAIL)
            },
            MessagingError::ConnectionAlreadyExists { conn_id } => {
                let head = concat(CONNECTION_WORD, uuid_to_string(*conn_id).as_str());
                concat(head.as_str(), ALREADY_EXISTS_TAIL)
            },
            MessagingError::ChannelNotFound { channel_id } => {
                let head = concat(CHANNEL_WORD, channel_id.as_str());
                concat(head.as_str(), NOT_FOUND_TAIL)
            },
            MessagingError::CannotRemoveDefaultChannel => owned(DEFAULT_CHANNEL_KEPT),
        }
    }
}

/// The outcome of an operation, with the error taken by its view.
pub open spec fn outcome<T>(r: Result<T, MessagingError>) -> Result<T, RoutingFailure> {
    match r {
        Ok(v) => Ok(v),
        Err(e) => Err(e@),
    }
}

/// The abstract state of a router.
#[verifier::ext_equal]
pub struct RouterState {
    pub connections: Set<ConnectionId>,
    pub channels: Set<Seq<char>>,
    /// `(channel, connection)` pairs: the connection is a member of the channel.
    pub memberships: Set<(Seq<char>, ConnectionId)>,
}

impl RouterState {
    /// The state of a new router: only the default channel, no connection.
    pub open spec fn initial() -> RouterState {
        RouterState {
            connections: Set::empty(),
            channels: Set::empty().insert(default_channel()),
            memberships: Set::empty(),
        }
    }

    /// The router's invariant: the default channel exists, the sets are finite, and every
    /// membership joins an existing connection to an existing channel.
    pub open spec fn wf(self) -> bool {
        &&& self.connections.finite()
        &&& self.channels.finite()
        &&& self.memberships.finite()
        &&& self.channels.contains(default_channel())
        &&& forall|m: (Seq<char>, ConnectionId)| #[trigger]
            self.memberships.contains(m) ==> self.channels.contains(m.0) && self.connections.contains(
                m.1,
            )
    }

    /// The connections that are members of `channel`.
    pub open spec fn members(self, channel: Seq<char>) -> Set<ConnectionId> {
        Set::new(|c: ConnectionId| self.memberships.contains((channel, c)))
    }

    /// The channels that `conn` is a member of.
    pub open spec fn channels_of(self, conn: ConnectionId) -> Set<Seq<char>> {
        Set::new(|ch: Seq<char>| self.memberships.contains((ch, conn)))
    }

    /// The connections that are members of at least one of `channels`.
    pub open spec fn reached_by(self, channels: Set<Seq<char>>) -> Set<ConnectionId> {
        Set::new(
            |c: ConnectionId|
                exists|ch: Seq<char>| channels.contains(ch) && #[trigger] self.memberships.contains((ch, c)),
        )
    }

    pub open spec fn add_connection(self, conn: ConnectionId) -> (RouterState, Result<(), RoutingFailure>) {
        if self.connections.contains(conn) {
            (self, Err(RoutingFailure::ConnectionAlreadyExists(conn)))
        } else {
            (
                RouterState {
                    connections: self.connections.insert(conn),
                    memberships: self.memberships.insert((default_channel(), conn)),
                    ..self
                },
                Ok(()),
            )
        }
    }

    pub open spec fn remove_connection(self, conn: ConnectionId) -> RouterState {
        RouterState {
            connections: self.connections.remove(conn),
            memberships: self.memberships.filter(|m: (Seq<char>, ConnectionId)| m.1 != conn),
            ..self
        }
    }

    pub open spec fn create_channel(self, channel: Seq<char>) -> RouterState {
        RouterState { channels: self.channels.insert(channel), ..self }
    }

    pub open spec fn remove_channel(self, channel: Seq<char>) -> (RouterState, Result<(), RoutingFailure>) {
        if channel == default_channel() {
            (self, Err(RoutingFailure::CannotRemoveDefaultChannel))
        } else {
            (
                RouterState {
                    channels: self.channels.remove(channel),
                    memberships: self.memberships.filter(
                        |m: (Seq<char>, ConnectionId)| m.0 != channel,
                    ),
                    ..self
                },
                Ok(()),
            )
        }
    }

    pub open spec fn join_channel(self, conn: ConnectionId, channel: Seq<char>) -> (RouterState, Result<(), RoutingFailure>) {
        if !self.connections.contains(conn) {
            (self, Err(RoutingFailure::ConnectionNotFound(conn)))
        } else if !self.channels.contains(channel) {
            (self, Err(RoutingFailure::ChannelNotFound(channel)))
        } else {
            (RouterState { memberships: self.memberships.insert((channel, conn)), ..self }, Ok(()))
        }
    }

    pub open spec fn leave_channel(self, conn: ConnectionId, channel: Seq<char>) -> (RouterState, Result<(), RoutingFailure>) {
        if !self.connections.contains(conn) {
            (self, Err(RoutingFailure::ConnectionNotFound(conn)))
        } else if !self.channels.contains(channel) {
            (self, Err(RoutingFailure::ChannelNotFound(channel)))
        } else {
            (RouterState { memberships: self.memberships.remove((channel, conn)), ..self }, Ok(()))
        }
    }

    /// `remove_connection` applied to each of `conns` in turn.
    pub open spec fn remove_connections(self, conns: Seq<ConnectionId>) -> RouterState
        decreases conns.len(),
    {
        if conns.len() == 0 {
            self
        } else {
            self.remove_connection(conns[0]).remove_connections(conns.drop_first())
        }
    }
}

/// One membership of a connection in a channel.
struct Membership {
    channel: String,
    connection: ConnectionId,
}

spec fn membership_view(m: Membership) -> (Seq<char>, ConnectionId) {
    (m.channel@, m.connection)
}

spec fn membership_views(s: Seq<Membership>) -> Seq<(Seq<char>, ConnectionId)> {
    s.map_values(|m: Membership| membership_view(m))
}

/// Routes messages between connections through named channels.
pub struct MessageRouter {
    connections: Vec<ConnectionId>,
    channels: Vec<String>,
    memberships: Vec<Membership>,
}

impl View for MessageRouter {
    type V = RouterState;

    closed spec fn view(&self) -> RouterState {
        RouterState {
            connections: self.connections@.to_set(),
            channels: views(self.channels@).to_set(),
            memberships: membership_views(self.memberships@).to_set(),
        }
    }
}

/// Appending an item to a list adds it to its set.
pub proof fn lemma_push_set<A>(s: Seq<A>, x: A)
    ensures
        s.push(x).to_set() == s.to_set().insert(x),
{
    s.lemma_push_to_set_commute(x);
}

/// Removing one item of a list without duplicates removes it from its set, and no other.
pub proof fn lemma_remove_no_dup_set<A>(s: Seq<A>, i: int)
    requires
        s.no_duplicates(),
        0 <= i < s.len(),
    ensures
        s.remove(i).no_duplicates(),
        s.remove(i).to_set() == s.to_set().remove(s[i]),
{
    s.remove_ensures(i);
    let r = s.remove(i);
    assert forall|a: int, b: int| 0 <= a < r.len() && 0 <= b < r.len() && a != b implies r[a]
        != r[b] by {
        let ja = if a < i {
            a
        } else {
            a + 1
        };
        let jb = if b < i {
            b
        } else {
            b + 1
        };
        assert(r[a] == s[ja]);
        assert(r[b] == s[jb]);
    }
    assert forall|x: A| r.to_set().contains(x) <==> s.to_set().remove(s[i]).contains(x) by {
        if r.to_set().contains(x) {
            let k = choose|k: int| 0 <= k < r.len() && r[k] == x;
            let j = if k < i {
                k
            } else {
                k + 1
            };
            assert(s[j] == x);
        }
        if s.to_set().remove(s[i]).contains(x) {
            let j = choose|j: int| 0 <= j < s.len() && s[j] == x;
            if j < i {
                assert(r[j] == x);
            } else {
                assert(j != i);
                assert(r[j - 1] == x);
            }
        }
    }
    assert(r.to_set() =~= s.to_set().remove(s[i]));
}

impl MessageRouter {
    /// The representation invariant.
    pub closed spec fn wf(&self) -> bool {
        &&& self.connections@.no_duplicates()
        &&& views(self.channels@).no_duplicates()
        &&& views(self.channels@).contains(default_channel())
        &&& forall|i: int|
            0 <= i < self.memberships@.len() ==> self.connections@.contains(
                #[trigger] self.memberships@[i].connection,
            ) && views(self.channels@).contains(self.memberships@[i].channel@)
    }

    proof fn lemma_view_wf(&self)
        requires
            self.wf(),
        ensures
            self@.wf(),
    {
        let st = self@;
        assert forall|m: (Seq<char>, ConnectionId)| #[trigger]
            st.memberships.contains(m) implies st.channels.contains(m.0) && st.connections.contains(
            m.1,
        ) by {
            let k = choose|k: int|
                0 <= k < membership_views(self.memberships@).len() && membership_views(
                    self.memberships@,
                )[k] == m;
            assert(self.memberships@[k].connection == m.1);
            assert(self.connections@.contains(self.memberships@[k].connection));
            assert(views(self.channels@).contains(self.memberships@[k].channel@));
        }
        self.connections@.lemma_cardinality_of_set();
        views(self.channels@).lemma_cardinality_of_set();
        membership_views(self.memberships@).lemma_cardinality_of_set();
        assert(views(self.channels@).to_set().contains(default_channel()));
    }

    /// Whether `conn` is a connection of this router.
    pub fn has_connection(&self, conn_id: ConnectionId) -> (b: bool)
        ensures
            b == self@.connections.contains(conn_id),
    {
        let mut i: usize = 0;
        while i < self.connections.len()
            invariant
                i <= self.connections.len(),
                forall|j: int| 0 <= j < i ==> self.connections@[j] != conn_id,
            decreases self.connections.len() - i,
        {
            if self.connections[i] == conn_id {
                assert(self.connections@.to_set().contains(conn_id));
                return true;
            }
            i = i + 1;
        }
        false
    }

    fn has_channel(&self, channel: &String) -> (b: bool)
        ensures
            b == self@.channels.contains(channel@),
    {
        let mut i: usize = 0;
        while i < self.channels.len()
            invariant
                i <= self.channels.len(),
                forall|j: int| 0 <= j < i ==> self.channels@[j]@ != channel@,
            decreases self.channels.len() - i,
        {
            if self.channels[i] == *channel {
                assert(views(self.channels@)[i as int] == channel@);
                return true;
            }
            i = i + 1;
        }
        proof {
            if views(self.channels@).to_set().contains(channel@) {
                let k = choose|k: int|
                    0 <= k < views(self.channels@).len() && views(self.channels@)[k] == channel@;
                assert(self.channels@[k]@ == channel@);
            }
        }
        false
    }

    fn has_membership(&self, channel: &String, conn_id: ConnectionId) -> (b: bool)
        ensures
            b == self@.memberships.contains((channel@, conn_id)),
    {
        let mut i: usize = 0;
        while i < self.memberships.len()
            invariant
                i <= self.memberships.len(),
                forall|j: int|
                    0 <= j < i ==> membership_view(#[trigger] self.memberships@[j]) != (
                        channel@,
                        conn_id,
                    ),
            decreases self.memberships.len() - i,
        {
            if self.memberships[i].connection == conn_id && self.memberships[i].channel == *channel {
                assert(membership_views(self.memberships@)[i as int] == (channel@, conn_id));
                return true;
            }
            i = i + 1;
        }
        proof {
            if membership_views(self.memberships@).to_set().contains((channel@, conn_id)) {
                let k = choose|k: int|
                    0 <= k < membership_views(self.memberships@).len() && membership_views(
                        self.memberships@,
                    )[k] == (channel@, conn_id);
                assert(membership_view(self.memberships@[k]) == (channel@, conn_id));
            }
        }
        false
    }

    /// Removes the memberships that match the given channel (when one is given) and the given
    /// connection (when one is given).
    fn drop_matching(&mut self, channel: Option<&String>, conn_id: Option<ConnectionId>)
        ensures
            final(self).connections == old(self).connections,
            final(self).channels == old(self).channels,
            final(self)@.memberships == old(self)@.memberships.filter(
                |m: (Seq<char>, ConnectionId)| !matches_filter(m, opt_view(channel), conn_id),
            ),
    {
        let ghost pred = |m: (Seq<char>, ConnectionId)| !matches_filter(m, opt_view(channel), conn_id);
        let ghost old_views = membership_views(self.memberships@);
        let ghost old_ms = self.memberships@;
        let mut kept: Vec<Membership> = Vec::new();
        let mut i: usize = 0;
        let n = self.memberships.len();
        assert(membership_views(kept@).to_set() =~= old_views.take(0).to_set().filter(pred));
        while i < n
            invariant
                n == self.memberships.len(),
                self.memberships@ == old_ms,
                pred == (|m: (Seq<char>, ConnectionId)| !matches_filter(m, opt_view(channel), conn_id)),
                old_views == membership_views(old_ms),
                i <= n,
                membership_views(kept@).to_set() == old_views.take(i as int).to_set().filter(pred),
            decreases n - i,
        {
            let ghost before = kept@;
            let ghost x = old_views[i as int];
            proof {
                assert(old_views.take(i + 1) =~= old_views.take(i as int).push(x));
                lemma_push_set(old_views.take(i as int), x);
                assert(x == membership_view(old_ms[i as int]));
            }
            let channel_hit = match channel {
                Some(ch) => self.memberships[i].channel == *ch,
                None => true,
            };
            let conn_hit = match conn_id {
                Some(c) => self.memberships[i].connection == c,
                None => true,
            };
            if !(channel_hit && conn_hit) {
                let m = Membership {
                    channel: self.memberships[i].channel.clone(),
                    connection: self.memberships[i].connection,
                };
                kept.push(m);
                proof {
                    assert(membership_views(kept@) =~= membership_views(before).push(x));
                    lemma_push_set(membership_views(before), x);
                    assert(pred(x));
                    assert(old_views.take(i + 1).to_set().filter(pred) =~= old_views.take(
                        i as int,
                    ).to_set().filter(pred).insert(x));
                }
            } else {
                proof {
                    assert(!pred(x));
                    assert(old_views.take(i + 1).to_set().filter(pred) =~= old_views.take(
                        i as int,
                    ).to_set().filter(pred));
                }
            }
            i = i + 1;
        }
        assert(old_views.take(n as int) =~= old_views);
        self.memberships = kept;
    }
}


fn contains_text(v: &Vec<String>, s: &String) -> (b: bool)
    ensures
        b == views(v@).contains(s@),
{
    let mut i: usize = 0;
    while i < v.len()
        invariant
            i <= v.len(),
            forall|j: int| 0 <= j < i ==> v@[j]@ != s@,
        decreases v.len() - i,
    {
        if v[i] == *s {
            assert(views(v@)[i as int] == s@);
            return true;
        }
        i = i + 1;
    }
    false
}

pub fn contains_id(v: &Vec<ConnectionId>, c: ConnectionId) -> (b: bool)
    ensures
        b == v@.contains(c),
{
    let mut i: usize = 0;
    while i < v.len()
        invariant
            i <= v.len(),
            forall|j: int| 0 <= j < i ==> v@[j] != c,
        decreases v.len() - i,
    {
        if v[i] == c {
            return true;
        }
        i = i + 1;
    }
    false
}

impl Default for MessageRouter {
    /// A router with only the default channel.
    fn default() -> (r: MessageRouter)
        ensures
            r.wf(),
            r@ == RouterState::initial(),
    {
        let mut channels: Vec<String> = Vec::new();
        channels.push(DEFAULT_CHANNEL_ID.to_owned());
        let r = MessageRouter { connections: Vec::new(), channels, memberships: Vec::new() };
        proof {
            assert(views(r.channels@) =~= seq![default_channel()]);
            assert(views(r.channels@)[0] == default_channel());
            assert(r.connections@.to_set() =~= Set::empty());
            assert(membership_views(r.memberships@).to_set() =~= Set::empty());
            assert(views(r.channels@).to_set() =~= Set::empty().insert(default_channel()));
        }
        r
    }
}

impl MessageRouter {
    /// The invariant of the representation implies the invariant of the state.
    pub proof fn lemma_wf(&self)
        requires
            self.wf(),
        ensures
            self@.wf(),
    {
        self.lemma_view_wf();
    }

    /// Adds a connection and makes it a member of the default channel.
    pub fn add_connection(&mut self, conn_id: ConnectionId) -> (r: Result<(), MessagingError>)
        requires
            old(self).wf(),
        ensures
            final(self).wf(),
            final(self)@ == old(self)@.add_connection(conn_id).0,
            outcome(r) == old(self)@.add_connection(conn_id).1,
    {
        if self.has_connection(conn_id) {
            return Err(MessagingError::ConnectionAlreadyExists { conn_id });
        }
        let ghost before = self@;
        self.connections.push(conn_id);
        proof {
            lemma_push_set(old(self).connections@, conn_id);
            assert forall|j: int| 0 <= j < self.connections@.len() - 1 implies self.connections@[j]
                != conn_id by {
                assert(old(self).connections@[j] == self.connections@[j]);
            }
            assert(self.connections@.no_duplicates());
            assert forall|i: int| 0 <= i < self.memberships@.len() implies self.connections@.contains(
                #[trigger] self.memberships@[i].connection,
            ) && views(self.channels@).contains(self.memberships@[i].channel@) by {
                let k = choose|k: int|
                    0 <= k < old(self).connections@.len() && old(self).connections@[k]
                        == self.memberships@[i].connection;
                assert(self.connections@[k] == self.memberships@[i].connection);
            }
            assert(self@ == RouterState { connections: before.connections.insert(conn_id), ..before });
            assert(default_channel() == DEFAULT_CHANNEL_ID@);
            self.lemma_view_wf();
        }
        match self.join_channel(conn_id, DEFAULT_CHANNEL_ID) {
            Ok(()) => Ok(()),
            Err(error) => {
                self.connections.pop();
                Err(error)
            },
        }
    }

    /// Removes a connection and all its memberships.
    pub fn remove_connection(&mut self, conn_id: ConnectionId)
        requires
            old(self).wf(),
        ensures
            final(self).wf(),
            final(self)@ == old(self)@.remove_connection(conn_id),
    {
        let mut i: usize = 0;
        let mut found = false;
        while i < self.connections.len() && !found
            invariant
                self.connections@ == old(self).connections@,
                i <= self.connections.len(),
                found ==> i < self.connections.len() && self.connections@[i as int] == conn_id,
                !found ==> forall|j: int| 0 <= j < i ==> self.connections@[j] != conn_id,
            decreases (self.connections.len() - i) * 2 + (if found { 0int } else { 1int }),
        {
            if self.connections[i] == conn_id {
                found = true;
            } else {
                i = i + 1;
            }
        }
        if found {
            proof {
                lemma_remove_no_dup_set(self.connections@, i as int);
            }
            self.connections.remove(i);
        } else {
            proof {
                assert(self.connections@.to_set() =~= self.connections@.to_set().remove(conn_id));
            }
        }
        self.drop_matching(None, Some(conn_id));
        proof {
            assert(self.connections@.to_set() == old(self)@.connections.remove(conn_id));
            assert forall|k: int| 0 <= k < self.memberships@.len() implies self.connections@.contains(
                #[trigger] self.memberships@[k].connection,
            ) && views(self.channels@).contains(self.memberships@[k].channel@) by {
                let mv = membership_view(self.memberships@[k]);
                assert(membership_views(self.memberships@)[k] == mv);
                assert(self@.memberships.contains(mv));
                assert(old(self)@.memberships.contains(mv));
                let j = choose|j: int|
                    0 <= j < membership_views(old(self).memberships@).len() && membership_views(
                        old(self).memberships@,
                    )[j] == mv;
                assert(old(self).memberships@[j].connection == mv.1);
                assert(old(self).connections@.contains(mv.1));
                assert(mv.1 != conn_id);
                assert(self.connections@.to_set().contains(mv.1));
            }
            assert(self.connections@.no_duplicates());
            assert(views(self.channels@).no_duplicates());
            assert(views(self.channels@).contains(default_channel()));
            assert(self.wf());
            assert(self@ =~= old(self)@.remove_connection(conn_id));
        }
    }

    /// Removes each of `conn_ids` in turn (such as those a delivery found gone).
    pub fn remove_connections(&mut self, conn_ids: &Vec<ConnectionId>)
        requires
            old(self).wf(),
        ensures
            final(self).wf(),
            final(self)@ == old(self)@.remove_connections(conn_ids@),
    {
        let mut i: usize = 0;
        assert(conn_ids@.skip(0) =~= conn_ids@);
        while i < conn_ids.len()
            invariant
                i <= conn_ids.len(),
                self.wf(),
                old(self)@.remove_connections(conn_ids@) == self@.remove_connections(
                    conn_ids@.skip(i as int),
                ),
            decreases conn_ids.len() - i,
        {
            proof {
                assert(conn_ids@.skip(i as int).drop_first() =~= conn_ids@.skip(i + 1));
            }
            self.remove_connection(conn_ids[i]);
            i = i + 1;
        }
        proof {
            assert(conn_ids@.skip(i as int) =~= Seq::<ConnectionId>::empty());
        }
    }

    /// Creates a channel, unless it already exists.
    pub fn create_channel(&mut self, channel_id: &str)
        requires
            old(self).wf(),
        ensures
            final(self).wf(),
            final(self)@ == old(self)@.create_channel(channel_id@),
    {
        let key = channel_id.to_owned();
        if !self.has_channel(&key) {
            let ghost before = views(self.channels@);
            self.channels.push(key);
            proof {
                assert(views(self.channels@) =~= before.push(channel_id@));
                lemma_push_set(before, channel_id@);
                assert forall|a: int, b: int|
                    0 <= a < views(self.channels@).len() && 0 <= b < views(self.channels@).len()
                        && a != b implies views(self.channels@)[a] != views(self.channels@)[b] by {
                    if a < before.len() && b < before.len() {
                    } else if a == before.len() {
                        assert(!before.to_set().contains(before[b]) || before[b] != channel_id@);
                    } else {
                        assert(!before.to_set().contains(before[a]) || before[a] != channel_id@);
                    }
                }
                assert(views(self.channels@).contains(default_channel())) by {
                    let k = choose|k: int| 0 <= k < before.len() && before[k] == default_channel();
                    assert(views(self.channels@)[k] == default_channel());
                }
                assert forall|i: int| 0 <= i < self.memberships@.len() implies self.connections@.contains(
                    #[trigger] self.memberships@[i].connection,
                ) && views(self.channels@).contains(self.memberships@[i].channel@) by {
                    assert(self.memberships@[i] == old(self).memberships@[i]);
                    assert(old(self).connections@.contains(old(self).memberships@[i].connection));
                    assert(before.contains(old(self).memberships@[i].channel@));
                    let k = choose|k: int|
                        0 <= k < before.len() && before[k] == self.memberships@[i].channel@;
                    assert(views(self.channels@)[k] == before[k]);
                }
                assert(self@ =~= old(self)@.create_channel(channel_id@));
            }
        } else {
            proof {
                assert(old(self)@.channels.insert(channel_id@) =~= old(self)@.channels);
            }
        }
    }

    /// Removes a channel and all its memberships; the default channel cannot be removed.
    pub fn remove_channel(&mut self, channel_id: &str) -> (r: Result<(), MessagingError>)
        requires
            old(self).wf(),
        ensures
            final(self).wf(),
            final(self)@ == old(self)@.remove_channel(channel_id@).0,
            outcome(r) == old(self)@.remove_channel(channel_id@).1,
    {
        let key = channel_id.to_owned();
        let default = DEFAULT_CHANNEL_ID.to_owned();
        if key == default {
            return Err(MessagingError::CannotRemoveDefaultChannel);
        }
        let mut i: usize = 0;
        let mut found = false;
        while i < self.channels.len() && !found
            invariant
                self.channels@ == old(self).channels@,
                i <= self.channels.len(),
                found ==> i < self.channels.len() && self.channels@[i as int]@ == key@,
                !found ==> forall|j: int| 0 <= j < i ==> self.channels@[j]@ != key@,
            decreases (self.channels.len() - i) * 2 + (if found { 0int } else { 1int }),
        {
            if self.channels[i] == key {
                found = true;
            } else {
                i = i + 1;
            }
        }
        let ghost before = views(self.channels@);
        if found {
            proof {
                lemma_remove_no_dup_set(before, i as int);
                assert(before[i as int] == key@);
            }
            self.channels.remove(i);
            proof {
                assert(views(self.channels@) =~= before.remove(i as int));
                assert(views(self.channels@).contains(default_channel())) by {
                    let k = choose|k: int| 0 <= k < before.len() && before[k] == default_channel();
                    if k < i {
                        assert(views(self.channels@)[k] == default_channel());
                    } else {
                        assert(k != i);
                        assert(views(self.channels@)[k - 1] == default_channel());
                    }
                }
            }
        } else {
            proof {
                assert forall|k: int| 0 <= k < before.len() implies before[k] != key@ by {
                    assert(before[k] == self.channels@[k]@);
                }
                assert(before.to_set() =~= before.to_set().remove(key@));
            }
        }
        self.drop_matching(Some(&key), None);
        proof {
            assert(views(self.channels@).to_set() == old(self)@.channels.remove(channel_id@));
            assert forall|k: int| 0 <= k < self.memberships@.len() implies self.connections@.contains(
                #[trigger] self.memberships@[k].connection,
            ) && views(self.channels@).contains(self.memberships@[k].channel@) by {
                let mv = membership_view(self.memberships@[k]);
                assert(membership_views(self.memberships@)[k] == mv);
                assert(self@.memberships.contains(mv));
                assert(old(self)@.memberships.contains(mv));
                let j = choose|j: int|
                    0 <= j < membership_views(old(self).memberships@).len() && membership_views(
                        old(self).memberships@,
                    )[j] == mv;
                assert(old(self).memberships@[j].channel@ == mv.0);
                assert(views(old(self).channels@).contains(mv.0));
                assert(mv.0 != channel_id@);
                assert(views(self.channels@).to_set().contains(mv.0));
            }
            assert(self@ =~= old(self)@.remove_channel(channel_id@).0);
        }
        Ok(())
    }

    /// Makes `conn_id` a member of `channel_id`; both must exist.
    pub fn join_channel(&mut self, conn_id: ConnectionId, channel_id: &str) -> (r: Result<
        (),
        MessagingError,
    >)
        requires
            old(self).wf(),
        ensures
            final(self).wf(),
            final(self)@ == old(self)@.join_channel(conn_id, channel_id@).0,
            outcome(r) == old(self)@.join_channel(conn_id, channel_id@).1,
    {
        if !self.has_connection(conn_id) {
            return Err(MessagingError::ConnectionNotFound { conn_id });
        }
        let key = channel_id.to_owned();
        if !self.has_channel(&key) {
            return Err(MessagingError::ChannelNotFound { channel_id: key });
        }
        if !self.has_membership(&key, conn_id) {
            let ghost before = membership_views(self.memberships@);
            self.memberships.push(Membership { channel: key, connection: conn_id });
            proof {
                assert(membership_views(self.memberships@) =~= before.push((channel_id@, conn_id)));
                lemma_push_set(before, (channel_id@, conn_id));
                assert forall|i: int| 0 <= i < self.memberships@.len() implies self.connections@.contains(
                    #[trigger] self.memberships@[i].connection,
                ) && views(self.channels@).contains(self.memberships@[i].channel@) by {
                    if i < before.len() {
                        assert(self.memberships@[i] == old(self).memberships@[i]);
                    } else {
                        assert(self.connections@.to_set().contains(conn_id));
                        assert(views(self.channels@).to_set().contains(channel_id@));
                    }
                }
                assert(self@ =~= old(self)@.join_channel(conn_id, channel_id@).0);
            }
        } else {
            proof {
                assert(old(self)@.memberships.insert((channel_id@, conn_id)) =~= old(
                    self,
                )@.memberships);
            }
        }
        Ok(())
    }

    /// Ends the membership of `conn_id` in `channel_id`; both must exist.
    pub fn leave_channel(&mut self, conn_id: ConnectionId, channel_id: &str) -> (r: Result<
        (),
        MessagingError,
    >)
        requires
            old(self).wf(),
        ensures
            final(self).wf(),
            final(self)@ == old(self)@.leave_channel(conn_id, channel_id@).0,
            outcome(r) == old(self)@.leave_channel(conn_id, channel_id@).1,
    {
        if !self.has_connection(conn_id) {
            return Err(MessagingError::ConnectionNotFound { conn_id });
        }
        let key = channel_id.to_owned();
        if !self.has_channel(&key) {
            return Err(MessagingError::ChannelNotFound { channel_id: key });
        }
        self.drop_matching(Some(&key), Some(conn_id));
        proof {
            assert forall|k: int| 0 <= k < self.memberships@.len() implies self.connections@.contains(
                #[trigger] self.memberships@[k].connection,
            ) && views(self.channels@).contains(self.memberships@[k].channel@) by {
                let mv = membership_view(self.memberships@[k]);
                assert(membership_views(self.memberships@)[k] == mv);
                assert(self@.memberships.contains(mv));
                let j = choose|j: int|
                    0 <= j < membership_views(old(self).memberships@).len() && membership_views(
                        old(self).memberships@,
                    )[j] == mv;
                assert(old(self).memberships@[j].channel@ == mv.0);
                assert(old(self).memberships@[j].connection == mv.1);
            }
            assert(self@ =~= old(self)@.leave_channel(conn_id, channel_id@).0);
        }
        Ok(())
    }

    /// The connections a broadcast to everyone reaches: every connection, once.
    pub fn broadcast(&self) -> (r: Vec<ConnectionId>)
        requires
            self.wf(),
        ensures
            r@.no_duplicates(),
            r@.to_set() == self@.connections,
    {
        let mut r: Vec<ConnectionId> = Vec::new();
        let mut i: usize = 0;
        while i < self.connections.len()
            invariant
                i <= self.connections.len(),
                r@ == self.connections@.take(i as int),
            decreases self.connections.len() - i,
        {
            r.push(self.connections[i]);
            proof {
                assert(r@ =~= self.connections@.take(i + 1));
            }
            i = i + 1;
        }
        proof {
            assert(r@ =~= self.connections@);
        }
        r
    }

    /// The connections a broadcast to `channel_ids` reaches: the members of any of those
    /// channels, each once.
    pub fn broadcast_to_channels(&self, channel_ids: &Vec<String>) -> (r: Vec<ConnectionId>)
        requires
            self.wf(),
        ensures
            r@.no_duplicates(),
            r@.to_set() == self@.reached_by(views(channel_ids@).to_set()),
    {
        let ghost mv = membership_views(self.memberships@);
        let ghost chs = views(channel_ids@).to_set();
        let mut r: Vec<ConnectionId> = Vec::new();
        let mut i: usize = 0;
        while i < self.memberships.len()
            invariant
                mv == membership_views(self.memberships@),
                chs == views(channel_ids@).to_set(),
                i <= self.memberships.len(),
                r@.no_duplicates(),
                forall|c: ConnectionId|
                    r@.contains(c) <==> exists|j: int|
                        0 <= j < i && chs.contains(#[trigger] mv[j].0) && mv[j].1 == c,
            decreases self.memberships.len() - i,
        {
            let hit = contains_text(channel_ids, &self.memberships[i].channel);
            let conn = self.memberships[i].connection;
            let ghost before = r@;
            proof {
                assert(mv[i as int] == (self.memberships@[i as int].channel@, conn));
            }
            if hit && !contains_id(&r, conn) {
                r.push(conn);
                proof {
                    assert forall|c: ConnectionId| r@.contains(c) <==> exists|j: int|
                        0 <= j < i + 1 && chs.contains(#[trigger] mv[j].0) && mv[j].1 == c by {
                        if r@.contains(c) && c != conn {
                            let k = choose|k: int| 0 <= k < r@.len() && r@[k] == c;
                            assert(before[k] == c);
                            assert(before.contains(c));
                        }
                        if c == conn {
                            assert(r@[before.len() as int] == c);
                            assert(chs.contains(mv[i as int].0));
                        }
                        if (exists|j: int| 0 <= j < i + 1 && chs.contains(#[trigger] mv[j].0) && mv[j].1 == c) && c != conn {
                            let j = choose|j: int| 0 <= j < i + 1 && chs.contains(#[trigger] mv[j].0) && mv[j].1 == c;
                            assert(j < i);
                            assert(before.contains(c));
                            let k = choose|k: int| 0 <= k < before.len() && before[k] == c;
                            assert(r@[k] == c);
                        }
                    }
                }
            } else {
                proof {
                    assert forall|c: ConnectionId| r@.contains(c) <==> exists|j: int|
                        0 <= j < i + 1 && chs.contains(#[trigger] mv[j].0) && mv[j].1 == c by {
                        if (exists|j: int| 0 <= j < i + 1 && chs.contains(#[trigger] mv[j].0) && mv[j].1 == c) {
                            let j = choose|j: int| 0 <= j < i + 1 && chs.contains(#[trigger] mv[j].0) && mv[j].1 == c;
                            if j == i {
                                assert(hit);
                                assert(r@.contains(c));
                            }
                        }
                    }
                }
            }
            i = i + 1;
        }
        proof {
            assert forall|c: ConnectionId| r@.to_set().contains(c) <==> self@.reached_by(chs).contains(c) by {
                if r@.contains(c) {
                    let j = choose|j: int| 0 <= j < mv.len() && chs.contains(#[trigger] mv[j].0) && mv[j].1 == c;
                    assert(self@.memberships.contains((mv[j].0, c)));
                }
                if self@.reached_by(chs).contains(c) {
                    let ch = choose|ch: Seq<char>| chs.contains(ch) && #[trigger] self@.memberships.contains((ch, c));
                    let j = choose|j: int| 0 <= j < mv.len() && mv[j] == (ch, c);
                    assert(chs.contains(mv[j].0) && mv[j].1 == c);
                }
            }
            assert(r@.to_set() =~= self@.reached_by(chs));
        }
        r
    }

    /// All channels, in increasing order.
    pub fn all_channels(&self) -> (r: Vec<String>)
        requires
            self.wf(),
        ensures
            strictly_sorted(views(r@)),
            views(r@).to_set() == self@.channels,
    {
        let mut copy: Vec<String> = Vec::new();
        let mut i: usize = 0;
        while i < self.channels.len()
            invariant
                i <= self.channels.len(),
                views(copy@) == views(self.channels@).take(i as int),
            decreases self.channels.len() - i,
        {
            let ghost before = copy@;
            copy.push(self.channels[i].clone());
            proof {
                assert(copy@ =~= before.push(self.channels@[i as int]));
                assert(views(copy@) =~= views(before).push(self.channels@[i as int]@));
                assert(views(copy@) =~= views(self.channels@).take(i + 1));
            }
            i = i + 1;
        }
        proof {
            assert(views(copy@) =~= views(self.channels@));
        }
        sorted_strings(copy)
    }

    /// The channels `conn_id` is a member of, in increasing order; fails for an unknown
    /// connection.
    pub fn channels_for_connection(&self, conn_id: ConnectionId) -> (r: Result<
        Vec<String>,
        MessagingError,
    >)
        requires
            self.wf(),
        ensures
            r is Ok <==> self@.connections.contains(conn_id),
            r matches Ok(v) ==> strictly_sorted(views(v@)) && views(v@).to_set()
                == self@.channels_of(conn_id),
            r matches Err(e) ==> e@ == RoutingFailure::ConnectionNotFound(conn_id),
    {
        if !self.has_connection(conn_id) {
            return Err(MessagingError::ConnectionNotFound { conn_id });
        }
        let ghost mv = membership_views(self.memberships@);
        let mut names: Vec<String> = Vec::new();
        let mut i: usize = 0;
        while i < self.memberships.len()
            invariant
                mv == membership_views(self.memberships@),
                i <= self.memberships.len(),
                views(names@).no_duplicates(),
                forall|ch: Seq<char>|
                    views(names@).contains(ch) <==> exists|j: int|
                        0 <= j < i && #[trigger] mv[j] == (ch, conn_id),
            decreases self.memberships.len() - i,
        {
            let ghost before = views(names@);
            proof {
                assert(mv[i as int] == (self.memberships@[i as int].channel@, self.memberships@[i as int].connection));
            }
            if self.memberships[i].connection == conn_id && !contains_text(&names, &self.memberships[i].channel) {
                let name = self.memberships[i].channel.clone();
                names.push(name);
                proof {
                    let x = mv[i as int].0;
                    assert(views(names@) =~= before.push(x));
                    assert forall|ch: Seq<char>| views(names@).contains(ch) <==> exists|j: int|
                        0 <= j < i + 1 && #[trigger] mv[j] == (ch, conn_id) by {
                        if views(names@).contains(ch) && ch != x {
                            let k = choose|k: int| 0 <= k < views(names@).len() && views(names@)[k] == ch;
                            assert(before[k] == ch);
                            assert(before.contains(ch));
                        }
                        if ch == x {
                            assert(views(names@)[before.len() as int] == ch);
                            assert(mv[i as int] == (ch, conn_id));
                        }
                        if (exists|j: int| 0 <= j < i + 1 && #[trigger] mv[j] == (ch, conn_id)) && ch != x {
                            let j = choose|j: int| 0 <= j < i + 1 && #[trigger] mv[j] == (ch, conn_id);
                            assert(j < i);
                            assert(before.contains(ch));
                            let k = choose|k: int| 0 <= k < before.len() && before[k] == ch;
                            assert(views(names@)[k] == ch);
                        }
                    }
                }
            } else {
                proof {
                    assert forall|ch: Seq<char>| views(names@).contains(ch) <==> exists|j: int|
                        0 <= j < i + 1 && #[trigger] mv[j] == (ch, conn_id) by {
                        if (exists|j: int| 0 <= j < i + 1 && #[trigger] mv[j] == (ch, conn_id)) {
                            let j = choose|j: int| 0 <= j < i + 1 && #[trigger] mv[j] == (ch, conn_id);
                            if j == i {
                                assert(views(names@).contains(ch));
                            }
                        }
                    }
                }
            }
            i = i + 1;
        }
        let r = sorted_strings(names);
        proof {
            assert forall|ch: Seq<char>| views(names@).to_set().contains(ch) <==> self@.channels_of(conn_id).contains(ch) by {
                if self@.memberships.contains((ch, conn_id)) {
                    let j = choose|j: int| 0 <= j < mv.len() && mv[j] == (ch, conn_id);
                    assert(views(names@).contains(ch));
                }
            }
            assert(views(names@).to_set() =~= self@.channels_of(conn_id));
        }
        Ok(r)
    }
}

/// The text of an optional channel name.
pub open spec fn opt_view(channel: Option<&String>) -> Option<Seq<char>> {
    match channel {
        Some(ch) => Some(ch@),
        None => None,
    }
}

/// Whether a membership matches the given channel and connection (`None` matches any).
pub open spec fn matches_filter(
    m: (Seq<char>, ConnectionId),
    channel: Option<Seq<char>>,
    conn_id: Option<ConnectionId>,
) -> bool {
    (channel is None || m.0 == channel->0) && (conn_id is None || m.1 == conn_id->0)
}

} // verus!

verus! {

/// Every routing operation keeps the router's invariant: the default channel exists and every
/// membership joins an existing connection to an existing channel.
pub proof fn law_operations_keep_invariant(st: RouterState, c: ConnectionId, ch: Seq<char>)
    requires
        st.wf(),
    ensures
        st.add_connection(c).0.wf(),
        st.remove_connection(c).wf(),
        st.create_channel(ch).wf(),
        st.remove_channel(ch).0.wf(),
        st.join_channel(c, ch).0.wf(),
        st.leave_channel(c, ch).0.wf(),
{
    assert(st.add_connection(c).0.wf());
    assert(st.remove_connection(c).wf());
    assert(st.remove_channel(ch).0.wf());
}

/// Leaving a channel undoes joining it, for a connection that was not yet a member.
pub proof fn law_leave_undoes_join(st: RouterState, c: ConnectionId, ch: Seq<char>)
    requires
        st.wf(),
        st.connections.contains(c),
        st.channels.contains(ch),
        !st.memberships.contains((ch, c)),
    ensures
        st.join_channel(c, ch).1 is Ok,
        st.join_channel(c, ch).0.leave_channel(c, ch).1 is Ok,
        st.join_channel(c, ch).0.leave_channel(c, ch).0 == st,
{
    assert(st.join_channel(c, ch).0.leave_channel(c, ch).0 =~= st);
}

/// Removing a connection undoes adding it, for a connection that did not exist.
pub proof fn law_remove_undoes_add(st: RouterState, c: ConnectionId)
    requires
        st.wf(),
        !st.connections.contains(c),
    ensures
        st.add_connection(c).1 is Ok,
        st.add_connection(c).0.remove_connection(c) == st,
{
    let after = st.add_connection(c).0.remove_connection(c);
    assert(after.connections =~= st.connections);
    assert forall|m: (Seq<char>, ConnectionId)| after.memberships.contains(m) <==> st.memberships.contains(m) by {
        if st.memberships.contains(m) {
            assert(st.connections.contains(m.1));
        }
    }
    assert(after.memberships =~= st.memberships);
    assert(after =~= st);
}

/// A connection lists a channel exactly when that channel lists the connection.
pub proof fn law_membership_symmetry(st: RouterState, c: ConnectionId, ch: Seq<char>)
    ensures
        st.channels_of(c).contains(ch) <==> st.members(ch).contains(c),
{
}

/// After a successful join the connection is a member of the channel and is reached by a
/// broadcast to it.
pub proof fn law_join_makes_member(st: RouterState, c: ConnectionId, ch: Seq<char>)
    requires
        st.wf(),
        st.connections.contains(c),
        st.channels.contains(ch),
    ensures
        st.join_channel(c, ch).1 is Ok,
        st.join_channel(c, ch).0.channels_of(c).contains(ch),
        st.join_channel(c, ch).0.reached_by(Set::empty().insert(ch)).contains(c),
{
    let after = st.join_channel(c, ch).0;
    assert(after.memberships.contains((ch, c)));
    assert(Set::<Seq<char>>::empty().insert(ch).contains(ch));
}

/// A removed channel is gone, and no connection is a member of it any more.
pub proof fn law_removed_channel_has_no_members(st: RouterState, ch: Seq<char>, c: ConnectionId)
    requires
        ch != default_channel(),
    ensures
        st.remove_channel(ch).1 is Ok,
        !st.remove_channel(ch).0.channels.contains(ch),
        !st.remove_channel(ch).0.channels_of(c).contains(ch),
{
}

/// A removed connection is gone, is a member of no channel and is reached by no broadcast.
pub proof fn law_removed_connection_unreachable(st: RouterState, c: ConnectionId, chs: Set<Seq<char>>, ch: Seq<char>)
    ensures
        !st.remove_connection(c).connections.contains(c),
        !st.remove_connection(c).members(ch).contains(c),
        !st.remove_connection(c).reached_by(chs).contains(c),
{
}

/// The default channel cannot be removed: the request fails and nothing changes.
pub proof fn law_default_channel_is_kept(st: RouterState)
    ensures
        st.remove_channel(default_channel()).0 == st,
        st.remove_channel(default_channel()).1 == Err::<(), RoutingFailure>(
            RoutingFailure::CannotRemoveDefaultChannel,
        ),
{
}

/// A broadcast to a single channel reaches exactly the members of that channel.
pub proof fn law_channel_broadcast_reaches_members(st: RouterState, ch: Seq<char>)
    ensures
        st.reached_by(Set::empty().insert(ch)) == st.members(ch),
{
    assert forall|c: ConnectionId| st.members(ch).contains(c) implies st.reached_by(Set::empty().insert(ch)).contains(c) by {
        assert(Set::<Seq<char>>::empty().insert(ch).contains(ch));
    }
    assert(st.reached_by(Set::empty().insert(ch)) =~= st.members(ch));
}

/// A new connection is a member of the default channel, and only of it.
pub proof fn law_new_connection_in_default_channel(st: RouterState, c: ConnectionId)
    requires
        st.wf(),
        !st.connections.contains(c),
    ensures
        st.add_connection(c).0.channels_of(c) == Set::<Seq<char>>::empty().insert(default_channel()),
{
    let after = st.add_connection(c).0;
    assert forall|ch: Seq<char>| after.channels_of(c).contains(ch) <==> ch == default_channel() by {
        if st.memberships.contains((ch, c)) {
            assert(st.connections.contains(c));
        }
    }
    assert(after.channels_of(c) =~= Set::<Seq<char>>::empty().insert(default_channel()));
}

} // verus!
