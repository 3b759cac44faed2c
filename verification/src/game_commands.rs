//! What a game script may ask for: commands to the realtime service (broadcasts and channel
//! management), queued in order, and a key-value state that lasts between events.
use crate::events::MATCH_CHANNEL_READY_SUBJECT;
use crate::json::{
    json_byte_array, json_string, json_string_array, json_string_literal, push_byte_array,
    push_string_array, utf8_bytes,
};
use crate::text::{concat, is_blank, owned, trim, trim_spec};
use vstd::prelude::*;
use vstd::string::*;

verus! {

pub const BROADCAST_SUBJECT: &'static str = "commands.broadcast";

pub const CHANNEL_BROADCAST_SUBJECT: &'static str = "commands.broadcast.channels";

pub const CHANNEL_CREATE_SUBJECT: &'static str = "commands.channels.create";

pub const CHANNEL_REMOVE_SUBJECT: &'static str = "commands.channels.remove";

pub const CHANNEL_JOIN_SUBJECT: &'static str = "commands.channels.join";

pub const CHANNEL_LEAVE_SUBJECT: &'static str = "commands.channels.leave";

/// The subject of the events that carry a client's message.
pub const REALTIME_MESSAGE_EVENT_SUBJECT: &'static str = "events.realtime.message";

pub const ON_MESSAGE_HOOK: &'static str = "on_message";

pub const ON_MATCH_CHANNEL_READY_HOOK: &'static str = "on_match_channel_ready";

pub const CHANNEL_ID_LABEL: &'static str = "channel id";

pub const CONNECTION_ID_LABEL: &'static str = "connection id";

pub const CHANNEL_FIELD_OPEN: &'static str = "{\"channel\":";

pub const CONNECTION_FIELD: &'static str = ",\"connection_id\":";

pub const CHANNELS_FIELD_OPEN: &'static str = "{\"channels\":";

pub const PAYLOAD_FIELD: &'static str = ",\"payload\":";

pub const OBJECT_CLOSE: &'static str = "}";

/// The script hook that handles events of `subject`, if any.
pub open spec fn hook_for(subject: Seq<char>) -> Option<Seq<char>> {
    if subject == REALTIME_MESSAGE_EVENT_SUBJECT@ {
        Some(ON_MESSAGE_HOOK@)
    } else if subject == MATCH_CHANNEL_READY_SUBJECT@ {
        Some(ON_MATCH_CHANNEL_READY_HOOK@)
    } else {
        None
    }
}

/// The script hook that handles events of `subject`, if any.
pub fn subject_to_hook(subject: &str) -> (r: Option<&'static str>)
    ensures
        match r {
            Some(h) => hook_for(subject@) == Some(h@),
            None => hook_for(subject@) is None,
        },
{
    let s = owned(subject);
    if s == owned(REALTIME_MESSAGE_EVENT_SUBJECT) {
        Some(ON_MESSAGE_HOOK)
    } else if s == owned(MATCH_CHANNEL_READY_SUBJECT) {
        Some(ON_MATCH_CHANNEL_READY_HOOK)
    } else {
        None
    }
}

/// A command for the realtime service: a subject and its payload.
#[derive(Debug)]
pub struct Command {
    pub subject: String,
    pub payload: Vec<u8>,
}

/// The content of a command.
pub struct CommandView {
    pub subject: Seq<char>,
    pub payload: Seq<u8>,
}

impl View for Command {
    type V = CommandView;

    open spec fn view(&self) -> CommandView {
        CommandView { subject: self.subject@, payload: self.payload@ }
    }
}

/// Why a script's request was refused.
#[derive(Debug)]
pub enum ScriptError {
    /// An element of a channel list is not a non-empty string.
    InvalidChannelId,
    /// An id is empty or white space; `label` names it.
    EmptyId { label: String },
    /// The message could not be turned into a payload.
    Payload { message: String },
}

pub const MUST_BE_NON_EMPTY: &'static str = " must be a non-empty string";

pub const INVALID_CHANNEL_ID_MESSAGE: &'static str = "channel id must be a non-empty string";

impl ScriptError {
    /// The text the script sees: `channel id must be a non-empty string`,
    /// `{label} must be a non-empty string`, or the payload failure.
    pub fn to_string(&self) -> (r: String)
        ensures
            match self {
                ScriptError::InvalidChannelId => r@ == INVALID_CHANNEL_ID_MESSAGE@,
                ScriptError::EmptyId { label } => r@ == label@ + MUST_BE_NON_EMPTY@,
                ScriptError::Payload { message } => r@ == message@,
            },
    {
        match self {
            ScriptError::InvalidChannelId => owned(INVALID_CHANNEL_ID_MESSAGE),
            ScriptError::EmptyId { label } => concat(label.as_str(), MUST_BE_NON_EMPTY),
            ScriptError::Payload { message } => message.clone(),
        }
    }
}

/// `e` reports an empty id labelled `label`.
pub open spec fn empty_id_error(e: ScriptError, label: Seq<char>) -> bool {
    e matches ScriptError::EmptyId { label: l } && l@ == label
}

/// `e` reports the payload failure `message`.
pub open spec fn payload_error(e: ScriptError, message: Seq<char>) -> bool {
    e matches ScriptError::Payload { message: m } && m@ == message
}

/// The JSON payload that names a channel.
pub open spec fn channel_payload(channel: Seq<char>) -> Seq<u8> {
    vstd::utf8::encode_utf8(CHANNEL_FIELD_OPEN@ + json_string(channel) + OBJECT_CLOSE@)
}

/// The JSON payload that names a connection and a channel.
pub open spec fn connection_channel_payload(connection: Seq<char>, channel: Seq<char>) -> Seq<u8> {
    vstd::utf8::encode_utf8(
        CHANNEL_FIELD_OPEN@ + json_string(channel) + CONNECTION_FIELD@ + json_string(connection)
            + OBJECT_CLOSE@,
    )
}

/// The JSON payload of a broadcast to channels.
pub open spec fn channel_broadcast_payload(channels: Seq<Seq<char>>, payload: Seq<u8>) -> Seq<u8> {
    vstd::utf8::encode_utf8(
        CHANNELS_FIELD_OPEN@ + json_string_array(channels) + PAYLOAD_FIELD@ + json_byte_array(
            payload,
        ) + OBJECT_CLOSE@,
    )
}

/// An id given by a script: white space around it is dropped, and it must not be empty.
pub fn validate_id(value: &str, label: &str) -> (r: Result<String, ScriptError>)
    ensures
        match r {
            Ok(id) => trim_spec(value@).len() > 0 && id@ == trim_spec(value@),
            Err(e) => trim_spec(value@).len() == 0 && empty_id_error(e, label@),
        },
{
    if is_blank(value) {
        return Err(ScriptError::EmptyId { label: owned(label) });
    }
    Ok(owned(trim(value)))
}

/// The channel ids of a list given by a script, where `None` stands for an element that is
/// not a string: every element must be a non-empty string.
pub fn channel_ids_from_array(channels: &Vec<Option<String>>) -> (r: Result<Vec<String>, ScriptError>)
    ensures
        match r {
            Ok(ids) => (forall|i: int|
                0 <= i < channels@.len() ==> #[trigger] channels@[i] is Some && channels@[i]->0@.len()
                    > 0) && ids@.len() == channels@.len() && forall|i: int|
                0 <= i < ids@.len() ==> #[trigger] ids@[i]@ == channels@[i]->0@,
            Err(e) => (exists|i: int|
                0 <= i < channels@.len() && (#[trigger] channels@[i] is None || channels@[i]->0@.len()
                    == 0)) && e is InvalidChannelId,
        },
{
    let mut ids: Vec<String> = Vec::new();
    let mut i: usize = 0;
    while i < channels.len()
        invariant
            i <= channels.len(),
            ids@.len() == i,
            forall|k: int| 0 <= k < i ==> #[trigger] channels@[k] is Some && channels@[k]->0@.len() > 0,
            forall|k: int| 0 <= k < i ==> #[trigger] ids@[k]@ == channels@[k]->0@,
        decreases channels.len() - i,
    {
        match &channels[i] {
            Some(channel) => {
                if channel.as_str().is_empty() {
                    return Err(ScriptError::InvalidChannelId);
                }
                ids.push(channel.clone());
            },
            None => {
                return Err(ScriptError::InvalidChannelId);
            },
        }
        i = i + 1;
    }
    Ok(ids)
}

/// The state kept for a game between events: a value per key.
pub struct StateStore<V> {
    entries: Vec<(String, V)>,
}

impl<V> View for StateStore<V> {
    type V = Map<Seq<char>, V>;

    closed spec fn view(&self) -> Map<Seq<char>, V> {
        Map::new(
            |k: Seq<char>| exists|i: int| 0 <= i < self.entries@.len() && #[trigger] self.entries@[i].0@ == k,
            |k: Seq<char>|
                self.entries@[choose|i: int|
                    0 <= i < self.entries@.len() && #[trigger] self.entries@[i].0@ == k].1,
        )
    }
}

impl<V> StateStore<V> {
    /// The representation invariant: each key is stored once.
    pub closed spec fn wf(&self) -> bool {
        forall|i: int, j: int|
            0 <= i < j < self.entries@.len() ==> (#[trigger] self.entries@[i]).0@ != (
            #[trigger] self.entries@[j]).0@
    }

    /// An empty state.
    pub fn new() -> (r: StateStore<V>)
        ensures
            r.wf(),
            r@ == Map::<Seq<char>, V>::empty(),
    {
        let r = StateStore { entries: Vec::new() };
        assert(r@ =~= Map::<Seq<char>, V>::empty());
        r
    }

    fn find(&self, key: &String) -> (r: Option<usize>)
        requires
            self.wf(),
        ensures
            match r {
                Some(i) => i < self.entries@.len() && self.entries@[i as int].0@ == key@,
                None => !self@.contains_key(key@),
            },
    {
        let mut i: usize = 0;
        while i < self.entries.len()
            invariant
                i <= self.entries.len(),
                forall|j: int| 0 <= j < i ==> self.entries@[j].0@ != key@,
            decreases self.entries.len() - i,
        {
            if self.entries[i].0 == *key {
                return Some(i);
            }
            i = i + 1;
        }
        None
    }

    proof fn lemma_lookup(&self, i: int)
        requires
            self.wf(),
            0 <= i < self.entries@.len(),
        ensures
            self@.contains_key(self.entries@[i].0@),
            self@[self.entries@[i].0@] == self.entries@[i].1,
    {
        let k = self.entries@[i].0@;
        assert(self@.dom().contains(k));
        let j = choose|j: int| 0 <= j < self.entries@.len() && #[trigger] self.entries@[j].0@ == k;
        if j != i {
            if j < i {
                assert(self.entries@[j].0@ != self.entries@[i].0@);
            } else {
                assert(self.entries@[i].0@ != self.entries@[j].0@);
            }
        }
    }

    /// The value kept under `key`.
    pub fn get(&self, key: &str) -> (r: Option<&V>)
        requires
            self.wf(),
        ensures
            match r {
                Some(v) => self@.contains_key(key@) && *v == self@[key@],
                None => !self@.contains_key(key@),
            },
    {
        let k = owned(key);
        match self.find(&k) {
            Some(i) => {
                proof {
                    self.lemma_lookup(i as int);
                }
                Some(&self.entries[i].1)
            },
            None => None,
        }
    }

    /// Keeps `value` under `key`, replacing what was there.
    pub fn put(&mut self, key: &str, value: V)
        requires
            old(self).wf(),
        ensures
            final(self).wf(),
            final(self)@ == old(self)@.insert(key@, value),
    {
        let k = owned(key);
        match self.find(&k) {
            Some(i) => {
                self.entries.set(i, (k, value));
                proof {
                    assert forall|a: int, b: int| 0 <= a < b < self.entries@.len() implies (
                        #[trigger] self.entries@[a]).0@ != (#[trigger] self.entries@[b]).0@ by {
                        if a != i && b != i {
                            assert(self.entries@[a] == old(self).entries@[a]);
                            assert(self.entries@[b] == old(self).entries@[b]);
                        } else if a == i {
                            assert(self.entries@[b] == old(self).entries@[b]);
                            assert(old(self).entries@[a].0@ != old(self).entries@[b].0@);
                        } else {
                            assert(self.entries@[a] == old(self).entries@[a]);
                            assert(old(self).entries@[a].0@ != old(self).entries@[b].0@);
                        }
                    }
                    assert forall|q: Seq<char>| #[trigger] self@.contains_key(q) == old(self)@.insert(key@, value).contains_key(q)
                        && (self@.contains_key(q) ==> self@[q] == old(self)@.insert(key@, value)[q]) by {
                        if self@.contains_key(q) {
                            let j = choose|j: int| 0 <= j < self.entries@.len() && #[trigger] self.entries@[j].0@ == q;
                            self.lemma_lookup(j);
                            if j != i {
                                assert(self.entries@[j] == old(self).entries@[j]);
                                old(self).lemma_lookup(j);
                            }
                        }
                        if old(self)@.insert(key@, value).contains_key(q) {
                            if q == key@ {
                                assert(self.entries@[i as int].0@ == q);
                            } else {
                                let j = choose|j: int| 0 <= j < old(self).entries@.len() && #[trigger] old(self).entries@[j].0@ == q;
                                assert(j != i);
                                assert(self.entries@[j] == old(self).entries@[j]);
                            }
                        }
                    }
                    assert(self@ =~= old(self)@.insert(key@, value));
                }
            },
            None => {
                let ghost n = self.entries@.len();
                self.entries.push((k, value));
                proof {
                    assert forall|a: int, b: int| 0 <= a < b < self.entries@.len() implies (
                        #[trigger] self.entries@[a]).0@ != (#[trigger] self.entries@[b]).0@ by {
                        assert(self.entries@[a] == old(self).entries@[a]);
                        if b < n {
                            assert(self.entries@[b] == old(self).entries@[b]);
                        } else {
                            assert(old(self)@.dom().contains(old(self).entries@[a].0@));
                        }
                    }
                    assert forall|q: Seq<char>| #[trigger] self@.contains_key(q) == old(self)@.insert(key@, value).contains_key(q)
                        && (self@.contains_key(q) ==> self@[q] == old(self)@.insert(key@, value)[q]) by {
                        if self@.contains_key(q) {
                            let j = choose|j: int| 0 <= j < self.entries@.len() && #[trigger] self.entries@[j].0@ == q;
                            self.lemma_lookup(j);
                            if j < n {
                                assert(self.entries@[j] == old(self).entries@[j]);
                                old(self).lemma_lookup(j);
                            }
                        }
                        if old(self)@.insert(key@, value).contains_key(q) {
                            if q == key@ {
                                assert(self.entries@[n as int].0@ == q);
                            } else {
                                let j = choose|j: int| 0 <= j < old(self).entries@.len() && #[trigger] old(self).entries@[j].0@ == q;
                                assert(self.entries@[j] == old(self).entries@[j]);
                            }
                        }
                    }
                    assert(self@ =~= old(self)@.insert(key@, value));
                }
            },
        }
    }
}

/// The queue of commands a script issues while it handles one event, and the game's state.
pub struct CommandApi<V> {
    commands: Vec<Command>,
    state: StateStore<V>,
}

impl<V> CommandApi<V> {
    /// The commands queued so far, in order.
    pub closed spec fn commands(&self) -> Seq<CommandView> {
        self.commands@.map_values(|c: Command| c@)
    }

    /// The game's state.
    pub closed spec fn state(&self) -> Map<Seq<char>, V> {
        self.state@
    }

    pub closed spec fn wf(&self) -> bool {
        self.state.wf()
    }

    /// An empty queue over the given state.
    pub fn new(state: StateStore<V>) -> (r: CommandApi<V>)
        requires
            state.wf(),
        ensures
            r.wf(),
            r.commands() == Seq::<CommandView>::empty(),
            r.state() == state@,
    {
        let r = CommandApi { commands: Vec::new(), state };
        assert(r.commands() =~= Seq::<CommandView>::empty());
        r
    }

    fn push_command(&mut self, subject: &str, payload: Vec<u8>)
        ensures
            final(self).commands() == old(self).commands().push(
                CommandView { subject: subject@, payload: payload@ },
            ),
            final(self).state == old(self).state,
    {
        self.commands.push(Command { subject: owned(subject), payload });
        proof {
            assert(self.commands() =~= old(self).commands().push(
                CommandView { subject: subject@, payload: payload@ },
            ));
        }
    }

    /// Queues a broadcast of `payload` to every connection.
    pub fn broadcast(&mut self, payload: Vec<u8>)
        requires
            old(self).wf(),
        ensures
            final(self).wf(),
            final(self).state() == old(self).state(),
            final(self).commands() == old(self).commands().push(
                CommandView { subject: BROADCAST_SUBJECT@, payload: payload@ },
            ),
    {
        self.push_command(BROADCAST_SUBJECT, payload);
    }

    /// Queues a broadcast of the message to the given channels. The channel list is checked
    /// first, then the message's conversion to a payload.
    pub fn broadcast_to_channels(
        &mut self,
        payload: Result<Vec<u8>, String>,
        channels: &Vec<Option<String>>,
    ) -> (r: Result<(), ScriptError>)
        requires
            old(self).wf(),
        ensures
            final(self).wf(),
            final(self).state() == old(self).state(),
            r is Ok <==> payload is Ok && forall|i: int|
                0 <= i < channels@.len() ==> #[trigger] channels@[i] is Some && channels@[i]->0@.len()
                    > 0,
            r is Ok ==> final(self).commands() == old(self).commands().push(
                CommandView {
                    subject: CHANNEL_BROADCAST_SUBJECT@,
                    payload: channel_broadcast_payload(
                        channels@.map_values(|c: Option<String>| c->0@),
                        payload->Ok_0@,
                    ),
                },
            ),
            r is Err ==> final(self).commands() == old(self).commands(),
            r matches Err(e) ==> if exists|i: int|
                0 <= i < channels@.len() && (#[trigger] channels@[i] is None || channels@[i]->0@.len()
                    == 0) {
                e is InvalidChannelId
            } else {
                payload matches Err(m) && payload_error(e, m@)
            },
    {
        let ids = match channel_ids_from_array(channels) {
            Ok(ids) => ids,
            Err(e) => return Err(e),
        };
        let bytes = match payload {
            Ok(bytes) => bytes,
            Err(message) => return Err(ScriptError::Payload { message }),
        };
        let mut text = owned(CHANNELS_FIELD_OPEN);
        push_string_array(&mut text, &ids);
        text.append(PAYLOAD_FIELD);
        push_byte_array(&mut text, &bytes);
        text.append(OBJECT_CLOSE);
        proof {
            assert(ids@.map_values(|s: String| s@) =~= channels@.map_values(|c: Option<String>| c->0@));
            assert(text@ =~= CHANNELS_FIELD_OPEN@ + json_string_array(
                channels@.map_values(|c: Option<String>| c->0@),
            ) + PAYLOAD_FIELD@ + json_byte_array(bytes@) + OBJECT_CLOSE@);
        }
        self.push_command(CHANNEL_BROADCAST_SUBJECT, utf8_bytes(&text));
        Ok(())
    }

    fn push_channel_command(&mut self, subject: &str, channel: &String)
        ensures
            final(self).state == old(self).state,
            final(self).commands() == old(self).commands().push(
                CommandView { subject: subject@, payload: channel_payload(channel@) },
            ),
    {
        let mut text = owned(CHANNEL_FIELD_OPEN);
        text.append(json_string_literal(channel.as_str()).as_str());
        text.append(OBJECT_CLOSE);
        proof {
            assert(text@ =~= CHANNEL_FIELD_OPEN@ + json_string(channel@) + OBJECT_CLOSE@);
        }
        self.push_command(subject, utf8_bytes(&text));
    }

    fn push_connection_command(&mut self, subject: &str, connection_id: &String, channel: &String)
        ensures
            final(self).state == old(self).state,
            final(self).commands() == old(self).commands().push(
                CommandView {
                    subject: subject@,
                    payload: connection_channel_payload(connection_id@, channel@),
                },
            ),
    {
        let mut text = owned(CHANNEL_FIELD_OPEN);
        text.append(json_string_literal(channel.as_str()).as_str());
        text.append(CONNECTION_FIELD);
        text.append(json_string_literal(connection_id.as_str()).as_str());
        text.append(OBJECT_CLOSE);
        proof {
            assert(text@ =~= CHANNEL_FIELD_OPEN@ + json_string(channel@) + CONNECTION_FIELD@
                + json_string(connection_id@) + OBJECT_CLOSE@);
        }
        self.push_command(subject, utf8_bytes(&text));
    }

    /// Queues the creation of a channel.
    pub fn create_channel(&mut self, channel: &str) -> (r: Result<(), ScriptError>)
        requires
            old(self).wf(),
        ensures
            final(self).wf(),
            final(self).state() == old(self).state(),
            r is Ok <==> trim_spec(channel@).len() > 0,
            r is Ok ==> final(self).commands() == old(self).commands().push(
                CommandView {
                    subject: CHANNEL_CREATE_SUBJECT@,
                    payload: channel_payload(trim_spec(channel@)),
                },
            ),
            r matches Err(e) ==> final(self).commands() == old(self).commands() && empty_id_error(e, CHANNEL_ID_LABEL@),
    {
        let channel = match validate_id(channel, CHANNEL_ID_LABEL) {
            Ok(c) => c,
            Err(e) => return Err(e),
        };
        self.push_channel_command(CHANNEL_CREATE_SUBJECT, &channel);
        Ok(())
    }

    /// Queues the removal of a channel.
    pub fn remove_channel(&mut self, channel: &str) -> (r: Result<(), ScriptError>)
        requires
            old(self).wf(),
        ensures
            final(self).wf(),
            final(self).state() == old(self).state(),
            r is Ok <==> trim_spec(channel@).len() > 0,
            r is Ok ==> final(self).commands() == old(self).commands().push(
                CommandView {
                    subject: CHANNEL_REMOVE_SUBJECT@,
                    payload: channel_payload(trim_spec(channel@)),
                },
            ),
            r matches Err(e) ==> final(self).commands() == old(self).commands() && empty_id_error(e, CHANNEL_ID_LABEL@),
    {
        let channel = match validate_id(channel, CHANNEL_ID_LABEL) {
            Ok(c) => c,
            Err(e) => return Err(e),
        };
        self.push_channel_command(CHANNEL_REMOVE_SUBJECT, &channel);
        Ok(())
    }

    /// Queues making a connection a member of a channel.
    pub fn add_to_channel(&mut self, connection_id: &str, channel: &str) -> (r: Result<(), ScriptError>)
        requires
            old(self).wf(),
        ensures
            final(self).wf(),
            final(self).state() == old(self).state(),
            r is Ok <==> trim_spec(connection_id@).len() > 0 && trim_spec(channel@).len() > 0,
            r is Ok ==> final(self).commands() == old(self).commands().push(
                CommandView {
                    subject: CHANNEL_JOIN_SUBJECT@,
                    payload: connection_channel_payload(
                        trim_spec(connection_id@),
                        trim_spec(channel@),
                    ),
                },
            ),
            r matches Err(e) ==> final(self).commands() == old(self).commands() && empty_id_error(e, if trim_spec(connection_id@).len() == 0 {
                CONNECTION_ID_LABEL@
            } else {
                CHANNEL_ID_LABEL@
            }),
    {
        let connection_id = match validate_id(connection_id, CONNECTION_ID_LABEL) {
            Ok(c) => c,
            Err(e) => return Err(e),
        };
        let channel = match validate_id(channel, CHANNEL_ID_LABEL) {
            Ok(c) => c,
            Err(e) => return Err(e),
        };
        self.push_connection_command(CHANNEL_JOIN_SUBJECT, &connection_id, &channel);
        Ok(())
    }

    /// Queues ending a connection's membership in a channel.
    pub fn remove_from_channel(&mut self, connection_id: &str, channel: &str) -> (r: Result<(), ScriptError>)
        requires
            old(self).wf(),
        ensures
            final(self).wf(),
            final(self).state() == old(self).state(),
            r is Ok <==> trim_spec(connection_id@).len() > 0 && trim_spec(channel@).len() > 0,
            r is Ok ==> final(self).commands() == old(self).commands().push(
                CommandView {
                    subject: CHANNEL_LEAVE_SUBJECT@,
                    payload: connection_channel_payload(
                        trim_spec(connection_id@),
                        trim_spec(channel@),
                    ),
                },
            ),
            r matches Err(e) ==> final(self).commands() == old(self).commands() && empty_id_error(e, if trim_spec(connection_id@).len() == 0 {
                CONNECTION_ID_LABEL@
            } else {
                CHANNEL_ID_LABEL@
            }),
    {
        let connection_id = match validate_id(connection_id, CONNECTION_ID_LABEL) {
            Ok(c) => c,
            Err(e) => return Err(e),
        };
        let channel = match validate_id(channel, CHANNEL_ID_LABEL) {
            Ok(c) => c,
            Err(e) => return Err(e),
        };
        self.push_connection_command(CHANNEL_LEAVE_SUBJECT, &connection_id, &channel);
        Ok(())
    }

    /// Keeps `value` under `key` in the game's state.
    pub fn put(&mut self, key: &str, value: V)
        requires
            old(self).wf(),
        ensures
            final(self).wf(),
            final(self).commands() == old(self).commands(),
            final(self).state() == old(self).state().insert(key@, value),
    {
        self.state.put(key, value);
    }

    /// The value kept under `key` in the game's state.
    pub fn get(&self, key: &str) -> (r: Option<&V>)
        requires
            self.wf(),
        ensures
            match r {
                Some(v) => self.state().contains_key(key@) && *v == self.state()[key@],
                None => !self.state().contains_key(key@),
            },
    {
        self.state.get(key)
    }

    /// Hands over the queued commands, leaving the queue empty.
    pub fn take_commands(&mut self) -> (r: Vec<Command>)
        requires
            old(self).wf(),
        ensures
            final(self).wf(),
            final(self).state() == old(self).state(),
            final(self).commands() == Seq::<CommandView>::empty(),
            r@.map_values(|c: Command| c@) == old(self).commands(),
    {
        let mut taken: Vec<Command> = Vec::new();
        std::mem::swap(&mut taken, &mut self.commands);
        proof {
            assert(self.commands() =~= Seq::<CommandView>::empty());
        }
        taken
    }

    /// Ends the queue and hands back the game's state.
    pub fn into_state(self) -> (r: StateStore<V>)
        requires
            self.wf(),
        ensures
            r.wf(),
            r@ == self.state(),
    {
        self.state
    }
}

/// What a script puts in the game's state, a later read of the same key gets back, and the
/// other keys keep their values.
pub proof fn law_state_read_after_write<V>(state: Map<Seq<char>, V>, key: Seq<char>, value: V, other: Seq<char>)
    ensures
        state.insert(key, value).contains_key(key),
        state.insert(key, value)[key] == value,
        other != key ==> (state.insert(key, value).contains_key(other) == state.contains_key(other)),
        other != key && state.contains_key(other) ==> state.insert(key, value)[other] == state[other],
{
}

} // verus!
