//! The realtime service's decisions: which command a subject carries, what a command does to
//! the router, and how a websocket connection is registered and unregistered.
use crate::game_commands::{
    BROADCAST_SUBJECT, CHANNEL_BROADCAST_SUBJECT, CHANNEL_CREATE_SUBJECT, CHANNEL_JOIN_SUBJECT,
    CHANNEL_LEAVE_SUBJECT, CHANNEL_REMOVE_SUBJECT,
};
use crate::router::{
    default_channel, outcome, ConnectionId, MessageRouter, MessagingError, RouterState,
    RoutingFailure,
};
use crate::text::{concat, owned, strictly_sorted, uuid_text, uuid_to_string, views};
use vstd::prelude::*;

verus! {

/// The durable consumer that reads commands.
pub const COMMANDS_CONSUMER: &'static str = "realtime-service";

/// The prefix of a user's own channel; the user id follows it.
pub const USER_CHANNEL_PREFIX: &'static str = "user:";

/// The name of the command consumer.
pub fn consumer_name() -> (r: &'static str)
    ensures
        r@ == COMMANDS_CONSUMER@,
{
    COMMANDS_CONSUMER
}

/// The kinds of command the realtime service carries out.
#[derive(Debug, PartialEq, Eq, Structural, Clone, Copy)]
pub enum CommandKind {
    Broadcast,
    BroadcastChannels,
    CreateChannel,
    RemoveChannel,
    JoinChannel,
    LeaveChannel,
}

/// The kind of command a subject carries.
pub open spec fn kind_of(subject: Seq<char>) -> Option<CommandKind> {
    if subject == BROADCAST_SUBJECT@ {
        Some(CommandKind::Broadcast)
    } else if subject == CHANNEL_BROADCAST_SUBJECT@ {
        Some(CommandKind::BroadcastChannels)
    } else if subject == CHANNEL_CREATE_SUBJECT@ {
        Some(CommandKind::CreateChannel)
    } else if subject == CHANNEL_REMOVE_SUBJECT@ {
        Some(CommandKind::RemoveChannel)
    } else if subject == CHANNEL_JOIN_SUBJECT@ {
        Some(CommandKind::JoinChannel)
    } else if subject == CHANNEL_LEAVE_SUBJECT@ {
        Some(CommandKind::LeaveChannel)
    } else {
        None
    }
}

/// The kind of command a subject carries; other subjects are ignored.
pub fn command_kind(subject: &str) -> (r: Option<CommandKind>)
    ensures
        r == kind_of(subject@),
{
    let s = owned(subject);
    if s == owned(BROADCAST_SUBJECT) {
        Some(CommandKind::Broadcast)
    } else if s == owned(CHANNEL_BROADCAST_SUBJECT) {
        Some(CommandKind::BroadcastChannels)
    } else if s == owned(CHANNEL_CREATE_SUBJECT) {
        Some(CommandKind::CreateChannel)
    } else if s == owned(CHANNEL_REMOVE_SUBJECT) {
        Some(CommandKind::RemoveChannel)
    } else if s == owned(CHANNEL_JOIN_SUBJECT) {
        Some(CommandKind::JoinChannel)
    } else if s == owned(CHANNEL_LEAVE_SUBJECT) {
        Some(CommandKind::LeaveChannel)
    } else {
        None
    }
}

/// A command for the realtime service.
pub enum RealtimeCommand {
    Broadcast { payload: Vec<u8> },
    BroadcastChannels { channels: Vec<String>, payload: Vec<u8> },
    CreateChannel { channel: String },
    RemoveChannel { channel: String },
    JoinChannel { connection_id: ConnectionId, channel: String },
    LeaveChannel { connection_id: ConnectionId, channel: String },
}

/// The outcome of a command, without what it delivers.
pub open spec fn command_outcome(r: Result<Option<Outgoing>, MessagingError>) -> Result<(), RoutingFailure> {
    match r {
        Ok(_) => Ok(()),
        Err(e) => Err(e@),
    }
}

/// A message to deliver: to whom, and what.
#[derive(Debug)]
pub struct Outgoing {
    pub recipients: Vec<ConnectionId>,
    pub payload: Vec<u8>,
}

impl RealtimeCommand {
    /// What the command does to the router, and its outcome.
    pub open spec fn effect(self, router: RouterState) -> (RouterState, Result<(), RoutingFailure>) {
        match self {
            RealtimeCommand::Broadcast { .. } => (router, Ok(())),
            RealtimeCommand::BroadcastChannels { .. } => (router, Ok(())),
            RealtimeCommand::CreateChannel { channel } => (router.create_channel(channel@), Ok(())),
            RealtimeCommand::RemoveChannel { channel } => router.remove_channel(channel@),
            RealtimeCommand::JoinChannel { connection_id, channel } => router.join_channel(
                connection_id,
                channel@,
            ),
            RealtimeCommand::LeaveChannel { connection_id, channel } => router.leave_channel(
                connection_id,
                channel@,
            ),
        }
    }

    /// The connections a broadcast command reaches.
    pub open spec fn reach(self, router: RouterState) -> Option<(Set<ConnectionId>, Seq<u8>)> {
        match self {
            RealtimeCommand::Broadcast { payload } => Some((router.connections, payload@)),
            RealtimeCommand::BroadcastChannels { channels, payload } => Some(
                (router.reached_by(views(channels@).to_set()), payload@),
            ),
            _ => None,
        }
    }

    /// Carries out the command on the router; a broadcast answers which connections to send
    /// its payload to.
    pub fn apply(self, message_router: &mut MessageRouter) -> (r: Result<
        Option<Outgoing>,
        MessagingError,
    >)
        requires
            old(message_router).wf(),
        ensures
            final(message_router).wf(),
            final(message_router)@ == self.effect(old(message_router)@).0,
            command_outcome(r) == self.effect(old(message_router)@).1,
            match self {
                RealtimeCommand::Broadcast { .. } => final(message_router)@ == old(message_router)@,
                RealtimeCommand::BroadcastChannels { .. } => final(message_router)@ == old(
                    message_router,
                )@,
                RealtimeCommand::CreateChannel { channel } => final(message_router)@ == old(
                    message_router,
                )@.create_channel(channel@),
                RealtimeCommand::RemoveChannel { channel } => final(message_router)@ == old(
                    message_router,
                )@.remove_channel(channel@).0,
                RealtimeCommand::JoinChannel { connection_id, channel } => final(message_router)@
                    == old(message_router)@.join_channel(connection_id, channel@).0,
                RealtimeCommand::LeaveChannel { connection_id, channel } => final(message_router)@
                    == old(message_router)@.leave_channel(connection_id, channel@).0,
            },
            r matches Ok(o) ==> match self.reach(old(message_router)@) {
                Some((to, payload)) => o matches Some(out) && out.recipients@.no_duplicates()
                    && out.recipients@.to_set() == to && out.payload@ == payload,
                None => o is None,
            },
    {
        match self {
            RealtimeCommand::Broadcast { payload } => {
                let recipients = message_router.broadcast();
                Ok(Some(Outgoing { recipients, payload }))
            },
            RealtimeCommand::BroadcastChannels { channels, payload } => {
                let recipients = message_router.broadcast_to_channels(&channels);
                Ok(Some(Outgoing { recipients, payload }))
            },
            RealtimeCommand::CreateChannel { channel } => {
                message_router.create_channel(channel.as_str());
                Ok(None)
            },
            RealtimeCommand::RemoveChannel { channel } => {
                match message_router.remove_channel(channel.as_str()) {
                    Ok(()) => Ok(None),
                    Err(e) => Err(e),
                }
            },
            RealtimeCommand::JoinChannel { connection_id, channel } => {
                match message_router.join_channel(connection_id, channel.as_str()) {
                    Ok(()) => Ok(None),
                    Err(e) => Err(e),
                }
            },
            RealtimeCommand::LeaveChannel { connection_id, channel } => {
                match message_router.leave_channel(connection_id, channel.as_str()) {
                    Ok(()) => Ok(None),
                    Err(e) => Err(e),
                }
            },
        }
    }
}

/// Each command does to the router what it names, and nothing else: a broadcast changes
/// nothing; creating a channel adds it; removing a channel other than the default one deletes
/// it with every membership in it (the default channel is never removed); joining and leaving
/// add and drop one membership when the connection and the channel exist, and are refused
/// otherwise.
pub proof fn law_commands_do_what_they_name(cmd: RealtimeCommand, st: RouterState)
    requires
        st.wf(),
    ensures
        ({
            let after = cmd.effect(st).0;
            let res = cmd.effect(st).1;
            match cmd {
                RealtimeCommand::Broadcast { .. } => after == st && res is Ok,
                RealtimeCommand::BroadcastChannels { .. } => after == st && res is Ok,
                RealtimeCommand::CreateChannel { channel } => {
                    &&& after.channels == st.channels.insert(channel@)
                    &&& after.connections == st.connections
                    &&& after.memberships == st.memberships
                    &&& res is Ok
                },
                RealtimeCommand::RemoveChannel { channel } => if channel@ == default_channel() {
                    after == st && res == Err::<(), RoutingFailure>(
                        RoutingFailure::CannotRemoveDefaultChannel,
                    )
                } else {
                    &&& !after.channels.contains(channel@)
                    &&& after.channels == st.channels.remove(channel@)
                    &&& after.connections == st.connections
                    &&& forall|c: ConnectionId| !after.memberships.contains((channel@, c))
                    &&& forall|m: (Seq<char>, ConnectionId)|
                        after.memberships.contains(m) <==> (st.memberships.contains(m) && m.0
                            != channel@)
                    &&& res is Ok
                },
                RealtimeCommand::JoinChannel { connection_id, channel } => if st.connections.contains(
                    connection_id,
                ) && st.channels.contains(channel@) {
                    &&& after.memberships == st.memberships.insert((channel@, connection_id))
                    &&& after.channels == st.channels
                    &&& after.connections == st.connections
                    &&& res is Ok
                } else {
                    after == st && res is Err
                },
                RealtimeCommand::LeaveChannel { connection_id, channel } => if st.connections.contains(
                    connection_id,
                ) && st.channels.contains(channel@) {
                    &&& after.memberships == st.memberships.remove((channel@, connection_id))
                    &&& after.channels == st.channels
                    &&& after.connections == st.connections
                    &&& res is Ok
                } else {
                    after == st && res is Err
                },
            }
        }),
{
    match cmd {
        RealtimeCommand::RemoveChannel { channel } => {
            if channel@ != default_channel() {
                let after = cmd.effect(st).0;
                assert forall|m: (Seq<char>, ConnectionId)|
                    after.memberships.contains(m) <==> (st.memberships.contains(m) && m.0 != channel@) by {
                }
            }
        },
        _ => {},
    }
}

/// The name of a user's own channel.
pub open spec fn user_channel_name(user_id: u128) -> Seq<char> {
    USER_CHANNEL_PREFIX@ + uuid_text(user_id)
}

/// The name of a user's own channel, such as `user:0f1e...`.
pub fn user_channel_id(user_id: u128) -> (r: String)
    ensures
        r@ == user_channel_name(user_id),
{
    concat(USER_CHANNEL_PREFIX, &uuid_to_string(user_id))
}

/// Registering a websocket connection: the connection is added (and so joins the default
/// channel), its user channel is created and it joins that channel.
pub open spec fn register_spec(router: RouterState, conn: ConnectionId) -> (RouterState, Result<(), RoutingFailure>) {
    let added = router.add_connection(conn);
    if added.1 is Err {
        added
    } else {
        let ch = user_channel_name(conn);
        let created = added.0.create_channel(ch);
        (created.join_channel(conn, ch).0, Ok(()))
    }
}

/// Registers the connection of a websocket: adds it, creates its user channel and joins it.
/// If the join fails the connection is removed again.
pub fn register_connection(message_router: &mut MessageRouter, conn_id: ConnectionId) -> (r: Result<
    (),
    MessagingError,
>)
    requires
        old(message_router).wf(),
    ensures
        final(message_router).wf(),
        final(message_router)@ == register_spec(old(message_router)@, conn_id).0,
        outcome(r) == register_spec(old(message_router)@, conn_id).1,
{
    match message_router.add_connection(conn_id) {
        Ok(()) => {},
        Err(e) => return Err(e),
    }
    let user_channel = user_channel_id(conn_id);
    message_router.create_channel(user_channel.as_str());
    match message_router.join_channel(conn_id, user_channel.as_str()) {
        Ok(()) => Ok(()),
        Err(e) => {
            message_router.remove_connection(conn_id);
            Err(e)
        },
    }
}

/// Unregistering a websocket connection: the connection is removed, then its user channel.
pub open spec fn unregister_spec(router: RouterState, conn: ConnectionId) -> (RouterState, Result<(), RoutingFailure>) {
    router.remove_connection(conn).remove_channel(user_channel_name(conn))
}

/// Unregisters the connection of a closed websocket: removes it and its user channel.
pub fn unregister_connection(message_router: &mut MessageRouter, conn_id: ConnectionId) -> (r: Result<
    (),
    MessagingError,
>)
    requires
        old(message_router).wf(),
    ensures
        final(message_router).wf(),
        final(message_router)@ == unregister_spec(old(message_router)@, conn_id).0,
        outcome(r) == unregister_spec(old(message_router)@, conn_id).1,
{
    message_router.remove_connection(conn_id);
    let user_channel = user_channel_id(conn_id);
    message_router.remove_channel(user_channel.as_str())
}

/// The event that carries a client's message to the game: the sender, its channels, all
/// channels, and the message.
#[derive(Debug)]
pub struct RealtimeMessageEvent {
    pub connection_id: ConnectionId,
    pub channels: Vec<String>,
    pub all_channels: Vec<String>,
    pub payload: Vec<u8>,
}

/// The event for a message a client sent; fails when the connection is unknown.
pub fn client_message_event(message_router: &MessageRouter, conn_id: ConnectionId, payload: Vec<u8>) -> (r: Result<
    RealtimeMessageEvent,
    MessagingError,
>)
    requires
        message_router.wf(),
    ensures
        r is Ok <==> message_router@.connections.contains(conn_id),
        r matches Ok(ev) ==> ev.connection_id == conn_id && ev.payload@ == payload@
            && strictly_sorted(views(ev.channels@)) && views(ev.channels@).to_set()
            == message_router@.channels_of(conn_id) && strictly_sorted(views(ev.all_channels@))
            && views(ev.all_channels@).to_set() == message_router@.channels,
        r matches Err(e) ==> e@ == RoutingFailure::ConnectionNotFound(conn_id),
{
    let channels = match message_router.channels_for_connection(conn_id) {
        Ok(channels) => channels,
        Err(e) => return Err(e),
    };
    let all_channels = message_router.all_channels();
    Ok(RealtimeMessageEvent { connection_id: conn_id, channels, all_channels, payload })
}

} // verus!
