//! The multiplayer relay: what one connection does with each thing that reaches it.
//!
//! A connection joins a room, relays game events and sync requests to everyone in
//! that room, and forwards to its client what the room broadcasts. The sockets,
//! the JSON framing and the room registry live with the caller; this module
//! decides.

use vstd::prelude::*;

verus! {

broadcast use vstd::string::group_string_axioms;

/// The rooms that exist, as answered to `GET /api/rooms`.
pub struct RoomList {
    pub rooms: Vec<String>,
}

impl RoomList {
    /// The list of the given room ids, in the order given.
    pub fn from_ids(ids: Vec<String>) -> (r: RoomList)
        ensures
            r.rooms@ == ids@,
    {
        RoomList { rooms: ids }
    }
}

/// What reached a connection: a message of its client, read and parsed, or a
/// message of its room.
pub enum Incoming {
    /// The client asks to join a room.
    Join { room_id: String, player_id: String },
    /// The client sends a game event, its payload as JSON text.
    Event { sequence_id: u64, data: String },
    /// The client asks its peers for the game state.
    SyncRequest { requestor_id: String },
    /// The client sent text that is not a message of the protocol.
    Malformed { reason: String },
    /// The client closed the connection, or the stream ended.
    Closed,
    /// Anything else the client sent (binary frames, pings).
    Ignored,
    /// The room broadcast a message (already JSON text).
    RoomMessage(String),
    /// This connection fell behind its room by this many messages.
    RoomLagged(u64),
    /// The room's channel closed.
    RoomClosed,
}

/// A message the relay sends, before it is written as JSON.
pub enum Outgoing {
    Welcome { room_id: String },
    Event { sequence_id: u64, data: String },
    SyncRequest { requestor_id: String },
}

/// What the connection does next.
pub enum RelayAction {
    /// Create the room if it does not exist, subscribe to it, and send the client
    /// a welcome message.
    JoinRoom { room_id: String, welcome: Outgoing },
    /// Broadcast a message to every member of the room.
    Broadcast { room_id: String, message: Outgoing },
    /// Send the room's message on to the client, as it came.
    Forward(String),
    /// Log that the client sent a malformed message.
    ReportMalformed(String),
    /// Log that this many messages were skipped.
    ReportLagged(u64),
    /// Close the connection.
    Stop,
    /// Nothing to do.
    Wait,
}

/// One connection's state: the room it joined last, if any.
pub struct Session {
    pub room: Option<String>,
}

/// The value of an outgoing message.
pub enum OutgoingView {
    Welcome { room_id: Seq<char> },
    Event { sequence_id: u64, data: Seq<char> },
    SyncRequest { requestor_id: Seq<char> },
}

/// The value of a relay action.
pub enum RelayActionView {
    JoinRoom { room_id: Seq<char>, welcome: OutgoingView },
    Broadcast { room_id: Seq<char>, message: OutgoingView },
    Forward(Seq<char>),
    ReportMalformed(Seq<char>),
    ReportLagged(u64),
    Stop,
    Wait,
}

impl View for Outgoing {
    type V = OutgoingView;

    open spec fn view(&self) -> OutgoingView {
        match self {
            Outgoing::Welcome { room_id } => OutgoingView::Welcome { room_id: room_id@ },
            Outgoing::Event { sequence_id, data } => OutgoingView::Event {
                sequence_id: *sequence_id,
                data: data@,
            },
            Outgoing::SyncRequest { requestor_id } => OutgoingView::SyncRequest {
                requestor_id: requestor_id@,
            },
        }
    }
}

impl View for RelayAction {
    type V = RelayActionView;

    open spec fn view(&self) -> RelayActionView {
        match self {
            RelayAction::JoinRoom { room_id, welcome } => RelayActionView::JoinRoom {
                room_id: room_id@,
                welcome: welcome@,
            },
            RelayAction::Broadcast { room_id, message } => RelayActionView::Broadcast {
                room_id: room_id@,
                message: message@,
            },
            RelayAction::Forward(m) => RelayActionView::Forward(m@),
            RelayAction::ReportMalformed(m) => RelayActionView::ReportMalformed(m@),
            RelayAction::ReportLagged(n) => RelayActionView::ReportLagged(*n),
            RelayAction::Stop => RelayActionView::Stop,
            RelayAction::Wait => RelayActionView::Wait,
        }
    }
}

/// The room a session is in, as a value.
pub open spec fn room_view(room: Option<String>) -> Option<Seq<char>> {
    match room {
        Some(r) => Some(r@),
        None => None,
    }
}

/// The relay's rule: from the session's room, whether that room still exists, and
/// what came in, the session's next room and the action to take.
///
/// Events and sync requests reach the room only once the connection has joined a
/// room that exists; before that they are dropped.
pub open spec fn relay_step(room: Option<Seq<char>>, room_exists: bool, input: Incoming) -> (
    Option<Seq<char>>,
    RelayActionView,
) {
    match input {
        Incoming::Join { room_id, player_id: _ } => (
            Some(room_id@),
            RelayActionView::JoinRoom {
                room_id: room_id@,
                welcome: OutgoingView::Welcome { room_id: room_id@ },
            },
        ),
        Incoming::Event { sequence_id, data } => (
            room,
            match room {
                Some(r) if room_exists => RelayActionView::Broadcast {
                    room_id: r,
                    message: OutgoingView::Event { sequence_id, data: data@ },
                },
                _ => RelayActionView::Wait,
            },
        ),
        Incoming::SyncRequest { requestor_id } => (
            room,
            match room {
                Some(r) if room_exists => RelayActionView::Broadcast {
                    room_id: r,
                    message: OutgoingView::SyncRequest { requestor_id: requestor_id@ },
                },
                _ => RelayActionView::Wait,
            },
        ),
        Incoming::Malformed { reason } => (room, RelayActionView::ReportMalformed(reason@)),
        Incoming::Closed => (room, RelayActionView::Stop),
        Incoming::Ignored => (room, RelayActionView::Wait),
        Incoming::RoomMessage(m) => (room, RelayActionView::Forward(m@)),
        Incoming::RoomLagged(n) => (room, RelayActionView::ReportLagged(n)),
        Incoming::RoomClosed => (room, RelayActionView::Stop),
    }
}

impl Session {
    /// A connection that has joined no room.
    pub fn new() -> (r: Session)
        ensures
            r.room is None,
    {
        Session { room: None }
    }

    /// Takes one thing that reached the connection and says what to do with it.
    /// `room_exists` tells whether the session's room is still in the registry.
    pub fn handle(&mut self, input: Incoming, room_exists: bool) -> (a: RelayAction)
        ensures
            (room_view(final(self).room), a@) == relay_step(
                room_view(old(self).room),
                room_exists,
                input,
            ),
    {
        match input {
            Incoming::Join { room_id, player_id: _ } => {
                let welcome = Outgoing::Welcome { room_id: room_id.clone() };
                self.room = Some(room_id.clone());
                RelayAction::JoinRoom { room_id, welcome }
            },
            Incoming::Event { sequence_id, data } => match &self.room {
                Some(r) if room_exists => RelayAction::Broadcast {
                    room_id: r.clone(),
                    message: Outgoing::Event { sequence_id, data },
                },
                _ => RelayAction::Wait,
            },
            Incoming::SyncRequest { requestor_id } => match &self.room {
                Some(r) if room_exists => RelayAction::Broadcast {
                    room_id: r.clone(),
                    message: Outgoing::SyncRequest { requestor_id },
                },
                _ => RelayAction::Wait,
            },
            Incoming::Malformed { reason } => RelayAction::ReportMalformed(reason),
            Incoming::Closed => RelayAction::Stop,
            Incoming::Ignored => RelayAction::Wait,
            Incoming::RoomMessage(m) => RelayAction::Forward(m),
            Incoming::RoomLagged(n) => RelayAction::ReportLagged(n),
            Incoming::RoomClosed => RelayAction::Stop,
        }
    }
}

/// Once a connection has joined a room that exists, every event it sends is
/// broadcast to that room unchanged, and its room stays the same.
pub proof fn lemma_events_reach_room(room: Seq<char>, sequence_id: u64, data: String)
    ensures
        relay_step(Some(room), true, Incoming::Event { sequence_id, data }) == (
            Some(room),
            RelayActionView::Broadcast {
                room_id: room,
                message: OutgoingView::Event { sequence_id, data: data@ },
            },
        ),
{
}

/// Before a connection joins a room, nothing it sends is broadcast, and only a join
/// gives it a room.
pub proof fn lemma_no_relay_before_join(room_exists: bool, input: Incoming)
    ensures
        !(relay_step(None, room_exists, input).1 is Broadcast),
        relay_step(None, room_exists, input).0 is Some <==> input is Join,
{
}

/// The room a session is in after taking `inputs` in order, from `room`; `exists[i]`
/// tells whether its room existed when it took `inputs[i]`.
pub open spec fn room_after(room: Option<Seq<char>>, exists: Seq<bool>, inputs: Seq<Incoming>) -> Option<Seq<char>>
    decreases inputs.len(),
{
    if inputs.len() == 0 {
        room
    } else {
        relay_step(
            room_after(room, exists, inputs.drop_last()),
            exists[inputs.len() - 1],
            inputs.last(),
        ).0
    }
}

/// The room named by the last join among `inputs`, if any.
pub open spec fn last_join(inputs: Seq<Incoming>) -> Option<Seq<char>>
    decreases inputs.len(),
{
    if inputs.len() == 0 {
        None
    } else {
        match inputs.last() {
            Incoming::Join { room_id, player_id: _ } => Some(room_id@),
            _ => last_join(inputs.drop_last()),
        }
    }
}

/// A connection is always in the room it joined last, whatever else it received in
/// between, and in no room before its first join.
pub proof fn lemma_room_is_last_join(exists: Seq<bool>, inputs: Seq<Incoming>)
    ensures
        room_after(None, exists, inputs) == last_join(inputs),
    decreases inputs.len(),
{
    if inputs.len() > 0 {
        lemma_room_is_last_join(exists, inputs.drop_last());
    }
}

} // verus!
