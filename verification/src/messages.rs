//! The wire message schema: tagged envelopes for both directions.
//!
//! Frames on the socket are JSON text; the library works with the envelopes
//! as values and leaves the JSON plumbing to the unverified shell around it.

use vstd::prelude::*;

use crate::types::{ActorData, ActorView};

verus! {

/// Client to hub: join the named session.
pub struct JoinSessionMessage {
    /// The command tag, `join_session`.
    pub event_type: String,
    /// The session to join.
    pub session_id: String,
}

/// Client to hub: leave the current session.
pub struct LeaveSessionMessage {
    /// The command tag, `leave_session`.
    pub event_type: String,
}

/// Both directions: one actor snapshot, relayed to all co-session members.
pub struct ActorSyncMessage {
    /// The tag, `actor_sync`.
    pub event_type: String,
    /// The originating client.
    pub sender_id: String,
    /// The snapshot payload.
    pub data: ActorData,
}

/// Both directions: an opaque tagged payload, relayed to all co-session
/// members.
pub struct RegisteredMessage {
    /// The tag, `registered_message`.
    pub event_type: String,
    /// The originating client.
    pub sender_id: String,
    /// The application-defined message tag.
    pub message_id: String,
    /// The opaque payload bytes.
    pub data: Vec<u8>,
}

/// Hub to client: every event the inbound demultiplexer understands.
pub enum ServerMessage {
    /// The first frame on a fresh connection, carrying the assigned id.
    Welcome {
        /// The hub-assigned client id.
        player_id: String,
    },
    /// The authoritative membership of a session after a change.
    SessionMembers {
        /// The client whose action changed the membership.
        player_id: String,
        /// The session whose membership changed.
        session_id: String,
        /// The full member list after the change.
        members: Vec<String>,
    },
    /// A relayed actor snapshot.
    ActorSync(ActorSyncMessage),
    /// A relayed opaque payload.
    RegisteredMessage(RegisteredMessage),
}

/// The mathematical image of an inbound event.
#[allow(inconsistent_fields)]
pub enum ServerMessageView {
    /// The first frame on a fresh connection.
    Welcome {
        /// The hub-assigned client id.
        player_id: Seq<char>,
    },
    /// The authoritative membership of a session after a change.
    SessionMembers {
        /// The client whose action changed the membership.
        player_id: Seq<char>,
        /// The session whose membership changed.
        session_id: Seq<char>,
        /// The full member list after the change.
        members: Seq<Seq<char>>,
    },
    /// A relayed actor snapshot.
    ActorSync {
        /// The originating client.
        sender_id: Seq<char>,
        /// The snapshot payload.
        data: ActorView,
    },
    /// A relayed opaque payload.
    Registered {
        /// The originating client.
        sender_id: Seq<char>,
        /// The application-defined message tag.
        message_id: Seq<char>,
        /// The opaque payload bytes.
        data: Seq<u8>,
    },
}

impl View for ServerMessage {
    type V = ServerMessageView;

    open spec fn view(&self) -> ServerMessageView {
        match self {
            ServerMessage::Welcome { player_id } => ServerMessageView::Welcome {
                player_id: player_id@,
            },
            ServerMessage::SessionMembers { player_id, session_id, members } => {
                ServerMessageView::SessionMembers {
                    player_id: player_id@,
                    session_id: session_id@,
                    members: members.deep_view(),
                }
            },
            ServerMessage::ActorSync(m) => ServerMessageView::ActorSync {
                sender_id: m.sender_id@,
                data: m.data@,
            },
            ServerMessage::RegisteredMessage(m) => ServerMessageView::Registered {
                sender_id: m.sender_id@,
                message_id: m.message_id@,
                data: m.data@,
            },
        }
    }
}

} // verus!
