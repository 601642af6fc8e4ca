//! The client session core: connection lifecycle, outgoing commands, and the
//! inbound-event demultiplexer.
//!
//! The core is a pure state machine. Operations that the original system
//! sends over the socket return the composed envelope to the caller, which
//! performs the transmission; inbound frames reach the core as parsed
//! `ServerMessage` values. Every transition is stated against `ClientView`,
//! the mathematical image of the state.

use vstd::prelude::*;

use crate::assoc::{
    assoc_lookup, assoc_update, contains_string, find_key, lemma_filter_push, lemma_lookup_absent,
    lemma_lookup_at, lemma_update_absent, lemma_update_at,
};
use crate::messages::{
    ActorSyncMessage, JoinSessionMessage, LeaveSessionMessage, RegisteredMessage, ServerMessage,
    ServerMessageView,
};
use crate::types::{ActorData, RemoteActorData, RemoteActorView};
use crate::ClientError;

verus! {

/// The mathematical image of the client session core.
pub struct ClientView {
    /// Whether a connection is established.
    pub connected: bool,
    /// The hub-assigned id, empty until the welcome frame arrives.
    pub client_id: Seq<char>,
    /// The session named in the most recent outbound join, if any.
    pub current_session: Option<Seq<char>>,
    /// The membership delivered by the hub's most recent update.
    pub members: Seq<Seq<char>>,
    /// The latest snapshot of each peer, keyed by client id.
    pub actors: Seq<(Seq<char>, RemoteActorView)>,
    /// Queued opaque messages, in arrival order.
    pub queue: Seq<(Seq<char>, Seq<u8>)>,
}

/// The state of a core that has never been connected, or was just connected:
/// nothing remembered, `connected` as given.
pub open spec fn client_init(connected: bool) -> ClientView {
    ClientView {
        connected,
        client_id: Seq::empty(),
        current_session: None,
        members: Seq::empty(),
        actors: Seq::empty(),
        queue: Seq::empty(),
    }
}

/// Joining only records the session optimistically; membership is assigned
/// by the hub's next update.
pub open spec fn client_join(v: ClientView, s: Seq<char>) -> ClientView {
    ClientView { current_session: Some(s), ..v }
}

/// Disconnecting clears everything but the assigned id, which the next
/// connect resets.
pub open spec fn client_disconnect(v: ClientView) -> ClientView {
    ClientView {
        connected: false,
        current_session: None,
        members: Seq::empty(),
        actors: Seq::empty(),
        queue: Seq::empty(),
        ..v
    }
}

/// Holds of the snapshot entries that a membership update keeps: an entry
/// goes away exactly when its id was in the old membership but not the new.
pub open spec fn survives(oldm: Seq<Seq<char>>, newm: Seq<Seq<char>>) -> spec_fn(
    (Seq<char>, RemoteActorView),
) -> bool {
    |p: (Seq<char>, RemoteActorView)| !(oldm.contains(p.0) && !newm.contains(p.0))
}

/// The inbound handler: how one parsed event changes the state.
pub open spec fn client_apply(v: ClientView, e: ServerMessageView, now: u64) -> ClientView {
    match e {
        ServerMessageView::Welcome { player_id } => ClientView { client_id: player_id, ..v },
        ServerMessageView::SessionMembers { player_id, session_id, members } => ClientView {
            current_session: Some(session_id),
            members,
            actors: v.actors.filter(survives(v.members, members)),
            ..v
        },
        ServerMessageView::ActorSync { sender_id, data } => {
            if sender_id == v.client_id {
                v
            } else {
                ClientView {
                    actors: assoc_update(
                        v.actors,
                        sender_id,
                        RemoteActorView { id: sender_id, data, last_update: now },
                    ),
                    ..v
                }
            }
        },
        ServerMessageView::Registered { sender_id, message_id, data } => {
            if sender_id == v.client_id {
                v
            } else {
                ClientView { queue: v.queue.push((message_id, data)), ..v }
            }
        },
    }
}

/// A snapshot relayed back to its own sender changes nothing.
pub proof fn lemma_self_actor_sync_ignored(v: ClientView, e: ServerMessageView, now: u64)
    requires
        e matches ServerMessageView::ActorSync { sender_id, data } && sender_id == v.client_id,
    ensures
        client_apply(v, e, now) == v,
{
}

/// After a membership update, no id that dropped out of the membership still
/// has a snapshot entry.
pub proof fn lemma_members_update_prunes(
    v: ClientView,
    e: ServerMessageView,
    now: u64,
    id: Seq<char>,
)
    requires
        e matches ServerMessageView::SessionMembers { player_id, session_id, members } && {
            &&& v.members.contains(id)
            &&& !members.contains(id)
        },
    ensures
        assoc_lookup(client_apply(v, e, now).actors, id) is None,
{
    match e {
        ServerMessageView::SessionMembers { player_id, session_id, members } => {
            let pred = survives(v.members, members);
            let kept = v.actors.filter(pred);
            assert forall|j: int| 0 <= j < kept.len() implies kept[j].0 != id by {
                v.actors.lemma_filter_pred(pred, j);
            }
            lemma_lookup_absent(kept, id);
        },
        _ => {},
    }
}

/// An opaque message from a peer is queued exactly as it arrived, a
/// zero-length payload included.
pub proof fn lemma_registered_message_queued(
    v: ClientView,
    sender: Seq<char>,
    mid: Seq<char>,
    data: Seq<u8>,
    now: u64,
)
    requires
        sender != v.client_id,
    ensures
        client_apply(
            v,
            ServerMessageView::Registered { sender_id: sender, message_id: mid, data },
            now,
        ).queue == v.queue.push((mid, data)),
{
}

/// A second disconnect finds the state a disconnect leaves and changes
/// nothing more; disconnecting never fails.
pub proof fn lemma_disconnect_idempotent(v: ClientView)
    ensures
        client_disconnect(client_disconnect(v)) == client_disconnect(v),
{
}

/// Copies the snapshot entries that the membership change keeps.
fn prune_actors(
    actors: &Vec<(String, RemoteActorData)>,
    old_members: &Vec<String>,
    new_members: &Vec<String>,
) -> (r: Vec<(String, RemoteActorData)>)
    ensures
        r.deep_view() == actors.deep_view().filter(
            survives(old_members.deep_view(), new_members.deep_view()),
        ),
{
    let ghost pred = survives(old_members.deep_view(), new_members.deep_view());
    let n = actors.len();
    let mut out: Vec<(String, RemoteActorData)> = Vec::new();
    let mut i: usize = 0;
    proof {
        assert(actors.deep_view().take(0) =~= Seq::<(Seq<char>, RemoteActorView)>::empty());
        reveal(Seq::filter);
    }
    while i < n
        invariant
            i <= n,
            n == actors@.len(),
            out.deep_view() == actors.deep_view().take(i as int).filter(pred),
            pred == survives(old_members.deep_view(), new_members.deep_view()),
        decreases n - i,
    {
        proof {
            assert(actors.deep_view().take(i + 1) =~= actors.deep_view().take(i as int).push(
                actors.deep_view()[i as int],
            ));
            lemma_filter_push(
                actors.deep_view().take(i as int),
                pred,
                actors.deep_view()[i as int],
            );
        }
        let was_member = contains_string(old_members, &actors[i].0);
        let still_member = contains_string(new_members, &actors[i].0);
        if !(was_member && !still_member) {
            let entry = (
                actors[i].0.clone(),
                RemoteActorData {
                    id: actors[i].1.id.clone(),
                    data: actors[i].1.data,
                    last_update: actors[i].1.last_update,
                },
            );
            out.push(entry);
            assert(out.deep_view() =~= actors.deep_view().take(i + 1).filter(pred));
        } else {
            assert(out.deep_view() =~= actors.deep_view().take(i + 1).filter(pred));
        }
        i = i + 1;
    }
    proof {
        assert(actors.deep_view().take(n as int) =~= actors.deep_view());
    }
    out
}

/// The client session core: one per process in the original system, here a
/// plain value guarded by the caller.
pub struct NetworkSyncModule {
    /// Whether a connection is established.
    pub connected: bool,
    /// The hub-assigned id, empty until the welcome frame arrives.
    pub client_id: String,
    /// The session named in the most recent outbound join, if any.
    pub current_session_id: Option<String>,
    /// The membership delivered by the hub's most recent update.
    pub session_members: Vec<String>,
    /// The latest snapshot of each peer, keyed by client id.
    pub remote_actors: Vec<(String, RemoteActorData)>,
    /// Queued opaque messages, in arrival order; the head sits at index 0.
    pub message_queue: Vec<(String, Vec<u8>)>,
}

impl View for NetworkSyncModule {
    type V = ClientView;

    open spec fn view(&self) -> ClientView {
        ClientView {
            connected: self.connected,
            client_id: self.client_id@,
            current_session: match self.current_session_id {
                Some(s) => Some(s@),
                None => None,
            },
            members: self.session_members.deep_view(),
            actors: self.remote_actors.deep_view(),
            queue: self.message_queue.deep_view(),
        }
    }
}

impl NetworkSyncModule {
    /// A core that has never been connected.
    pub fn new() -> (r: NetworkSyncModule)
        ensures
            r@ == client_init(false),
    {
        let r = NetworkSyncModule {
            connected: false,
            client_id: String::new(),
            current_session_id: None,
            session_members: Vec::new(),
            remote_actors: Vec::new(),
            message_queue: Vec::new(),
        };
        proof {
            assert(r@.members =~= client_init(false).members);
            assert(r@.actors =~= client_init(false).actors);
            assert(r@.queue =~= client_init(false).queue);
        }
        r
    }

    /// Records that the transport came up. The caller dials first and calls
    /// this only on success; a connect over a live connection is refused.
    /// Connecting anew resets everything remembered from an earlier
    /// connection.
    pub fn connect(&mut self) -> (r: Result<(), ClientError>)
        ensures
            match r {
                Ok(_) => !old(self)@.connected && final(self)@ == client_init(true),
                Err(e) => {
                    &&& e == ClientError::AlreadyConnected
                    &&& old(self)@.connected
                    &&& final(self)@ == old(self)@
                },
            },
    {
        if self.connected {
            return Err(ClientError::AlreadyConnected);
        }
        self.connected = true;
        self.client_id = String::new();
        self.current_session_id = None;
        self.session_members = Vec::new();
        self.remote_actors = Vec::new();
        self.message_queue = Vec::new();
        proof {
            assert(self@.members =~= client_init(true).members);
            assert(self@.actors =~= client_init(true).actors);
            assert(self@.queue =~= client_init(true).queue);
        }
        Ok(())
    }

    /// Tears the session state down. Succeeds whether or not a connection is
    /// up; returns whether the caller still has a transport to close.
    pub fn disconnect(&mut self) -> (was_connected: bool)
        ensures
            was_connected == old(self)@.connected,
            final(self)@ == if old(self)@.connected {
                client_disconnect(old(self)@)
            } else {
                old(self)@
            },
    {
        if !self.connected {
            return false;
        }
        self.connected = false;
        self.current_session_id = None;
        self.session_members = Vec::new();
        self.remote_actors = Vec::new();
        self.message_queue = Vec::new();
        proof {
            assert(self@.members =~= client_disconnect(old(self)@).members);
            assert(self@.actors =~= client_disconnect(old(self)@).actors);
            assert(self@.queue =~= client_disconnect(old(self)@).queue);
        }
        true
    }

    /// Composes the join command and records the session optimistically;
    /// authoritative membership arrives with the hub's next update.
    pub fn join_session(&mut self, session_id: &str) -> (r: Result<JoinSessionMessage, ClientError>)
        ensures
            match r {
                Ok(m) => {
                    &&& old(self)@.connected
                    &&& final(self)@ == client_join(old(self)@, session_id@)
                    &&& m.event_type@ == "join_session"@
                    &&& m.session_id@ == session_id@
                },
                Err(e) => {
                    &&& e == ClientError::NotConnected
                    &&& !old(self)@.connected
                    &&& final(self)@ == old(self)@
                },
            },
    {
        if !self.connected {
            return Err(ClientError::NotConnected);
        }
        self.current_session_id = Some(session_id.to_owned());
        Ok(
            JoinSessionMessage {
                event_type: "join_session".to_owned(),
                session_id: session_id.to_owned(),
            },
        )
    }

    /// Composes the leave command if a session is recorded. The recorded
    /// session stays as it is until the hub's next membership update or a
    /// disconnect clears it.
    pub fn leave_session(&mut self) -> (r: Result<Option<LeaveSessionMessage>, ClientError>)
        ensures
            final(self)@ == old(self)@,
            match r {
                Ok(opt) => old(self)@.connected && (match opt {
                    Some(m) => old(self)@.current_session is Some && m.event_type@
                        == "leave_session"@,
                    None => old(self)@.current_session is None,
                }),
                Err(e) => e == ClientError::NotConnected && !old(self)@.connected,
            },
    {
        if !self.connected {
            return Err(ClientError::NotConnected);
        }
        match &self.current_session_id {
            Some(_) => Ok(Some(LeaveSessionMessage { event_type: "leave_session".to_owned() })),
            None => Ok(None),
        }
    }

    /// Composes an actor snapshot envelope carrying this client's id.
    pub fn send_actor_sync(&self, data: &ActorData) -> (r: Result<ActorSyncMessage, ClientError>)
        ensures
            match r {
                Ok(m) => {
                    &&& self@.connected
                    &&& m.event_type@ == "actor_sync"@
                    &&& m.sender_id@ == self@.client_id
                    &&& m.data@ == data@
                },
                Err(e) => e == ClientError::NotConnected && !self@.connected,
            },
    {
        if !self.connected {
            return Err(ClientError::NotConnected);
        }
        Ok(
            ActorSyncMessage {
                event_type: "actor_sync".to_owned(),
                sender_id: self.client_id.clone(),
                data: *data,
            },
        )
    }

    /// Composes an opaque message envelope, silently composing nothing when
    /// no session is recorded. A zero-length payload is accepted.
    pub fn send_message(&self, message_id: &str, data: Vec<u8>) -> (r: Result<
        Option<RegisteredMessage>,
        ClientError,
    >)
        ensures
            match r {
                Ok(opt) => self@.connected && (match opt {
                    Some(m) => {
                        &&& self@.current_session is Some
                        &&& m.event_type@ == "registered_message"@
                        &&& m.sender_id@ == self@.client_id
                        &&& m.message_id@ == message_id@
                        &&& m.data@ == data@
                    },
                    None => self@.current_session is None,
                }),
                Err(e) => e == ClientError::NotConnected && !self@.connected,
            },
    {
        if !self.connected {
            return Err(ClientError::NotConnected);
        }
        match &self.current_session_id {
            Some(_) => Ok(
                Some(
                    RegisteredMessage {
                        event_type: "registered_message".to_owned(),
                        sender_id: self.client_id.clone(),
                        message_id: message_id.to_owned(),
                        data,
                    },
                ),
            ),
            None => Ok(None),
        }
    }

    /// The inbound handler: applies one parsed event, timestamped with the
    /// caller's clock.
    pub fn apply_server_message(&mut self, msg: ServerMessage, now: u64)
        ensures
            final(self)@ == client_apply(old(self)@, msg@, now),
    {
        match msg {
            ServerMessage::Welcome { player_id } => {
                self.client_id = player_id;
            },
            ServerMessage::SessionMembers { player_id: _, session_id, members } => {
                let kept = prune_actors(&self.remote_actors, &self.session_members, &members);
                self.remote_actors = kept;
                self.session_members = members;
                self.current_session_id = Some(session_id);
            },
            ServerMessage::ActorSync(m) => {
                if !String::eq(&m.sender_id, &self.client_id) {
                    let ghost av = self.remote_actors.deep_view();
                    let entry = RemoteActorData { id: m.sender_id.clone(), data: m.data, last_update: now };
                    match find_key(&self.remote_actors, &m.sender_id) {
                        Some(i) => {
                            proof {
                                lemma_update_at(av, m.sender_id@, entry@, i as int);
                            }
                            self.remote_actors.set(i, (m.sender_id, entry));
                            proof {
                                assert(self.remote_actors.deep_view() =~= av.update(
                                    i as int,
                                    (m.sender_id@, entry@),
                                ));
                            }
                        },
                        None => {
                            proof {
                                lemma_update_absent(av, m.sender_id@, entry@);
                            }
                            self.remote_actors.push((m.sender_id, entry));
                            proof {
                                assert(self.remote_actors.deep_view() =~= av.push(
                                    (m.sender_id@, entry@),
                                ));
                            }
                        },
                    }
                }
            },
            ServerMessage::RegisteredMessage(m) => {
                if !String::eq(&m.sender_id, &self.client_id) {
                    let ghost qv = self.message_queue.deep_view();
                    proof {
                        assert(m.data.deep_view() =~= m.data@);
                    }
                    self.message_queue.push((m.message_id, m.data));
                    proof {
                        assert(self.message_queue.deep_view() =~= qv.push(
                            (m.message_id@, m.data@),
                        ));
                    }
                }
            },
        }
    }

    /// The byte length of the queue head's payload, zero when the queue is
    /// empty.
    pub fn get_pending_message_size(&self) -> (r: usize)
        ensures
            r == if self@.queue.len() == 0 {
                0
            } else {
                self@.queue[0].1.len()
            },
    {
        if self.message_queue.len() == 0 {
            0
        } else {
            self.message_queue[0].1.len()
        }
    }

    /// Pops the queue head into `buffer` and returns its tag, but only when
    /// the whole payload fits: an undersized buffer consumes nothing and
    /// changes nothing.
    pub fn get_message(&mut self, buffer: &mut Vec<u8>) -> (r: Option<String>)
        ensures
            match r {
                Some(id) => {
                    &&& old(self)@.queue.len() > 0
                    &&& old(buffer)@.len() >= old(self)@.queue[0].1.len()
                    &&& id@ == old(self)@.queue[0].0
                    &&& final(self)@ == ClientView {
                        queue: old(self)@.queue.drop_first(),
                        ..old(self)@
                    }
                    &&& final(buffer)@.len() == old(buffer)@.len()
                    &&& final(buffer)@.take(old(self)@.queue[0].1.len() as int)
                        == old(self)@.queue[0].1
                    &&& final(buffer)@.skip(old(self)@.queue[0].1.len() as int)
                        == old(buffer)@.skip(old(self)@.queue[0].1.len() as int)
                },
                None => {
                    &&& final(self)@ == old(self)@
                    &&& final(buffer)@ == old(buffer)@
                    &&& (old(self)@.queue.len() == 0 || old(buffer)@.len()
                        < old(self)@.queue[0].1.len())
                },
            },
    {
        if self.message_queue.len() == 0 {
            return None;
        }
        let n = self.message_queue[0].1.len();
        proof {
            assert(self@.queue[0].1 =~= self.message_queue@[0].1@);
        }
        if buffer.len() < n {
            return None;
        }
        let mut i: usize = 0;
        while i < n
            invariant
                i <= n,
                self == old(self),
                n == self.message_queue@[0].1@.len(),
                self.message_queue@.len() > 0,
                buffer@.len() == old(buffer)@.len(),
                n <= buffer@.len(),
                forall|j: int| 0 <= j < i ==> buffer@[j] == self.message_queue@[0].1@[j],
                forall|j: int| i <= j < buffer@.len() ==> buffer@[j] == old(buffer)@[j],
            decreases n - i,
        {
            let b = self.message_queue[0].1[i];
            buffer.set(i, b);
            i = i + 1;
        }
        let (id, _payload) = self.message_queue.remove(0);
        proof {
            assert(self.message_queue.deep_view() =~= old(self)@.queue.drop_first());
            assert(final(buffer)@.take(n as int) =~= old(self)@.queue[0].1);
            assert(final(buffer)@.skip(n as int) =~= old(buffer)@.skip(n as int));
        }
        Some(id)
    }

    /// The ids of the peers with a stored snapshot, in table order.
    pub fn remote_actor_ids(&self) -> (r: Vec<String>)
        ensures
            r.deep_view() == Seq::new(self@.actors.len(), |i: int| self@.actors[i].0),
    {
        let n = self.remote_actors.len();
        let mut out: Vec<String> = Vec::new();
        let mut i: usize = 0;
        while i < n
            invariant
                i <= n,
                n == self.remote_actors@.len(),
                out@.len() == i,
                forall|j: int| 0 <= j < i ==> out@[j]@ == self@.actors[j].0,
            decreases n - i,
        {
            out.push(self.remote_actors[i].0.clone());
            i = i + 1;
        }
        proof {
            assert(out.deep_view() =~= Seq::new(self@.actors.len(), |j: int| self@.actors[j].0));
        }
        out
    }

    /// The stored snapshot of one peer, if any.
    pub fn get_remote_actor(&self, id: &str) -> (r: Option<ActorData>)
        ensures
            match r {
                Some(d) => assoc_lookup(self@.actors, id@) matches Some(a) && a.data == d@,
                None => assoc_lookup(self@.actors, id@) is None,
            },
    {
        let key = id.to_owned();
        match find_key(&self.remote_actors, &key) {
            Some(i) => {
                proof {
                    lemma_lookup_at(self@.actors, id@, i as int);
                }
                Some(self.remote_actors[i].1.data)
            },
            None => {
                proof {
                    lemma_lookup_absent(self@.actors, id@);
                }
                None
            },
        }
    }
}

} // verus!
