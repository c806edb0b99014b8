//! One session per signaling connection: it binds a peer to its room and
//! turns what happens on the connection into changes of the registry and
//! work for the host.

use vstd::prelude::*;

use crate::action::{emit, no_actions, views, Action, ActionView, SdpKind};
use crate::agenda::description_created_actions;
use crate::error::Error;
use crate::fanout::{
    lemma_join_keeps_fan_out, lemma_leave_keeps_fan_out, lemma_replace_keeps_fan_out,
    lemma_track_keeps_fan_out,
};
use crate::peer::{ConnectionState, ConnectionStatus, PeerView, SignalingState};
use crate::room::{
    attach_actions, fan_out_actions, joined_actions, lemma_has_peer, lemma_replace_keeps_ids,
    lemma_same_ids, members, pli_actions, shows_a_peer, tracks_of_others, Room, RoomView,
};
use crate::signal::{
    clone_optional_string, IceCandidateInit, PeerMessage, ServerMessage, ServerMessageView,
};
use crate::state::{apart_from_others, room_ok, State, StateView};
use crate::track::{MediaKind, Track, TrackId};

verus! {

/// The handle of one signaling connection: the code of its room and the id
/// of its peer.
#[derive(Debug, PartialEq, Eq)]
pub struct Session {
    code: String,
    peer_id: u32,
}

impl Clone for Session {
    fn clone(&self) -> (res: Self)
        ensures
            res == *self,
    {
        Session { code: self.code.clone(), peer_id: self.peer_id }
    }
}

/// The room that a peer joins under `code`: the one registered there, or a
/// new one under the next room id.
pub open spec fn room_to_join(state: StateView, code: Seq<char>) -> RoomView {
    if state.rooms.contains_key(code) {
        state.rooms[code]
    } else {
        RoomView { id: state.next_room_id, code, peers: Seq::empty() }
    }
}

/// Whether a peer can join under `code`: a peer id is left, and a room id
/// too if a room has to be created.
pub open spec fn can_join(state: StateView, code: Seq<char>) -> bool {
    state.next_peer_id < u32::MAX && (state.rooms.contains_key(code) || state.next_room_id
        < u32::MAX)
}

/// The room right after the new peer was appended to it.
pub open spec fn room_with_joiner(state: StateView, code: Seq<char>) -> RoomView {
    let room = room_to_join(state, code);
    room.with_peer(PeerView::fresh(state.next_peer_id, room.id))
}

/// The registry after a peer has joined under `code`.
pub open spec fn after_join(state: StateView, code: Seq<char>) -> StateView {
    StateView {
        next_peer_id: (state.next_peer_id + 1) as u32,
        next_room_id: if state.rooms.contains_key(code) {
            state.next_room_id
        } else {
            (state.next_room_id + 1) as u32
        },
        rooms: state.rooms.insert(
            code,
            room_with_joiner(state, code).after_tracks_of_others(state.next_peer_id),
        ),
    }
}

/// What a join asks for: the client is told its id, the connection gets a
/// receiving transceiver for video and one for audio, and then a sending one
/// for each track that the others have published.
pub open spec fn join_actions(state: StateView, code: Seq<char>) -> Seq<ActionView> {
    let id = state.next_peer_id;
    let room = room_with_joiner(state, code);
    seq![
        PeerView::fresh(id, room.id).id_action(),
        ActionView::AddRecvonlyTransceiver { peer_id: id, kind: MediaKind::Video },
        ActionView::AddRecvonlyTransceiver { peer_id: id, kind: MediaKind::Audio },
    ] + attach_actions(id, tracks_of_others(room.peers, id, room.peers.len() as int))
}

/// The room after a connection state was reported for peer `id`.
pub open spec fn room_in_state(room: RoomView, id: u32, state: ConnectionState) -> RoomView {
    room.with_peer_at(room.position(id), room.peer(id).in_state(state))
}

/// What a reported connection state asks for. Only the transition to
/// connected asks for anything: an offer from the server, the membership
/// list, and, if the peer has a name, its announcement to the others.
pub open spec fn connection_state_actions(room: RoomView, id: u32, state: ConnectionState) -> Seq<
    ActionView,
> {
    if state == ConnectionState::Connected {
        let now = room_in_state(room, id, state);
        let list = members(now.peers, id, now.peers.len() as int);
        let announcement = match room.peer(id).name {
            Some(name) => joined_actions(now.peers, id, name, now.peers.len() as int),
            None => Seq::empty(),
        };
        seq![
            ActionView::CreateOffer { peer_id: id },
            ActionView::Send { peer_id: id, message: ServerMessageView::Peers(list) },
        ] + announcement
    } else {
        Seq::empty()
    }
}

/// The room after peer `id` has sent `message`.
pub open spec fn room_after_message(
    room: RoomView,
    id: u32,
    message: PeerMessage,
    status: ConnectionStatus,
) -> RoomView {
    let peer = room.peer(id);
    let position = room.position(id);
    match message {
        PeerMessage::Offer(sdp) => room.with_peer_at(position, peer.after_offer(status.signaling)),
        PeerMessage::Answer(sdp) => room.with_peer_at(position, peer.flushed()),
        PeerMessage::Candidate(candidate) => room.with_peer_at(
            position,
            peer.after_candidate(candidate, status.has_remote_description),
        ),
        PeerMessage::Name(name) => room.with_peer_at(position, peer.named(name)),
        PeerMessage::Pli(target) => room,
    }
}

/// What a message of peer `id` asks for.
pub open spec fn message_actions(
    room: RoomView,
    id: u32,
    message: PeerMessage,
    status: ConnectionStatus,
) -> Seq<ActionView> {
    let peer = room.peer(id);
    match message {
        PeerMessage::Offer(sdp) => peer.offer_actions(sdp, status.signaling),
        PeerMessage::Answer(sdp) => peer.remote_description_actions(SdpKind::Answer, sdp),
        PeerMessage::Candidate(candidate) => peer.candidate_actions(
            candidate,
            status.has_remote_description,
        ),
        PeerMessage::Name(name) => Seq::empty(),
        PeerMessage::Pli(target) => pli_actions(room.peers, target, room.peers.len() as int),
    }
}

/// The room right after peer `id` has recorded a track that it published.
pub open spec fn room_publishing(room: RoomView, id: u32, track: Track) -> RoomView {
    room.with_peer_at(room.position(id), room.peer(id).publishing(track))
}

/// The room after peer `id` has published a track and the track was fanned
/// out to the others.
pub open spec fn room_after_track(room: RoomView, id: u32, track: Track) -> RoomView {
    room_publishing(room, id, track).after_fan_out(id, TrackId { peer_id: id, kind: track.kind })
}

/// What a published track asks for: it is attached to every other peer, and
/// each of them renegotiates if the publisher now has both audio and video.
pub open spec fn track_actions(room: RoomView, id: u32, track: Track) -> Seq<ActionView> {
    let now = room_publishing(room, id, track);
    fan_out_actions(
        now.peers,
        id,
        TrackId { peer_id: id, kind: track.kind },
        now.peer(id).is_audio_and_video(),
        now.peers.len() as int,
    )
}

/// The registry after peer `id` has left the room under `code`: unchanged if
/// it is not there; else the peer is gone, and the room too if it was the
/// last one.
pub open spec fn after_leave(state: StateView, code: Seq<char>, id: u32) -> StateView {
    if state.has_member(code, id) {
        state.with_room_unless_empty(code, state.rooms[code].after_leave(id))
    } else {
        state
    }
}

/// What the departure of peer `id` from the room under `code` asks for.
pub open spec fn leave_actions(state: StateView, code: Seq<char>, id: u32) -> Seq<ActionView> {
    if state.has_member(code, id) {
        state.rooms[code].leave_actions(id)
    } else {
        Seq::empty()
    }
}

/// Something that happened on the transport or the connection of a
/// session.
#[derive(Debug, PartialEq, Eq)]
pub enum SessionEvent {
    /// The client sent a message. With it comes what the host has just read
    /// from the connection.
    Message { message: PeerMessage, status: ConnectionStatus },
    /// The client closed the transport.
    Closed,
    /// A task of the session failed.
    Failed,
    /// The media stack reported a connection state.
    ConnectionState(ConnectionState),
    /// The connection gathered a candidate, or finished gathering.
    Candidate(Option<IceCandidateInit>),
    /// The track pipe announced a track that the client has published.
    Track(Track),
}

/// What an event leads to: the registry afterwards, and either the work
/// that is asked of the host or the reason why the event was refused.
pub struct Outcome {
    pub state: StateView,
    pub result: Result<Seq<ActionView>, Error>,
}

/// What becomes of an event of the session of peer `id` in the room under
/// `code`. Events of a peer that is not in its room are refused, but for
/// the end of the session, which is then nothing to do, and for gathered
/// candidates, which concern the client alone. The end of the transport and
/// a failure both end the session: the peer leaves.
pub open spec fn outcome(state: StateView, code: Seq<char>, id: u32, event: SessionEvent) -> Outcome {
    let room = state.rooms[code];
    match event {
        SessionEvent::Closed | SessionEvent::Failed => Outcome {
            state: after_leave(state, code, id),
            result: Ok(leave_actions(state, code, id)),
        },
        SessionEvent::Candidate(candidate) => Outcome {
            state,
            result: Ok(
                match candidate {
                    Some(c) => seq![
                        ActionView::Send { peer_id: id, message: ServerMessageView::Candidate(c) },
                    ],
                    None => Seq::empty(),
                },
            ),
        },
        _ => if !state.has_member(code, id) {
            Outcome { state, result: Err(Error::PeerNotFound) }
        } else {
            match event {
                SessionEvent::Message { message, status } => Outcome {
                    state: state.with_room(code, room_after_message(room, id, message, status)),
                    result: Ok(message_actions(room, id, message, status)),
                },
                SessionEvent::ConnectionState(reported) => Outcome {
                    state: state.with_room(code, room_in_state(room, id, reported)),
                    result: Ok(connection_state_actions(room, id, reported)),
                },
                SessionEvent::Track(track) => if room.peer(id).track(track.kind) is Some {
                    Outcome { state, result: Err(Error::TrackAlreadySet(track.kind)) }
                } else {
                    Outcome {
                        state: state.with_room(code, room_after_track(room, id, track)),
                        result: Ok(track_actions(room, id, track)),
                    }
                },
                _ => Outcome { state, result: Ok(Seq::empty()) },
            }
        },
    }
}

/// Whether what an operation returned is what an outcome asks for.
pub open spec fn answers(done: Result<Vec<Action>, Error>, result: Result<Seq<ActionView>, Error>) -> bool {
    match (done, result) {
        (Ok(actions), Ok(asked)) => views(actions@) == asked,
        (Err(error), Err(reason)) => error == reason,
        _ => false,
    }
}

impl Session {
    /// The id of the session's peer.
    pub fn peer_id(&self) -> (id: u32)
        ensures
            id == self.spec_peer_id(),
    {
        self.peer_id
    }

    /// The code of the session's room.
    pub fn code(&self) -> (code: &String)
        ensures
            code@ == self.spec_code(),
    {
        &self.code
    }

    /// The id of the session's peer.
    pub closed spec fn spec_peer_id(&self) -> u32 {
        self.peer_id
    }

    /// The characters of the code of the session's room.
    pub closed spec fn spec_code(&self) -> Seq<char> {
        self.code@
    }

    /// Whether the session's peer is in its room.
    pub open spec fn is_member(&self, state: StateView) -> bool {
        state.has_member(self.spec_code(), self.spec_peer_id())
    }

    /// Joins the room under `code`, creating it if need be. Refused, with
    /// nothing changed, if no id is left for the peer or for a room that
    /// would have to be created.
    pub fn new(state: &mut State, code: String) -> (joined: Result<(Session, Vec<Action>), Error>)
        ensures
            final(state)@.wf(),
            joined is Ok <==> can_join(old(state)@, code@),
            joined is Ok ==> {
                &&& joined.unwrap().0.spec_code() == code@
                &&& joined.unwrap().0.spec_peer_id() == old(state)@.next_peer_id
                &&& final(state)@ == after_join(old(state)@, code@)
                &&& views(joined.unwrap().1@) == join_actions(old(state)@, code@)
                &&& joined.unwrap().0.is_member(final(state)@)
            },
            joined is Err ==> joined.unwrap_err() == Error::IdsExhausted && final(state)@ == old(
                state,
            )@,
    {
        proof {
            use_type_invariant(&*state);
        }
        if !state.has_peer_id_left() {
            return Err(Error::IdsExhausted);
        }
        let mut room = match state.take_or_create_room(&code) {
            Ok(room) => room,
            Err(e) => {
                return Err(e);
            },
        };
        let mut out = no_actions();
        let peer_id = match state.add_peer(&mut room, &mut out) {
            Ok(id) => id,
            Err(e) => {
                return Err(e);
            },
        };
        let ghost joiner = room@;
        proof {
            lemma_joiner_is_last(room_to_join(old(state)@, code@), peer_id);
        }
        let peer = room.get_peer(peer_id);
        peer.add_recvonly_transceiver(MediaKind::Video, &mut out);
        peer.add_recvonly_transceiver(MediaKind::Audio, &mut out);
        room.add_other_peers_tracks(peer_id, &mut out);
        proof {
            lemma_tracks_of_others_keeps_ids(joiner, peer_id);
            lemma_join_keeps_fan_out(room_to_join(old(state)@, code@), peer_id);
            lemma_join_keeps_rooms_apart(old(state)@, code@);
            assert(state@.rooms =~= old(state)@.rooms.remove(code@));
        }
        let session = Session { code: code.clone(), peer_id };
        state.put_room(code, room);
        proof {
            assert(state@.rooms =~= after_join(old(state)@, code@).rooms);
            lemma_has_peer(state@.rooms[code@], peer_id);
        }
        Ok((session, out))
    }

    /// Takes note of the connection state that the media stack reports for
    /// the session's peer. When the peer has become connected, the server
    /// offers, the client gets the membership list, and the peer, if it has
    /// a name, is announced to the others. Any other state is recorded and
    /// asks for nothing.
    pub fn handle_connection_state(&self, state: &mut State, reported: ConnectionState) -> (done:
        Result<Vec<Action>, Error>)
        ensures
            final(state)@.wf(),
            done is Ok <==> self.is_member(old(state)@),
            done is Ok ==> {
                let room = old(state)@.rooms[self.spec_code()];
                &&& final(state)@ == old(state)@.with_room(
                    self.spec_code(),
                    room_in_state(room, self.spec_peer_id(), reported),
                )
                &&& views(done.unwrap()@) == connection_state_actions(
                    room,
                    self.spec_peer_id(),
                    reported,
                )
            },
            done is Err ==> done.unwrap_err() == Error::PeerNotFound && final(state)@ == old(
                state,
            )@,
    {
        let mut room = match self.check_out(state) {
            Some(room) => room,
            None => {
                return Err(Error::PeerNotFound);
            },
        };
        let ghost before = room@;
        proof {
            lemma_has_peer(before, self.peer_id);
            lemma_replace_keeps_ids(
                before,
                before.position(self.peer_id),
                before.peer(self.peer_id).in_state(reported),
            );
            lemma_replace_keeps_fan_out(
                before,
                before.position(self.peer_id),
                before.peer(self.peer_id).in_state(reported),
            );
        }
        let mut out = no_actions();
        let peer = room.get_peer_mut(self.peer_id);
        let connected = peer.on_connected(reported);
        let name = clone_optional_string(&peer.name);
        if connected {
            let list = room.get_server_message_peers(self.peer_id);
            let peer = room.get_peer(self.peer_id);
            peer.send_offer(&mut out);
            peer.send_message(ServerMessage::Peers(list), &mut out);
            match name {
                Some(name) => {
                    room.send_joined_peer(self.peer_id, name, &mut out);
                },
                None => {},
            }
        }
        state.put_room(self.code.clone(), room);
        proof {
            assert(state@.rooms =~= old(state)@.with_room(
                self.spec_code(),
                room_in_state(before, self.peer_id, reported),
            ).rooms);
        }
        Ok(out)
    }

    /// Runs what follows the transition of the session's peer to connected.
    pub fn handle_connected(&self, state: &mut State) -> (done: Result<Vec<Action>, Error>)
        ensures
            final(state)@.wf(),
            done is Ok <==> self.is_member(old(state)@),
            done is Ok ==> {
                let room = old(state)@.rooms[self.spec_code()];
                &&& final(state)@ == old(state)@.with_room(
                    self.spec_code(),
                    room_in_state(room, self.spec_peer_id(), ConnectionState::Connected),
                )
                &&& views(done.unwrap()@) == connection_state_actions(
                    room,
                    self.spec_peer_id(),
                    ConnectionState::Connected,
                )
            },
            done is Err ==> done.unwrap_err() == Error::PeerNotFound && final(state)@ == old(
                state,
            )@,
    {
        self.handle_connection_state(state, ConnectionState::Connected)
    }

    /// Forwards a candidate that the connection of the session's peer has
    /// gathered to the client. The end of gathering is not forwarded.
    pub fn handle_candidate(&self, candidate: Option<IceCandidateInit>) -> (out: Vec<Action>)
        ensures
            views(out@) == (match candidate {
                Some(c) => seq![
                    ActionView::Send {
                        peer_id: self.spec_peer_id(),
                        message: ServerMessageView::Candidate(c),
                    },
                ],
                None => Seq::empty(),
            }),
    {
        let mut out = no_actions();
        match candidate {
            Some(c) => {
                emit(
                    &mut out,
                    Action::Send { peer_id: self.peer_id, message: ServerMessage::Candidate(c) },
                );
            },
            None => {},
        }
        out
    }

    /// Dispatches a message of the client. `status` is what the host has
    /// just read from the connection of the session's peer.
    pub fn handle_message(
        &self,
        state: &mut State,
        message: PeerMessage,
        status: ConnectionStatus,
    ) -> (done: Result<Vec<Action>, Error>)
        ensures
            final(state)@.wf(),
            done is Ok <==> self.is_member(old(state)@),
            done is Ok ==> {
                let room = old(state)@.rooms[self.spec_code()];
                &&& final(state)@ == old(state)@.with_room(
                    self.spec_code(),
                    room_after_message(room, self.spec_peer_id(), message, status),
                )
                &&& views(done.unwrap()@) == message_actions(
                    room,
                    self.spec_peer_id(),
                    message,
                    status,
                )
            },
            done is Err ==> done.unwrap_err() == Error::PeerNotFound && final(state)@ == old(
                state,
            )@,
    {
        let mut room = match self.check_out(state) {
            Some(room) => room,
            None => {
                return Err(Error::PeerNotFound);
            },
        };
        let ghost before = room@;
        proof {
            lemma_has_peer(before, self.peer_id);
            lemma_replace_keeps_ids(
                before,
                before.position(self.peer_id),
                room_after_message(before, self.peer_id, message, status).peers[before.position(
                    self.peer_id,
                )],
            );
            lemma_replace_keeps_fan_out(
                before,
                before.position(self.peer_id),
                room_after_message(before, self.peer_id, message, status).peers[before.position(
                    self.peer_id,
                )],
            );
            assert(room_after_message(before, self.peer_id, message, status).peers
                =~= before.with_peer_at(
                before.position(self.peer_id),
                room_after_message(before, self.peer_id, message, status).peers[before.position(
                    self.peer_id,
                )],
            ).peers);
        }
        let mut out = no_actions();
        match message {
            PeerMessage::Offer(sdp) => {
                let peer = room.get_peer_mut(self.peer_id);
                peer.recv_offer(sdp, status.signaling, &mut out);
            },
            PeerMessage::Answer(sdp) => {
                let peer = room.get_peer_mut(self.peer_id);
                peer.recv_answer(sdp, &mut out);
            },
            PeerMessage::Candidate(candidate) => {
                let peer = room.get_peer_mut(self.peer_id);
                peer.add_candidate(candidate, status.has_remote_description, &mut out);
            },
            PeerMessage::Name(name) => {
                let peer = room.get_peer_mut(self.peer_id);
                peer.set_name(name);
            },
            PeerMessage::Pli(target) => {
                room.send_pli(target, &mut out);
            },
        }
        proof {
            assert(room@.peers =~= room_after_message(
                before,
                self.peer_id,
                message,
                status,
            ).peers);
        }
        state.put_room(self.code.clone(), room);
        proof {
            assert(state@.rooms =~= old(state)@.with_room(
                self.spec_code(),
                room_after_message(before, self.peer_id, message, status),
            ).rooms);
        }
        Ok(out)
    }

    /// Records a track that the session's peer has published and fans its
    /// forwarding track out to every other peer of the room. The others
    /// renegotiate only once the publisher has both audio and video.
    /// Refused, with nothing changed, if the peer has already published a
    /// track of that kind.
    pub fn handle_track(&self, state: &mut State, track: Track) -> (done: Result<
        Vec<Action>,
        Error,
    >)
        ensures
            final(state)@.wf(),
            !self.is_member(old(state)@) ==> done == Err::<Vec<Action>, Error>(
                Error::PeerNotFound,
            ),
            self.is_member(old(state)@) && old(state)@.rooms[self.spec_code()].peer(
                self.spec_peer_id(),
            ).track(track.kind) is Some ==> done == Err::<Vec<Action>, Error>(
                Error::TrackAlreadySet(track.kind),
            ),
            self.is_member(old(state)@) && old(state)@.rooms[self.spec_code()].peer(
                self.spec_peer_id(),
            ).track(track.kind) is None ==> {
                let room = old(state)@.rooms[self.spec_code()];
                &&& done is Ok
                &&& final(state)@ == old(state)@.with_room(
                    self.spec_code(),
                    room_after_track(room, self.spec_peer_id(), track),
                )
                &&& views(done.unwrap()@) == track_actions(room, self.spec_peer_id(), track)
            },
            done is Err ==> final(state)@ == old(state)@,
    {
        let mut room = match self.check_out(state) {
            Some(room) => room,
            None => {
                return Err(Error::PeerNotFound);
            },
        };
        let ghost before = room@;
        proof {
            lemma_has_peer(before, self.peer_id);
        }
        if room.get_peer(self.peer_id).track(track.kind).is_some() {
            state.put_room(self.code.clone(), room);
            proof {
                assert(state@.rooms =~= old(state)@.rooms);
            }
            return Err(Error::TrackAlreadySet(track.kind));
        }
        let mut out = no_actions();
        let peer = room.get_peer_mut(self.peer_id);
        peer.set_track(track);
        let send_offer = peer.is_audio_and_video();
        let ghost published = room@;
        proof {
            lemma_replace_keeps_ids(
                before,
                before.position(self.peer_id),
                before.peer(self.peer_id).publishing(track),
            );
            assert(published == room_publishing(before, self.peer_id, track));
        }
        room.add_peer_track_to_others(
            self.peer_id,
            TrackId { peer_id: self.peer_id, kind: track.kind },
            send_offer,
            &mut out,
        );
        proof {
            let after = room@;
            assert forall|k: int| 0 <= k < after.peers.len() implies (#[trigger] after.peers[k]).id
                == published.peers[k].id by {}
            lemma_same_ids(after, published);
            lemma_track_keeps_fan_out(before, self.peer_id, track);
        }
        state.put_room(self.code.clone(), room);
        proof {
            assert(state@.rooms =~= old(state)@.with_room(
                self.spec_code(),
                room_after_track(before, self.peer_id, track),
            ).rooms);
        }
        Ok(out)
    }

    /// Takes the session's peer out of its room: its connection is closed
    /// and the others are told. The room is dropped from the registry when
    /// it has become empty. A session that has already left changes nothing
    /// and asks for nothing.
    pub fn leave(&self, state: &mut State) -> (out: Vec<Action>)
        ensures
            final(state)@.wf(),
            final(state)@ == after_leave(old(state)@, self.spec_code(), self.spec_peer_id()),
            views(out@) == leave_actions(old(state)@, self.spec_code(), self.spec_peer_id()),
            !self.is_member(final(state)@),
            self.is_member(old(state)@) && old(state)@.rooms[self.spec_code()].peers.len() == 1
                ==> !final(state)@.rooms.contains_key(self.spec_code()),
    {
        let mut out = no_actions();
        let mut room = match self.check_out(state) {
            Some(room) => room,
            None => {
                return out;
            },
        };
        let ghost before = room@;
        let left = room.handle_peer_leave(self.peer_id, &mut out);
        proof {
            lemma_after_leave(before, self.peer_id);
            lemma_leave_keeps_fan_out(before, self.peer_id);
        }
        if room.is_empty() {
            proof {
                assert(state@.rooms =~= old(state)@.rooms.remove(self.spec_code()));
            }
        } else {
            state.put_room(self.code.clone(), room);
            proof {
                assert(state@.rooms =~= old(state)@.rooms.insert(
                    self.spec_code(),
                    before.after_leave(self.peer_id),
                ));
            }
        }
        out
    }

    /// Handles an event of the session, whatever its source: the reader of
    /// the transport, the callbacks of the connection, the track pipe or the
    /// error sink.
    pub fn handle(&self, state: &mut State, event: SessionEvent) -> (done: Result<
        Vec<Action>,
        Error,
    >)
        ensures
            final(state)@.wf(),
            final(state)@ == outcome(
                old(state)@,
                self.spec_code(),
                self.spec_peer_id(),
                event,
            ).state,
            answers(
                done,
                outcome(old(state)@, self.spec_code(), self.spec_peer_id(), event).result,
            ),
    {
        proof {
            use_type_invariant(&*state);
        }
        match event {
            SessionEvent::Message { message, status } => self.handle_message(
                state,
                message,
                status,
            ),
            SessionEvent::Closed => Ok(self.leave(state)),
            SessionEvent::Failed => Ok(self.leave(state)),
            SessionEvent::ConnectionState(reported) => self.handle_connection_state(
                state,
                reported,
            ),
            SessionEvent::Candidate(candidate) => Ok(self.handle_candidate(candidate)),
            SessionEvent::Track(track) => self.handle_track(state, track),
        }
    }

    /// Checks the session's room out of the registry if the session's peer
    /// is in it; else leaves the registry as it is.
    fn check_out(&self, state: &mut State) -> (room: Option<Room>)
        ensures
            old(state)@.wf(),
            final(state)@.wf(),
            room is Some <==> self.is_member(old(state)@),
            room is Some ==> {
                &&& room.unwrap()@ == old(state)@.rooms[self.spec_code()]
                &&& room_ok(
                    self.spec_code(),
                    room.unwrap()@,
                    old(state)@.next_peer_id,
                    old(state)@.next_room_id,
                )
                &&& apart_from_others(final(state)@.rooms, self.spec_code(), room.unwrap()@)
                &&& final(state)@ == old(state)@.without_room(self.spec_code())
            },
            room is None ==> final(state)@ == old(state)@,
    {
        proof {
            use_type_invariant(&*state);
        }
        match state.take_room(&self.code) {
            Some(room) => {
                if room.has_peer(self.peer_id) {
                    Some(room)
                } else {
                    state.put_room(self.code.clone(), room);
                    proof {
                        assert(state@.rooms =~= old(state)@.rooms);
                    }
                    None
                }
            },
            None => {
                proof {
                    assert(state@.rooms =~= old(state)@.rooms);
                }
                None
            },
        }
    }
}

/// Offer glare. An offer that arrives while the signaling state is not
/// stable is dropped: the room, and with it every connection state, stays
/// as it is, no remote description is applied and no answer is asked for.
pub proof fn lemma_offer_glare(room: RoomView, id: u32, sdp: String, status: ConnectionStatus)
    requires
        room.has_peer(id),
        status.signaling != SignalingState::Stable,
    ensures
        room_after_message(room, id, PeerMessage::Offer(sdp), status) == room,
        message_actions(room, id, PeerMessage::Offer(sdp), status) == Seq::<ActionView>::empty(),
{
    lemma_has_peer(room, id);
    assert(room_after_message(room, id, PeerMessage::Offer(sdp), status).peers =~= room.peers);
}

/// A keyframe request for a peer that is not in the room is a silent no-op:
/// the room stays as it is and nothing is asked for.
pub proof fn lemma_pli_for_unknown_peer(
    room: RoomView,
    id: u32,
    target: u32,
    status: ConnectionStatus,
)
    requires
        !room.has_peer(target),
    ensures
        room_after_message(room, id, PeerMessage::Pli(target), status) == room,
        message_actions(room, id, PeerMessage::Pli(target), status) == Seq::<ActionView>::empty(),
{
    lemma_has_peer(room, target);
    crate::room::lemma_pli_unknown_peer(room.peers, target, room.peers.len() as int);
}

/// Idempotent leave. A second departure of the same peer changes nothing
/// and asks for nothing: leaving twice has the effect of leaving once.
pub proof fn lemma_leave_is_idempotent(state: StateView, code: Seq<char>, id: u32)
    requires
        state.wf(),
    ensures
        !after_leave(state, code, id).has_member(code, id),
        after_leave(after_leave(state, code, id), code, id) == after_leave(state, code, id),
        leave_actions(after_leave(state, code, id), code, id) == Seq::<ActionView>::empty(),
{
    if state.has_member(code, id) {
        lemma_after_leave(state.rooms[code], id);
    }
}

/// An emptied room is dropped. If the peer that leaves was the last of its
/// room, no room is registered under the code afterwards; and no departure
/// leaves an empty room behind.
pub proof fn lemma_empty_room_is_removed(state: StateView, code: Seq<char>, id: u32)
    requires
        state.wf(),
        state.has_member(code, id),
    ensures
        state.rooms[code].peers.len() == 1 ==> !after_leave(state, code, id).rooms.contains_key(
            code,
        ),
        after_leave(state, code, id).rooms.contains_key(code) ==> after_leave(
            state,
            code,
            id,
        ).rooms[code].peers.len() > 0,
{
    lemma_after_leave(state.rooms[code], id);
}

/// Whether an action that broadcasts membership tells the truth about the
/// room `now`, in which peer `id` has just been reported in state
/// `reported`: a membership list shows only connected, named peers other
/// than `id`; an announcement is made only when `id` has become connected,
/// to another peer, under the name that `id` has set.
pub open spec fn broadcast_is_truthful(
    action: ActionView,
    now: RoomView,
    id: u32,
    reported: ConnectionState,
) -> bool {
    match action {
        ActionView::Send { peer_id, message: ServerMessageView::Peers(list) } => forall|m: int|
            0 <= m < list.len() ==> shows_a_peer(
                now.peers,
                now.peers.len() as int,
                #[trigger] list[m],
                id,
            ),
        ActionView::Send { peer_id, message: ServerMessageView::PeerJoined(peer) } => {
            &&& reported == ConnectionState::Connected
            &&& peer.id == id
            &&& peer_id != id
            &&& now.peer(id).state == ConnectionState::Connected
            &&& now.peer(id).name == Some(peer.name)
        },
        _ => true,
    }
}

/// Only connected, named peers are broadcast. The membership list that a
/// peer gets when it becomes connected shows only other peers that are
/// connected and named; and the peer is announced to the others only on
/// becoming connected, under the name that it has set, and never to
/// itself.
pub proof fn lemma_broadcasts_show_connected_named_peers(
    room: RoomView,
    id: u32,
    reported: ConnectionState,
)
    requires
        room.has_peer(id),
    ensures
        forall|k: int|
            0 <= k < connection_state_actions(room, id, reported).len() ==> broadcast_is_truthful(
                #[trigger] connection_state_actions(room, id, reported)[k],
                room_in_state(room, id, reported),
                id,
                reported,
            ),
{
    let actions = connection_state_actions(room, id, reported);
    let now = room_in_state(room, id, reported);
    lemma_has_peer(room, id);
    lemma_replace_keeps_ids(room, room.position(id), room.peer(id).in_state(reported));
    if reported == ConnectionState::Connected {
        let list = members(now.peers, id, now.peers.len() as int);
        let head = seq![
            ActionView::CreateOffer { peer_id: id },
            ActionView::Send { peer_id: id, message: ServerMessageView::Peers(list) },
        ];
        crate::room::lemma_members_are_connected_and_named(now.peers, id, now.peers.len() as int);
        assert(now.peer(id) == room.peer(id).in_state(reported));
        assert forall|k: int| 0 <= k < actions.len() implies broadcast_is_truthful(
            #[trigger] actions[k],
            now,
            id,
            reported,
        ) by {
            if k < 2 {
                assert(actions[k] == head[k]);
            } else {
                match room.peer(id).name {
                    Some(name) => {
                        let announcement = joined_actions(
                            now.peers,
                            id,
                            name,
                            now.peers.len() as int,
                        );
                        crate::room::lemma_joined_actions(
                            now.peers,
                            id,
                            name,
                            now.peers.len() as int,
                        );
                        assert(actions == head + announcement);
                        assert(actions[k] == announcement[k - 2]);
                    },
                    None => {
                        assert(actions =~= head);
                    },
                }
            }
        }
    } else {
        assert(actions.len() == 0);
    }
}

/// Offer before list. When a peer has become connected, the first thing
/// asked for is an offer; and once the offer is created, the client is sent
/// the offer first and its membership list right after.
pub proof fn lemma_offer_precedes_membership_list(room: RoomView, id: u32, sdp: String)
    requires
        room.has_peer(id),
    ensures
        ({
            let asked = connection_state_actions(room, id, ConnectionState::Connected);
            let now = room_in_state(room, id, ConnectionState::Connected);
            let waiting = description_created_actions(id, SdpKind::Offer, sdp)
                + asked.drop_first();
            &&& asked[0] == ActionView::CreateOffer { peer_id: id }
            &&& waiting[0] == ActionView::SetLocalDescription {
                peer_id: id,
                sdp_type: SdpKind::Offer,
                sdp,
            }
            &&& waiting[1] == ActionView::Send {
                peer_id: id,
                message: ServerMessageView::Offer(sdp),
            }
            &&& waiting[2] == ActionView::Send {
                peer_id: id,
                message: ServerMessageView::Peers(
                    members(now.peers, id, now.peers.len() as int),
                ),
            }
        }),
{
}

/// A joiner brings one new id into its room, and no room knows that id
/// yet: the room shares no peer id with the other rooms after the join.
pub proof fn lemma_join_keeps_rooms_apart(state: StateView, code: Seq<char>)
    requires
        state.wf(),
    ensures
        apart_from_others(
            state.rooms.remove(code),
            code,
            room_with_joiner(state, code).after_tracks_of_others(state.next_peer_id),
        ),
{
    let id = state.next_peer_id;
    let room = room_to_join(state, code);
    let joined = room_with_joiner(state, code);
    let after = joined.after_tracks_of_others(id);
    if state.rooms.contains_key(code) {
        assert(room_ok(code, room, id, state.next_room_id));
        assert(apart_from_others(state.rooms, code, room));
    }
    assert(room.ids_below(id));
    lemma_joiner_is_last(room, id);
    lemma_tracks_of_others_keeps_ids(joined, id);
    assert forall|k: int| 0 <= k < after.peers.len() implies (#[trigger] after.peers[k]).id
        == joined.peers[k].id by {}
    lemma_same_ids(after, joined);
    assert forall|other: Seq<char>, peer: u32|
        other != code && state.rooms.remove(code).contains_key(other) && #[trigger] state.rooms.remove(
            code,
        )[other].has_peer(peer) implies !after.has_peer(peer) by {
        assert(state.rooms.contains_key(other) && state.rooms[other].has_peer(peer));
        assert(room_ok(other, state.rooms[other], id, state.next_room_id));
        lemma_has_peer(state.rooms[other], peer);
        assert(peer < id);
        if after.has_peer(peer) {
            lemma_has_peer(joined, peer);
            lemma_has_peer(room, peer);
            let k = choose|k: int|
                0 <= k < joined.peers.len() && (#[trigger] joined.peers[k]).id == peer;
            assert(k < room.peers.len());
            assert(room.peers[k].id == peer);
            assert(room.has_peer(peer));
        }
    }
}

/// A peer appended under an id that no peer of the room has is found at the
/// end of the room.
pub proof fn lemma_joiner_is_last(room: RoomView, id: u32)
    requires
        room.ids_below(id),
    ensures
        room.with_peer(PeerView::fresh(id, room.id)).position(id) == room.peers.len(),
        room.with_peer(PeerView::fresh(id, room.id)).has_peer(id),
{
    let joined = room.with_peer(PeerView::fresh(id, room.id));
    crate::room::lemma_position_from(joined.peers, id, 0);
    let p = joined.position(id);
    if p < room.peers.len() {
        assert(joined.peers[p] == room.peers[p]);
        assert(room.peers[p].id < id);
    }
    if p > room.peers.len() {
        assert(joined.peers[room.peers.len() as int].id == id);
    }
}

/// After a peer has left a room in order, the room is in order and no peer
/// of that id is left in it.
pub proof fn lemma_after_leave(room: RoomView, id: u32)
    requires
        room.wf(),
    ensures
        room.after_leave(id).wf(),
        !room.after_leave(id).has_peer(id),
        forall|bound: u32| room.ids_below(bound) ==> room.after_leave(id).ids_below(bound),
        room.has_peer(id) ==> room.after_leave(id).peers.len() == room.peers.len() - 1,
        forall|other: u32| #[trigger] room.after_leave(id).has_peer(other) ==> room.has_peer(other),
{
    let after = room.after_leave(id);
    lemma_has_peer(room, id);
    lemma_has_peer(after, id);
    assert forall|other: u32| #[trigger] after.has_peer(other) implies room.has_peer(other) by {
        lemma_has_peer(after, other);
        lemma_has_peer(room, other);
        if room.has_peer(id) {
            let k = choose|k: int| 0 <= k < after.peers.len() && (#[trigger] after.peers[k]).id == other;
            let source = if k == room.position(id) { room.peers.len() - 1 } else { k };
            assert(room.peers[source].id == other);
        }
    }
    if room.has_peer(id) {
        let position = room.position(id);
        let last = room.peers.len() - 1;
        assert forall|k: int| 0 <= k < after.peers.len() implies (#[trigger] after.peers[k]).id
            == (if k == position {
            room.peers[last].id
        } else {
            room.peers[k].id
        }) by {}
        assert forall|k: int| 0 <= k < after.peers.len() implies (#[trigger] after.peers[k]).id
            != id by {
            if k == position {
                assert(room.peers[last].id != room.peers[position].id);
            } else {
                assert(room.peers[k].id != room.peers[position].id);
            }
        }
        assert forall|i: int, j: int|
            0 <= i < after.peers.len() && 0 <= j < after.peers.len() && i != j implies after.peers[i].id
            != after.peers[j].id by {
            let si = if i == position { last } else { i };
            let sj = if j == position { last } else { j };
            assert(after.peers[i].id == room.peers[si].id);
            assert(after.peers[j].id == room.peers[sj].id);
        }
        assert forall|bound: u32| room.ids_below(bound) implies after.ids_below(bound) by {
            assert forall|k: int| 0 <= k < after.peers.len() implies (#[trigger] after.peers[k]).id
                < bound by {
                let sk = if k == position { last } else { k };
                assert(after.peers[k].id == room.peers[sk].id);
            }
        }
    }
}

/// Attaching the tracks of the others to a peer changes no id: the room
/// stays in order.
pub proof fn lemma_tracks_of_others_keeps_ids(room: RoomView, id: u32)
    requires
        room.has_peer(id),
    ensures
        room.wf() ==> room.after_tracks_of_others(id).wf(),
        forall|bound: u32| room.ids_below(bound) ==> room.after_tracks_of_others(id).ids_below(bound),
        room.after_tracks_of_others(id).has_peer(id),
{
    let after = room.after_tracks_of_others(id);
    lemma_has_peer(room, id);
    assert forall|k: int| 0 <= k < room.peers.len() implies (#[trigger] after.peers[k]).id
        == room.peers[k].id by {}
    lemma_has_peer(after, id);
    assert(after.peers[room.position(id)].id == id);
    if room.wf() {
        assert forall|i: int, j: int|
            0 <= i < after.peers.len() && 0 <= j < after.peers.len() && i != j implies after.peers[i].id
            != after.peers[j].id by {
            assert(after.peers[i].id == room.peers[i].id);
            assert(after.peers[j].id == room.peers[j].id);
        }
    }
    assert forall|bound: u32| room.ids_below(bound) implies after.ids_below(bound) by {
        assert forall|k: int| 0 <= k < after.peers.len() implies (#[trigger] after.peers[k]).id
            < bound by {
            assert(after.peers[k].id == room.peers[k].id);
        }
    }
}

} // verus!
