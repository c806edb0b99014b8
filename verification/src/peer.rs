//! One participant of a room: what the engine knows of its connection, its
//! published tracks and its buffered candidates, and the signaling rules that
//! decide what is asked of its connection and transport.

use vstd::prelude::*;

use crate::action::{emit, views, Action, ActionView, SdpKind};
use crate::signal::{clone_optional_string, IceCandidateInit, ServerMessage, ServerMessageView};
use crate::track::{MediaKind, PeerTrack, Track, TrackId};

verus! {

/// The state of a peer connection as its media stack reports it.
#[derive(Clone, Copy, Debug, PartialEq, Eq, Structural)]
pub enum ConnectionState {
    Unspecified,
    New,
    Connecting,
    Connected,
    Disconnected,
    Failed,
    Closed,
}

/// The signaling state of a peer connection as its media stack reports it.
#[derive(Clone, Copy, Debug, PartialEq, Eq, Structural)]
pub enum SignalingState {
    Unspecified,
    Stable,
    HaveLocalOffer,
    HaveRemoteOffer,
    HaveLocalPranswer,
    HaveRemotePranswer,
    Closed,
}

/// What the host reads from a peer connection right before it hands an
/// inbound message to the engine.
#[derive(Clone, Copy, Debug, PartialEq, Eq, Structural)]
pub struct ConnectionStatus {
    /// The signaling state of the connection.
    pub signaling: SignalingState,
    /// Whether a remote description has been applied to the connection.
    pub has_remote_description: bool,
}

/// What the engine knows of a peer connection: the state last reported for
/// it, and the forwarding tracks that it was asked to send and not asked to
/// stop since.
#[derive(Debug, PartialEq, Eq)]
pub struct Connection {
    pub state: ConnectionState,
    pub sending: Vec<TrackId>,
}

/// A participant of a room.
#[derive(Debug, PartialEq, Eq)]
pub struct Peer {
    pub id: u32,
    pub room_id: u32,
    pub conn: Connection,
    pub name: Option<String>,
    pub video: Option<PeerTrack>,
    pub audio: Option<PeerTrack>,
    pub pending_candidates: Vec<IceCandidateInit>,
}

/// The mathematical content of a [`Peer`].
pub struct PeerView {
    pub id: u32,
    pub room_id: u32,
    pub state: ConnectionState,
    pub sending: Seq<TrackId>,
    pub name: Option<String>,
    pub video: Option<PeerTrack>,
    pub audio: Option<PeerTrack>,
    pub pending_candidates: Seq<IceCandidateInit>,
}

impl View for Peer {
    type V = PeerView;

    open spec fn view(&self) -> PeerView {
        PeerView {
            id: self.id,
            room_id: self.room_id,
            state: self.conn.state,
            sending: self.conn.sending@,
            name: self.name,
            video: self.video,
            audio: self.audio,
            pending_candidates: self.pending_candidates@,
        }
    }
}

/// The tracks of `sending` that are not forwarding tracks of `source`, in
/// their order, among the first `n`.
pub open spec fn without_source(sending: Seq<TrackId>, source: u32, n: int) -> Seq<TrackId>
    decreases n,
{
    if n <= 0 {
        Seq::empty()
    } else if sending[n - 1].peer_id == source {
        without_source(sending, source, n - 1)
    } else {
        without_source(sending, source, n - 1).push(sending[n - 1])
    }
}

impl PeerView {
    /// A peer that has just been created.
    pub open spec fn fresh(id: u32, room_id: u32) -> PeerView {
        PeerView {
            id,
            room_id,
            state: ConnectionState::New,
            sending: Seq::empty(),
            name: None,
            video: None,
            audio: None,
            pending_candidates: Seq::empty(),
        }
    }

    /// The published track of the given kind, if any.
    pub open spec fn track(self, kind: MediaKind) -> Option<PeerTrack> {
        match kind {
            MediaKind::Audio => self.audio,
            MediaKind::Video => self.video,
        }
    }

    /// Whether the peer has published both an audio and a video track.
    pub open spec fn is_audio_and_video(self) -> bool {
        self.audio is Some && self.video is Some
    }

    /// Whether the peer may be shown in a membership list.
    pub open spec fn is_listed(self) -> bool {
        self.state == ConnectionState::Connected && self.name is Some
    }

    /// The peer after its name was set.
    pub open spec fn named(self, name: String) -> PeerView {
        PeerView { name: Some(name), ..self }
    }

    /// The peer after a connection state was reported for it.
    pub open spec fn in_state(self, state: ConnectionState) -> PeerView {
        PeerView { state, ..self }
    }

    /// The peer after it published a track.
    pub open spec fn publishing(self, track: Track) -> PeerView {
        match track.kind {
            MediaKind::Audio => PeerView { audio: Some(track.inner), ..self },
            MediaKind::Video => PeerView { video: Some(track.inner), ..self },
        }
    }

    /// The peer after a track was handed to it for recording: the track is
    /// recorded if the peer has none of that kind, and the peer stays as it
    /// is otherwise. A track is set at most once.
    pub open spec fn after_track(self, track: Track) -> PeerView {
        if self.track(track.kind) is Some {
            self
        } else {
            self.publishing(track)
        }
    }

    /// The peer after it was asked to send one more forwarding track.
    pub open spec fn sending_also(self, track: TrackId) -> PeerView {
        PeerView { sending: self.sending.push(track), ..self }
    }

    /// The peer after it was asked to stop the forwarding tracks of
    /// `source`.
    pub open spec fn stopped(self, source: u32) -> PeerView {
        PeerView {
            sending: without_source(self.sending, source, self.sending.len() as int),
            ..self
        }
    }

    /// The peer with an empty candidate buffer.
    pub open spec fn flushed(self) -> PeerView {
        PeerView { pending_candidates: Seq::empty(), ..self }
    }

    /// The message that tells the client its id.
    pub open spec fn id_action(self) -> ActionView {
        ActionView::Send { peer_id: self.id, message: ServerMessageView::Id(self.id) }
    }

    /// The buffered candidates applied to the connection, in arrival order.
    pub open spec fn flush_actions(self) -> Seq<ActionView> {
        Seq::new(
            self.pending_candidates.len(),
            |i: int|
                ActionView::AddIceCandidate {
                    peer_id: self.id,
                    candidate: self.pending_candidates[i],
                },
        )
    }

    /// A remote description applied, followed by the buffered candidates.
    pub open spec fn remote_description_actions(self, sdp_type: SdpKind, sdp: String) -> Seq<
        ActionView,
    > {
        seq![ActionView::SetRemoteDescription { peer_id: self.id, sdp_type, sdp }]
            + self.flush_actions()
    }

    /// What an inbound offer asks for: nothing unless signaling is stable;
    /// else the offer applied, the buffer flushed and an answer created.
    pub open spec fn offer_actions(self, sdp: String, signaling: SignalingState) -> Seq<
        ActionView,
    > {
        if signaling == SignalingState::Stable {
            self.remote_description_actions(SdpKind::Offer, sdp).push(
                ActionView::CreateAnswer { peer_id: self.id },
            )
        } else {
            Seq::empty()
        }
    }

    /// The peer after an inbound offer.
    pub open spec fn after_offer(self, signaling: SignalingState) -> PeerView {
        if signaling == SignalingState::Stable {
            self.flushed()
        } else {
            self
        }
    }

    /// What an inbound candidate asks for: applied at once when a remote
    /// description is set, nothing otherwise.
    pub open spec fn candidate_actions(
        self,
        candidate: IceCandidateInit,
        has_remote_description: bool,
    ) -> Seq<ActionView> {
        if has_remote_description {
            seq![ActionView::AddIceCandidate { peer_id: self.id, candidate }]
        } else {
            Seq::empty()
        }
    }

    /// The peer after an inbound candidate: buffered unless applied.
    pub open spec fn after_candidate(
        self,
        candidate: IceCandidateInit,
        has_remote_description: bool,
    ) -> PeerView {
        if has_remote_description {
            self
        } else {
            PeerView { pending_candidates: self.pending_candidates.push(candidate), ..self }
        }
    }

    /// The keyframe request for the peer's video, if it has published one.
    pub open spec fn pli_actions(self) -> Seq<ActionView> {
        match self.video {
            Some(video) => seq![
                ActionView::WritePli { peer_id: self.id, sender_ssrc: 0, media_ssrc: video.ssrc },
            ],
            None => Seq::empty(),
        }
    }
}

/// The candidates that a list of actions applies to a connection, in
/// order, among the first `n` actions.
pub open spec fn applied_candidates(actions: Seq<ActionView>, n: int) -> Seq<IceCandidateInit>
    decreases n,
{
    if n <= 0 {
        Seq::empty()
    } else {
        match actions[n - 1] {
            ActionView::AddIceCandidate { peer_id, candidate } => applied_candidates(
                actions,
                n - 1,
            ).push(candidate),
            _ => applied_candidates(actions, n - 1),
        }
    }
}

/// The peer after the first `n` of `candidates` have arrived, one by one.
pub open spec fn after_candidates(
    peer: PeerView,
    candidates: Seq<IceCandidateInit>,
    has_remote_description: bool,
    n: int,
) -> PeerView
    decreases n,
{
    if n <= 0 {
        peer
    } else {
        after_candidates(peer, candidates, has_remote_description, n - 1).after_candidate(
            candidates[n - 1],
            has_remote_description,
        )
    }
}

/// What the arrival of the first `n` of `candidates`, one by one, asks for.
pub open spec fn candidates_actions(
    peer: PeerView,
    candidates: Seq<IceCandidateInit>,
    has_remote_description: bool,
    n: int,
) -> Seq<ActionView>
    decreases n,
{
    if n <= 0 {
        Seq::empty()
    } else {
        candidates_actions(peer, candidates, has_remote_description, n - 1) + after_candidates(
            peer,
            candidates,
            has_remote_description,
            n - 1,
        ).candidate_actions(candidates[n - 1], has_remote_description)
    }
}

/// The candidates applied by two lists of actions in a row are those of the
/// first followed by those of the second.
pub proof fn lemma_applied_candidates_concat(a: Seq<ActionView>, b: Seq<ActionView>, n: int)
    requires
        0 <= n <= b.len(),
    ensures
        applied_candidates(a + b, a.len() + n) == applied_candidates(a, a.len() as int)
            + applied_candidates(b, n),
    decreases n,
{
    if n > 0 {
        lemma_applied_candidates_concat(a, b, n - 1);
        assert((a + b)[a.len() + n - 1] == b[n - 1]);
        assert(applied_candidates(a + b, a.len() + n) =~= applied_candidates(a, a.len() as int)
            + applied_candidates(b, n));
    } else {
        lemma_applied_candidates_prefix(a, a + b, a.len() as int);
        assert(applied_candidates(a, a.len() as int) + applied_candidates(b, 0)
            =~= applied_candidates(a, a.len() as int));
    }
}

/// What the first `n` actions apply depends on those actions alone.
pub proof fn lemma_applied_candidates_prefix(a: Seq<ActionView>, b: Seq<ActionView>, n: int)
    requires
        0 <= n <= a.len(),
        n <= b.len(),
        forall|k: int| 0 <= k < n ==> a[k] == b[k],
    ensures
        applied_candidates(a, n) == applied_candidates(b, n),
    decreases n,
{
    if n > 0 {
        lemma_applied_candidates_prefix(a, b, n - 1);
    }
}

/// Candidates that arrive while no remote description is set are buffered
/// in arrival order and nothing is applied.
pub proof fn lemma_candidates_buffered(peer: PeerView, candidates: Seq<IceCandidateInit>, n: int)
    requires
        0 <= n <= candidates.len(),
    ensures
        after_candidates(peer, candidates, false, n) == (PeerView {
            pending_candidates: peer.pending_candidates + candidates.subrange(0, n),
            ..peer
        }),
        candidates_actions(peer, candidates, false, n) == Seq::<ActionView>::empty(),
    decreases n,
{
    if n > 0 {
        lemma_candidates_buffered(peer, candidates, n - 1);
        assert(peer.pending_candidates + candidates.subrange(0, n) =~= (peer.pending_candidates
            + candidates.subrange(0, n - 1)).push(candidates[n - 1]));
        assert(candidates_actions(peer, candidates, false, n) =~= Seq::<ActionView>::empty());
    } else {
        assert(peer.pending_candidates + candidates.subrange(0, 0) =~= peer.pending_candidates);
    }
}

/// Candidates that arrive while a remote description is set are applied at
/// once, in arrival order, and none is buffered.
pub proof fn lemma_candidates_applied(peer: PeerView, candidates: Seq<IceCandidateInit>, n: int)
    requires
        0 <= n <= candidates.len(),
    ensures
        after_candidates(peer, candidates, true, n) == peer,
        candidates_actions(peer, candidates, true, n).len() == n,
        applied_candidates(candidates_actions(peer, candidates, true, n), n)
            == candidates.subrange(0, n),
    decreases n,
{
    if n > 0 {
        lemma_candidates_applied(peer, candidates, n - 1);
        let before = candidates_actions(peer, candidates, true, n - 1);
        let all = candidates_actions(peer, candidates, true, n);
        assert(all =~= before.push(
            ActionView::AddIceCandidate { peer_id: peer.id, candidate: candidates[n - 1] },
        ));
        lemma_applied_candidates_prefix(before, all, n - 1);
        assert(applied_candidates(all, n) =~= candidates.subrange(0, n));
    } else {
        assert(applied_candidates(candidates_actions(peer, candidates, true, n), n)
            =~= candidates.subrange(0, n));
    }
}

/// Applying a remote description applies the buffered candidates in the
/// order in which they were buffered.
pub proof fn lemma_flush_applies_buffer(
    peer: PeerView,
    sdp_type: SdpKind,
    sdp: String,
    n: int,
)
    requires
        0 <= n <= peer.pending_candidates.len(),
    ensures
        applied_candidates(peer.remote_description_actions(sdp_type, sdp), n + 1)
            == peer.pending_candidates.subrange(0, n),
    decreases n,
{
    let actions = peer.remote_description_actions(sdp_type, sdp);
    if n > 0 {
        lemma_flush_applies_buffer(peer, sdp_type, sdp, n - 1);
        assert(actions[n] == ActionView::AddIceCandidate {
            peer_id: peer.id,
            candidate: peer.pending_candidates[n - 1],
        });
        assert(applied_candidates(actions, n + 1) =~= peer.pending_candidates.subrange(0, n));
    } else {
        assert(actions[0] == ActionView::SetRemoteDescription { peer_id: peer.id, sdp_type, sdp });
        assert(applied_candidates(actions, 0) =~= Seq::<IceCandidateInit>::empty());
        assert(applied_candidates(actions, 1) =~= peer.pending_candidates.subrange(0, 0));
    }
}

/// Candidate buffering. Let `early` candidates arrive at a peer while its
/// connection has no remote description, then a remote description, then
/// `late` candidates. Nothing is applied before the description; from the
/// description on, the connection is handed exactly what the buffer held
/// before, the early candidates and the late ones, each once and in arrival
/// order, and the buffer is empty again.
pub proof fn lemma_candidate_buffering(
    peer: PeerView,
    early: Seq<IceCandidateInit>,
    sdp_type: SdpKind,
    sdp: String,
    late: Seq<IceCandidateInit>,
)
    ensures
        ({
            let waiting = after_candidates(peer, early, false, early.len() as int);
            let first = candidates_actions(peer, early, false, early.len() as int);
            let second = waiting.remote_description_actions(sdp_type, sdp);
            let third = candidates_actions(waiting.flushed(), late, true, late.len() as int);
            let done = after_candidates(waiting.flushed(), late, true, late.len() as int);
            &&& first == Seq::<ActionView>::empty()
            &&& waiting.pending_candidates == peer.pending_candidates + early
            &&& applied_candidates(
                first + second + third,
                (first + second + third).len() as int,
            ) == peer.pending_candidates + early + late
            &&& done.pending_candidates == Seq::<IceCandidateInit>::empty()
        }),
{
    let waiting = after_candidates(peer, early, false, early.len() as int);
    let first = candidates_actions(peer, early, false, early.len() as int);
    let second = waiting.remote_description_actions(sdp_type, sdp);
    let third = candidates_actions(waiting.flushed(), late, true, late.len() as int);
    let buffered = peer.pending_candidates + early;
    lemma_candidates_buffered(peer, early, early.len() as int);
    assert(early.subrange(0, early.len() as int) =~= early);
    lemma_flush_applies_buffer(waiting, sdp_type, sdp, buffered.len() as int);
    assert(buffered.subrange(0, buffered.len() as int) =~= buffered);
    lemma_candidates_applied(waiting.flushed(), late, late.len() as int);
    assert(late.subrange(0, late.len() as int) =~= late);
    assert(first + second =~= second);
    lemma_applied_candidates_concat(second, third, third.len() as int);
}

impl Clone for Peer {
    fn clone(&self) -> (res: Self)
        ensures
            res@ == self@,
    {
        let mut sending: Vec<TrackId> = Vec::new();
        let mut i: usize = 0;
        while i < self.conn.sending.len()
            invariant
                0 <= i <= self.conn.sending@.len(),
                sending@ == self.conn.sending@.subrange(0, i as int),
            decreases self.conn.sending@.len() - i,
        {
            sending.push(self.conn.sending[i]);
            i += 1;
        }
        let mut pending_candidates: Vec<IceCandidateInit> = Vec::new();
        let mut k: usize = 0;
        while k < self.pending_candidates.len()
            invariant
                0 <= k <= self.pending_candidates@.len(),
                pending_candidates@ == self.pending_candidates@.subrange(0, k as int),
            decreases self.pending_candidates@.len() - k,
        {
            pending_candidates.push(self.pending_candidates[k].clone());
            k += 1;
        }
        assert(sending@ =~= self.conn.sending@);
        assert(pending_candidates@ =~= self.pending_candidates@);
        Peer {
            id: self.id,
            room_id: self.room_id,
            conn: Connection { state: self.conn.state, sending },
            name: clone_optional_string(&self.name),
            video: self.video,
            audio: self.audio,
            pending_candidates,
        }
    }
}

impl Peer {
    /// Creates the peer `id` of room `room_id` and tells its client the id.
    pub fn new(id: u32, room_id: u32, out: &mut Vec<Action>) -> (peer: Peer)
        ensures
            peer@ == PeerView::fresh(id, room_id),
            views(final(out)@) == views(old(out)@).push(peer@.id_action()),
    {
        let peer = Peer {
            id,
            room_id,
            conn: Connection { state: ConnectionState::New, sending: Vec::new() },
            name: None,
            video: None,
            audio: None,
            pending_candidates: Vec::new(),
        };
        emit(out, Action::Send { peer_id: id, message: ServerMessage::Id(id) });
        peer
    }

    /// Records the connection state that the media stack reports and tells
    /// whether the peer has just become connected. Every other state is
    /// recorded and otherwise ignored.
    pub fn on_connected(&mut self, state: ConnectionState) -> (connected: bool)
        ensures
            final(self)@ == old(self)@.in_state(state),
            connected == (state == ConnectionState::Connected),
    {
        self.conn.state = state;
        state == ConnectionState::Connected
    }

    /// Forwards a locally gathered candidate to the client. The end of
    /// gathering, reported as no candidate, is not forwarded.
    pub fn on_candidate(&self, candidate: Option<IceCandidateInit>, out: &mut Vec<Action>)
        ensures
            views(final(out)@) == views(old(out)@) + (match candidate {
                Some(c) => seq![
                    ActionView::Send { peer_id: self.id, message: ServerMessageView::Candidate(c) },
                ],
                None => Seq::empty(),
            }),
    {
        match candidate {
            Some(c) => {
                emit(out, Action::Send { peer_id: self.id, message: ServerMessage::Candidate(c) });
            },
            None => {},
        }
    }

    /// Applies a remote description and then the candidates that were
    /// buffered while none was set, in the order in which they arrived.
    pub fn set_remote_description(
        &mut self,
        sdp_type: SdpKind,
        sdp: String,
        out: &mut Vec<Action>,
    )
        ensures
            final(self)@ == old(self)@.flushed(),
            views(final(out)@) == views(old(out)@) + old(self)@.remote_description_actions(
                sdp_type,
                sdp,
            ),
    {
        emit(out, Action::SetRemoteDescription { peer_id: self.id, sdp_type, sdp });
        let mut i: usize = 0;
        while i < self.pending_candidates.len()
            invariant
                0 <= i <= self.pending_candidates@.len(),
                *self == *old(self),
                views(out@) == views(old(out)@) + self@.remote_description_actions(
                    sdp_type,
                    sdp,
                ).subrange(0, i + 1),
            decreases self.pending_candidates@.len() - i,
        {
            let candidate = self.pending_candidates[i].clone();
            emit(out, Action::AddIceCandidate { peer_id: self.id, candidate });
            i += 1;
        }
        self.pending_candidates.clear();
    }

    /// Whether the peer has published both an audio and a video track.
    pub fn is_audio_and_video(&self) -> (both: bool)
        ensures
            both == self@.is_audio_and_video(),
    {
        self.audio.is_some() && self.video.is_some()
    }

    /// The published track of the given kind, if any.
    pub fn track(&self, kind: MediaKind) -> (track: Option<PeerTrack>)
        ensures
            track == self@.track(kind),
    {
        match kind {
            MediaKind::Audio => self.audio,
            MediaKind::Video => self.video,
        }
    }

    /// Asks the connection for a transceiver that receives media of the
    /// given kind.
    pub fn add_recvonly_transceiver(&self, kind: MediaKind, out: &mut Vec<Action>)
        ensures
            views(final(out)@) == views(old(out)@).push(
                ActionView::AddRecvonlyTransceiver { peer_id: self.id, kind },
            ),
    {
        emit(out, Action::AddRecvonlyTransceiver { peer_id: self.id, kind });
    }

    /// Asks the connection for a transceiver that sends another peer's
    /// forwarding track, and remembers that the track is being sent.
    pub fn add_sendonly_transceiver(&mut self, track: TrackId, out: &mut Vec<Action>)
        ensures
            final(self)@ == old(self)@.sending_also(track),
            views(final(out)@) == views(old(out)@).push(
                ActionView::AddSendonlyTransceiver { peer_id: old(self).id, track },
            ),
    {
        self.conn.sending.push(track);
        emit(out, Action::AddSendonlyTransceiver { peer_id: self.id, track });
    }

    /// Asks the connection to stop every transceiver that sends a forwarding
    /// track of `peer_id`, and forgets those tracks.
    pub fn stop_transceivers(&mut self, peer_id: u32, out: &mut Vec<Action>)
        ensures
            final(self)@ == old(self)@.stopped(peer_id),
            views(final(out)@) == views(old(out)@).push(
                ActionView::StopTransceivers { peer_id: old(self).id, source: peer_id },
            ),
    {
        let mut kept: Vec<TrackId> = Vec::new();
        let mut i: usize = 0;
        while i < self.conn.sending.len()
            invariant
                0 <= i <= self.conn.sending@.len(),
                *self == *old(self),
                kept@ == without_source(self.conn.sending@, peer_id, i as int),
            decreases self.conn.sending@.len() - i,
        {
            let track = self.conn.sending[i];
            if track.peer_id != peer_id {
                kept.push(track);
            }
            i += 1;
        }
        self.conn.sending = kept;
        emit(out, Action::StopTransceivers { peer_id: self.id, source: peer_id });
    }

    /// Sets the name under which the peer is shown to the others.
    pub fn set_name(&mut self, name: String)
        ensures
            final(self)@ == old(self)@.named(name),
    {
        self.name = Some(name)
    }

    /// Records a track that the peer has published. A peer publishes at most
    /// one track of each kind: a track of a kind that is already recorded is
    /// not recorded, and the peer stays as it is.
    pub fn set_track(&mut self, track: Track)
        ensures
            final(self)@ == old(self)@.after_track(track),
            old(self)@.track(track.kind) is Some ==> final(self)@ == old(self)@,
            old(self)@.track(track.kind) is None ==> final(self)@ == old(self)@.publishing(track),
    {
        match track.kind {
            MediaKind::Audio => {
                if self.audio.is_none() {
                    self.audio = Some(track.inner);
                }
            },
            MediaKind::Video => {
                if self.video.is_none() {
                    self.video = Some(track.inner);
                }
            },
        }
    }

    /// Sends a message to the peer's client.
    pub fn send_message(&self, message: ServerMessage, out: &mut Vec<Action>)
        ensures
            views(final(out)@) == views(old(out)@).push(
                ActionView::Send { peer_id: self.id, message: message@ },
            ),
    {
        emit(out, Action::Send { peer_id: self.id, message });
    }

    /// Requests a keyframe from the peer, if it has published video: a
    /// picture loss indication for the source of its video track.
    pub fn send_pli(&self, out: &mut Vec<Action>)
        ensures
            views(final(out)@) == views(old(out)@) + self@.pli_actions(),
    {
        match self.video {
            Some(video) => {
                emit(
                    out,
                    Action::WritePli { peer_id: self.id, sender_ssrc: 0, media_ssrc: video.ssrc },
                );
            },
            None => {},
        }
    }

    /// Starts an offer from the server: asks the connection to create one.
    /// Once it is created it is applied as the local description and sent
    /// to the client.
    pub fn send_offer(&self, out: &mut Vec<Action>)
        ensures
            views(final(out)@) == views(old(out)@).push(
                ActionView::CreateOffer { peer_id: self.id },
            ),
    {
        emit(out, Action::CreateOffer { peer_id: self.id });
    }

    /// Handles an offer from the client. While the signaling state is not
    /// stable the offer is dropped: an offer of the server is in flight and
    /// wins. Otherwise the offer is applied, the buffered candidates follow,
    /// and the connection is asked for an answer, which is then applied as
    /// the local description and sent to the client.
    pub fn recv_offer(&mut self, sdp: String, signaling: SignalingState, out: &mut Vec<Action>)
        ensures
            final(self)@ == old(self)@.after_offer(signaling),
            views(final(out)@) == views(old(out)@) + old(self)@.offer_actions(sdp, signaling),
            signaling != SignalingState::Stable ==> final(self)@ == old(self)@ && views(
                final(out)@,
            ) == views(old(out)@),
    {
        if signaling != SignalingState::Stable {
            return ;
        }
        self.set_remote_description(SdpKind::Offer, sdp, out);
        emit(out, Action::CreateAnswer { peer_id: self.id });
    }

    /// Handles an answer from the client: it is applied, and the buffered
    /// candidates follow.
    pub fn recv_answer(&mut self, sdp: String, out: &mut Vec<Action>)
        ensures
            final(self)@ == old(self)@.flushed(),
            views(final(out)@) == views(old(out)@) + old(self)@.remote_description_actions(
                SdpKind::Answer,
                sdp,
            ),
    {
        self.set_remote_description(SdpKind::Answer, sdp, out);
    }

    /// Handles a candidate from the client: applied at once when the
    /// connection has a remote description, buffered until then.
    pub fn add_candidate(
        &mut self,
        candidate: IceCandidateInit,
        has_remote_description: bool,
        out: &mut Vec<Action>,
    )
        ensures
            final(self)@ == old(self)@.after_candidate(candidate, has_remote_description),
            views(final(out)@) == views(old(out)@) + old(self)@.candidate_actions(
                candidate,
                has_remote_description,
            ),
    {
        if has_remote_description {
            emit(out, Action::AddIceCandidate { peer_id: self.id, candidate });
        } else {
            self.pending_candidates.push(candidate);
        }
    }

    /// Closes the peer's connection.
    pub fn close(&self, out: &mut Vec<Action>)
        ensures
            views(final(out)@) == views(old(out)@).push(ActionView::Close { peer_id: self.id }),
    {
        emit(out, Action::Close { peer_id: self.id });
    }
}

} // verus!
