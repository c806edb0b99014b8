//! Media tracks: their kinds, the names of the forwarding tracks that the
//! server publishes for them, and the rules of the pipe that copies packets
//! from a remote track into its forwarding track.

use vstd::prelude::*;
use vstd::string::*;

use crate::text::{
    decimal, is_prefix, lemma_decimal_prefix, push_char, push_decimal, starts_with,
};

verus! {

/// The kind of media that a track carries.
#[derive(Clone, Copy, Debug, PartialEq, Eq, Hash, Structural)]
pub enum MediaKind {
    Audio,
    Video,
}

/// The kind of media of a codec as a media stack reports it for a remote
/// track.
#[derive(Clone, Copy, Debug, PartialEq, Eq, Hash, Structural)]
pub enum CodecType {
    Unspecified,
    Audio,
    Video,
}

/// The kind of media that a remote track of the given codec type carries. A
/// track of unspecified type carries neither audio nor video and is not
/// republished.
pub fn media_kind(codec: CodecType) -> (kind: Option<MediaKind>)
    ensures
        kind == (match codec {
            CodecType::Unspecified => None::<MediaKind>,
            CodecType::Audio => Some(MediaKind::Audio),
            CodecType::Video => Some(MediaKind::Video),
        }),
{
    match codec {
        CodecType::Unspecified => None,
        CodecType::Audio => Some(MediaKind::Audio),
        CodecType::Video => Some(MediaKind::Video),
    }
}

/// Names the forwarding track that republishes what peer `peer_id` sends of
/// the given kind.
#[derive(Clone, Copy, Debug, PartialEq, Eq, Hash, Structural)]
pub struct TrackId {
    pub peer_id: u32,
    pub kind: MediaKind,
}

/// A published track: the synchronisation source of the remote track that
/// feeds the peer's forwarding track, by which feedback is addressed to the
/// client that sends it.
#[derive(Clone, Copy, Debug, PartialEq, Eq, Structural)]
pub struct PeerTrack {
    pub ssrc: u32,
}

/// A published track together with its kind, as the pipe hands it to the
/// session.
#[derive(Clone, Copy, Debug, PartialEq, Eq, Structural)]
pub struct Track {
    pub inner: PeerTrack,
    pub kind: MediaKind,
}

/// The word that stands for a media kind in a track name.
pub open spec fn kind_name(kind: MediaKind) -> Seq<char> {
    match kind {
        MediaKind::Audio => "audio"@,
        MediaKind::Video => "video"@,
    }
}

/// The name of a forwarding track: the decimal peer id, a hyphen, the kind.
pub open spec fn track_name(id: TrackId) -> Seq<char> {
    decimal(id.peer_id as nat).push('-') + kind_name(id.kind)
}

/// What the name of every forwarding track of peer `peer_id` begins with.
pub open spec fn source_prefix(peer_id: u32) -> Seq<char> {
    decimal(peer_id as nat).push('-')
}

/// Whether a track name marks the track as a forwarding track of `peer_id`.
pub open spec fn sourced_from(name: Seq<char>, peer_id: u32) -> bool {
    is_prefix(source_prefix(peer_id), name)
}

/// The name of a forwarding track tells whose it is: the track called after
/// `track` is sourced from `peer_id` exactly if `peer_id` is the peer of
/// `track`. So the tracks of peer 1 are never taken for those of peer 10.
pub proof fn lemma_track_name_source(track: TrackId, peer_id: u32)
    ensures
        sourced_from(track_name(track), peer_id) <==> track.peer_id == peer_id,
{
    lemma_decimal_prefix(peer_id as nat, track.peer_id as nat, kind_name(track.kind));
}

/// Stopping by name stops by source. Where every transceiver sends the
/// forwarding track named in `tracks` at its position, the transceivers
/// selected for `peer_id` are exactly those that send a track of `peer_id`.
pub proof fn lemma_stops_tracks_of_source(
    tracks: Seq<TrackId>,
    senders: Seq<Option<String>>,
    peer_id: u32,
    i: int,
)
    requires
        senders.len() == tracks.len(),
        0 <= i < tracks.len(),
        senders[i] is Some,
        senders[i].unwrap()@ == track_name(tracks[i]),
    ensures
        stops_at(senders, peer_id, i) <==> tracks[i].peer_id == peer_id,
{
    lemma_track_name_source(tracks[i], peer_id);
}

impl TrackId {
    /// The name under which the forwarding track is created.
    pub fn name(&self) -> (s: String)
        ensures
            s@ == track_name(*self),
    {
        let mut s = String::new();
        push_decimal(&mut s, self.peer_id);
        push_char(&mut s, '-');
        match self.kind {
            MediaKind::Audio => s.append("audio"),
            MediaKind::Video => s.append("video"),
        }
        s
    }
}

/// Tells whether the track called `name` is a forwarding track of
/// `peer_id`.
pub fn is_sourced_from(name: &str, peer_id: u32) -> (b: bool)
    ensures
        b == sourced_from(name@, peer_id),
{
    let mut prefix = String::new();
    push_decimal(&mut prefix, peer_id);
    push_char(&mut prefix, '-');
    starts_with(name, prefix.as_str())
}

/// Whether the transceiver at position `i` is to be stopped when peer
/// `peer_id` leaves: it has a sender track, and that track is sourced from
/// the leaving peer.
pub open spec fn stops_at(senders: Seq<Option<String>>, peer_id: u32, i: int) -> bool {
    0 <= i < senders.len() && (match senders[i] {
        Some(name) => sourced_from(name@, peer_id),
        None => false,
    })
}

/// The positions, in increasing order, of the transceivers that carry a
/// forwarding track of `peer_id`, among the first `n` transceivers.
pub open spec fn stop_positions(senders: Seq<Option<String>>, peer_id: u32, n: int) -> Seq<usize>
    decreases n,
{
    if n <= 0 {
        Seq::empty()
    } else if stops_at(senders, peer_id, n - 1) {
        stop_positions(senders, peer_id, n - 1).push((n - 1) as usize)
    } else {
        stop_positions(senders, peer_id, n - 1)
    }
}

/// Selects the transceivers to stop when peer `peer_id` leaves. `senders`
/// lists, for each transceiver of a connection in order, the name of the
/// track its sender carries, if any.
pub fn transceivers_to_stop(senders: &Vec<Option<String>>, peer_id: u32) -> (stops: Vec<usize>)
    ensures
        stops@ == stop_positions(senders@, peer_id, senders@.len() as int),
{
    let mut stops: Vec<usize> = Vec::new();
    let mut i: usize = 0;
    while i < senders.len()
        invariant
            0 <= i <= senders@.len(),
            stops@ == stop_positions(senders@, peer_id, i as int),
        decreases senders@.len() - i,
    {
        let stop = match &senders[i] {
            Some(name) => is_sourced_from(name.as_str(), peer_id),
            None => false,
        };
        if stop {
            stops.push(i);
        }
        i += 1;
    }
    stops
}

/// The sending half of a session's track pipe. It knows the peer whose
/// remote tracks it republishes.
#[derive(Clone, Copy, Debug, PartialEq, Eq, Structural)]
pub struct Sender {
    pub peer_id: u32,
}

/// Creates the track pipe of the session of `peer_id`.
pub fn channel(peer_id: u32) -> (tx: Sender)
    ensures
        tx.peer_id == peer_id,
{
    Sender { peer_id }
}

impl Sender {
    /// The forwarding track to create for a remote track of the given kind.
    pub fn forwarding_track(&self, kind: MediaKind) -> (id: TrackId)
        ensures
            id == (TrackId { peer_id: self.peer_id, kind }),
    {
        TrackId { peer_id: self.peer_id, kind }
    }

    /// What the pipe hands to the session, once, when a remote track of the
    /// given kind and synchronisation source has arrived.
    pub fn send(&self, kind: MediaKind, ssrc: u32) -> (track: Track)
        ensures
            track == (Track { inner: PeerTrack { ssrc }, kind }),
    {
        Track { inner: PeerTrack { ssrc }, kind }
    }
}

/// How one round of the copy loop of a pipe ended.
#[derive(Clone, Copy, Debug, PartialEq, Eq, Structural)]
pub enum CopyOutcome {
    /// Reading from the remote track failed: the remote has closed.
    ReadFailed,
    /// The packet was read and written to the forwarding track.
    Written,
    /// Writing failed because the forwarding track's pipe is closed.
    WriteClosedPipe,
    /// Writing failed for another reason.
    WriteFailed,
}

/// What the copy loop of a pipe does next.
#[derive(Clone, Copy, Debug, PartialEq, Eq, Structural)]
pub enum CopyStep {
    /// Read the next packet.
    Continue,
    /// End the task without an error.
    Finish,
    /// End the task and report the write error.
    Abort,
}

/// Decides how the copy loop goes on after one round. A closed pipe is
/// expected during teardown and does not end the loop; the end of the remote
/// track ends it quietly; any other write error ends it with a report.
pub fn next_copy_step(outcome: CopyOutcome) -> (step: CopyStep)
    ensures
        step == (match outcome {
            CopyOutcome::ReadFailed => CopyStep::Finish,
            CopyOutcome::Written => CopyStep::Continue,
            CopyOutcome::WriteClosedPipe => CopyStep::Continue,
            CopyOutcome::WriteFailed => CopyStep::Abort,
        }),
{
    match outcome {
        CopyOutcome::ReadFailed => CopyStep::Finish,
        CopyOutcome::Written => CopyStep::Continue,
        CopyOutcome::WriteClosedPipe => CopyStep::Continue,
        CopyOutcome::WriteFailed => CopyStep::Abort,
    }
}

} // verus!
