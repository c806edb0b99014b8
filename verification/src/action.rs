//! The work that the engine asks its host to carry out on a peer's
//! transport and on its peer connection.
//!
//! The host performs the actions of a list in order and stops at the first
//! one that fails. Two actions hand a value back to the engine:
//! [`Action::CreateOffer`] and [`Action::CreateAnswer`] yield a session
//! description, for which the agenda then says what follows.

use vstd::prelude::*;

use crate::signal::{IceCandidateInit, ServerMessage, ServerMessageView};
use crate::track::{MediaKind, TrackId};

verus! {

/// Whether a session description is an offer or an answer.
#[derive(Clone, Copy, Debug, PartialEq, Eq, Structural)]
pub enum SdpKind {
    Offer,
    Answer,
}

/// One piece of work on the transport or the connection of peer `peer_id`.
#[derive(Debug, PartialEq, Eq)]
pub enum Action {
    /// Send a message to the peer's client.
    Send { peer_id: u32, message: ServerMessage },
    /// Add a transceiver that only receives media of the given kind.
    AddRecvonlyTransceiver { peer_id: u32, kind: MediaKind },
    /// Add a transceiver that only sends the given forwarding track.
    AddSendonlyTransceiver { peer_id: u32, track: TrackId },
    /// Stop the transceivers that send a forwarding track of peer `source`.
    StopTransceivers { peer_id: u32, source: u32 },
    /// Create an offer and hand its description back.
    CreateOffer { peer_id: u32 },
    /// Create an answer and hand its description back.
    CreateAnswer { peer_id: u32 },
    /// Apply a description as the local one.
    SetLocalDescription { peer_id: u32, sdp_type: SdpKind, sdp: String },
    /// Apply a description as the remote one.
    SetRemoteDescription { peer_id: u32, sdp_type: SdpKind, sdp: String },
    /// Apply a remote ICE candidate.
    AddIceCandidate { peer_id: u32, candidate: IceCandidateInit },
    /// Write a picture loss indication for the given media source.
    WritePli { peer_id: u32, sender_ssrc: u32, media_ssrc: u32 },
    /// Close the connection.
    Close { peer_id: u32 },
}

/// The mathematical content of an [`Action`].
pub enum ActionView {
    Send { peer_id: u32, message: ServerMessageView },
    AddRecvonlyTransceiver { peer_id: u32, kind: MediaKind },
    AddSendonlyTransceiver { peer_id: u32, track: TrackId },
    StopTransceivers { peer_id: u32, source: u32 },
    CreateOffer { peer_id: u32 },
    CreateAnswer { peer_id: u32 },
    SetLocalDescription { peer_id: u32, sdp_type: SdpKind, sdp: String },
    SetRemoteDescription { peer_id: u32, sdp_type: SdpKind, sdp: String },
    AddIceCandidate { peer_id: u32, candidate: IceCandidateInit },
    WritePli { peer_id: u32, sender_ssrc: u32, media_ssrc: u32 },
    Close { peer_id: u32 },
}

impl View for Action {
    type V = ActionView;

    open spec fn view(&self) -> ActionView {
        match *self {
            Action::Send { peer_id, message } => ActionView::Send { peer_id, message: message@ },
            Action::AddRecvonlyTransceiver { peer_id, kind } => ActionView::AddRecvonlyTransceiver {
                peer_id,
                kind,
            },
            Action::AddSendonlyTransceiver { peer_id, track } => ActionView::AddSendonlyTransceiver {
                peer_id,
                track,
            },
            Action::StopTransceivers { peer_id, source } => ActionView::StopTransceivers {
                peer_id,
                source,
            },
            Action::CreateOffer { peer_id } => ActionView::CreateOffer { peer_id },
            Action::CreateAnswer { peer_id } => ActionView::CreateAnswer { peer_id },
            Action::SetLocalDescription { peer_id, sdp_type, sdp } => ActionView::SetLocalDescription {
                peer_id,
                sdp_type,
                sdp,
            },
            Action::SetRemoteDescription { peer_id, sdp_type, sdp } => ActionView::SetRemoteDescription {
                peer_id,
                sdp_type,
                sdp,
            },
            Action::AddIceCandidate { peer_id, candidate } => ActionView::AddIceCandidate {
                peer_id,
                candidate,
            },
            Action::WritePli { peer_id, sender_ssrc, media_ssrc } => ActionView::WritePli {
                peer_id,
                sender_ssrc,
                media_ssrc,
            },
            Action::Close { peer_id } => ActionView::Close { peer_id },
        }
    }
}

/// The contents of a list of actions, in order.
pub open spec fn views(actions: Seq<Action>) -> Seq<ActionView> {
    Seq::new(actions.len(), |i: int| actions[i]@)
}

/// Appends one action to a list.
pub fn emit(out: &mut Vec<Action>, action: Action)
    ensures
        views(final(out)@) == views(old(out)@).push(action@),
{
    out.push(action);
}

/// A new, empty list of actions.
pub fn no_actions() -> (out: Vec<Action>)
    ensures
        views(out@) == Seq::<ActionView>::empty(),
{
    Vec::new()
}

} // verus!
