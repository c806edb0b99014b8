use sfu_server::action::{Action, SdpKind};
use sfu_server::peer::{ConnectionState, Peer, SignalingState};
use sfu_server::signal::{IceCandidateInit, ServerMessage};
use sfu_server::track::{MediaKind, PeerTrack, Track, TrackId};

fn candidate(text: &str) -> IceCandidateInit {
    IceCandidateInit {
        candidate: String::from(text),
        sdp_mid: Some(String::from("0")),
        sdp_mline_index: Some(0),
        username_fragment: None,
    }
}

fn new_peer(id: u32) -> Peer {
    let mut out = Vec::new();
    Peer::new(id, 1, &mut out)
}

#[test]
fn a_new_peer_is_told_its_id() {
    let mut out = Vec::new();
    let peer = Peer::new(5, 2, &mut out);
    assert_eq!(out, vec![Action::Send { peer_id: 5, message: ServerMessage::Id(5) }]);
    assert_eq!(peer.id, 5);
    assert_eq!(peer.room_id, 2);
    assert_eq!(peer.name, None);
    assert_eq!(peer.video, None);
    assert_eq!(peer.audio, None);
    assert!(peer.pending_candidates.is_empty());
    assert!(peer.conn.sending.is_empty());
    assert_eq!(peer.conn.state, ConnectionState::New);
    assert!(!peer.is_audio_and_video());
}

#[test]
fn only_the_connected_state_counts_as_connected() {
    let mut peer = new_peer(1);
    for state in [
        ConnectionState::Unspecified,
        ConnectionState::New,
        ConnectionState::Connecting,
        ConnectionState::Disconnected,
        ConnectionState::Failed,
        ConnectionState::Closed,
    ] {
        assert!(!peer.on_connected(state));
        assert_eq!(peer.conn.state, state);
    }
    assert!(peer.on_connected(ConnectionState::Connected));
    assert_eq!(peer.conn.state, ConnectionState::Connected);
}

#[test]
fn gathered_candidates_are_forwarded_and_the_end_of_gathering_is_not() {
    let peer = new_peer(3);
    let mut out = Vec::new();
    peer.on_candidate(None, &mut out);
    assert!(out.is_empty());
    peer.on_candidate(Some(candidate("a")), &mut out);
    assert_eq!(
        out,
        vec![Action::Send { peer_id: 3, message: ServerMessage::Candidate(candidate("a")) }]
    );
}

#[test]
fn transceivers_are_asked_of_the_connection() {
    let mut peer = new_peer(4);
    let mut out = Vec::new();
    peer.add_recvonly_transceiver(MediaKind::Video, &mut out);
    peer.add_recvonly_transceiver(MediaKind::Audio, &mut out);
    let track = TrackId { peer_id: 9, kind: MediaKind::Video };
    peer.add_sendonly_transceiver(track, &mut out);
    assert_eq!(
        out,
        vec![
            Action::AddRecvonlyTransceiver { peer_id: 4, kind: MediaKind::Video },
            Action::AddRecvonlyTransceiver { peer_id: 4, kind: MediaKind::Audio },
            Action::AddSendonlyTransceiver { peer_id: 4, track },
        ]
    );
    assert_eq!(peer.conn.sending, vec![track]);
}

#[test]
fn stopping_forgets_the_tracks_of_one_source() {
    let mut peer = new_peer(4);
    let mut out = Vec::new();
    let tracks = [
        TrackId { peer_id: 1, kind: MediaKind::Video },
        TrackId { peer_id: 10, kind: MediaKind::Video },
        TrackId { peer_id: 1, kind: MediaKind::Audio },
        TrackId { peer_id: 2, kind: MediaKind::Audio },
    ];
    for track in tracks {
        peer.add_sendonly_transceiver(track, &mut out);
    }
    out.clear();
    peer.stop_transceivers(1, &mut out);
    assert_eq!(out, vec![Action::StopTransceivers { peer_id: 4, source: 1 }]);
    assert_eq!(peer.conn.sending, vec![tracks[1], tracks[3]]);
    peer.stop_transceivers(7, &mut out);
    assert_eq!(peer.conn.sending, vec![tracks[1], tracks[3]]);
}

#[test]
fn name_and_tracks_are_recorded() {
    let mut peer = new_peer(1);
    peer.set_name(String::from("alice"));
    assert_eq!(peer.name, Some(String::from("alice")));
    peer.set_track(Track { inner: PeerTrack { ssrc: 11 }, kind: MediaKind::Audio });
    assert_eq!(peer.audio, Some(PeerTrack { ssrc: 11 }));
    assert_eq!(peer.track(MediaKind::Audio), Some(PeerTrack { ssrc: 11 }));
    assert_eq!(peer.track(MediaKind::Video), None);
    assert!(!peer.is_audio_and_video());
    peer.set_track(Track { inner: PeerTrack { ssrc: 22 }, kind: MediaKind::Video });
    assert_eq!(peer.video, Some(PeerTrack { ssrc: 22 }));
    assert!(peer.is_audio_and_video());
}

#[test]
fn a_track_is_set_at_most_once() {
    let mut peer = new_peer(1);
    peer.set_track(Track { inner: PeerTrack { ssrc: 11 }, kind: MediaKind::Audio });
    peer.set_track(Track { inner: PeerTrack { ssrc: 12 }, kind: MediaKind::Audio });
    assert_eq!(peer.audio, Some(PeerTrack { ssrc: 11 }));
    assert_eq!(peer.video, None);
    peer.set_track(Track { inner: PeerTrack { ssrc: 21 }, kind: MediaKind::Video });
    peer.set_track(Track { inner: PeerTrack { ssrc: 22 }, kind: MediaKind::Video });
    assert_eq!(peer.audio, Some(PeerTrack { ssrc: 11 }));
    assert_eq!(peer.video, Some(PeerTrack { ssrc: 21 }));
}

#[test]
fn a_remote_description_is_applied_before_the_buffered_candidates() {
    let mut peer = new_peer(8);
    let mut out = Vec::new();
    peer.add_candidate(candidate("a"), false, &mut out);
    peer.add_candidate(candidate("b"), false, &mut out);
    peer.set_remote_description(SdpKind::Offer, String::from("sdp"), &mut out);
    assert_eq!(
        out,
        vec![
            Action::SetRemoteDescription {
                peer_id: 8,
                sdp_type: SdpKind::Offer,
                sdp: String::from("sdp"),
            },
            Action::AddIceCandidate { peer_id: 8, candidate: candidate("a") },
            Action::AddIceCandidate { peer_id: 8, candidate: candidate("b") },
        ]
    );
    assert!(peer.pending_candidates.is_empty());
    out.clear();
    peer.set_remote_description(SdpKind::Answer, String::from("again"), &mut out);
    assert_eq!(
        out,
        vec![Action::SetRemoteDescription {
            peer_id: 8,
            sdp_type: SdpKind::Answer,
            sdp: String::from("again"),
        }]
    );
}

#[test]
fn pli_names_the_video_source_and_needs_a_video_track() {
    let mut peer = new_peer(2);
    let mut out = Vec::new();
    peer.send_pli(&mut out);
    assert!(out.is_empty());
    peer.set_track(Track { inner: PeerTrack { ssrc: 11 }, kind: MediaKind::Audio });
    peer.send_pli(&mut out);
    assert!(out.is_empty());
    peer.set_track(Track { inner: PeerTrack { ssrc: 777 }, kind: MediaKind::Video });
    peer.send_pli(&mut out);
    assert_eq!(out, vec![Action::WritePli { peer_id: 2, sender_ssrc: 0, media_ssrc: 777 }]);
}

#[test]
fn an_offer_starts_with_its_creation() {
    let peer = new_peer(6);
    let mut out = Vec::new();
    peer.send_offer(&mut out);
    assert_eq!(out, vec![Action::CreateOffer { peer_id: 6 }]);
}

#[test]
fn an_offer_in_stable_state_is_applied_and_answered() {
    let mut peer = new_peer(6);
    let mut out = Vec::new();
    peer.recv_offer(String::from("sdp"), SignalingState::Stable, &mut out);
    assert_eq!(
        out,
        vec![
            Action::SetRemoteDescription {
                peer_id: 6,
                sdp_type: SdpKind::Offer,
                sdp: String::from("sdp"),
            },
            Action::CreateAnswer { peer_id: 6 },
        ]
    );
}

#[test]
fn an_offer_outside_stable_state_is_dropped() {
    for signaling in [
        SignalingState::Unspecified,
        SignalingState::HaveLocalOffer,
        SignalingState::HaveRemoteOffer,
        SignalingState::HaveLocalPranswer,
        SignalingState::HaveRemotePranswer,
        SignalingState::Closed,
    ] {
        let mut peer = new_peer(6);
        let mut out = Vec::new();
        peer.add_candidate(candidate("early"), false, &mut out);
        peer.on_connected(ConnectionState::Connecting);
        peer.recv_offer(String::from("sdp"), signaling, &mut out);
        assert!(out.is_empty());
        assert_eq!(peer.pending_candidates, vec![candidate("early")]);
        assert_eq!(peer.conn.state, ConnectionState::Connecting);
    }
}

#[test]
fn candidates_wait_for_the_remote_description() {
    let mut peer = new_peer(8);
    let mut out = Vec::new();
    peer.add_candidate(candidate("a"), false, &mut out);
    peer.add_candidate(candidate("b"), false, &mut out);
    peer.add_candidate(candidate("c"), false, &mut out);
    assert!(out.is_empty());
    assert_eq!(peer.pending_candidates, vec![candidate("a"), candidate("b"), candidate("c")]);

    peer.recv_offer(String::from("sdp"), SignalingState::Stable, &mut out);
    assert!(peer.pending_candidates.is_empty());
    peer.add_candidate(candidate("d"), true, &mut out);
    peer.add_candidate(candidate("e"), true, &mut out);
    assert!(peer.pending_candidates.is_empty());
    assert_eq!(
        out,
        vec![
            Action::SetRemoteDescription {
                peer_id: 8,
                sdp_type: SdpKind::Offer,
                sdp: String::from("sdp"),
            },
            Action::AddIceCandidate { peer_id: 8, candidate: candidate("a") },
            Action::AddIceCandidate { peer_id: 8, candidate: candidate("b") },
            Action::AddIceCandidate { peer_id: 8, candidate: candidate("c") },
            Action::CreateAnswer { peer_id: 8 },
            Action::AddIceCandidate { peer_id: 8, candidate: candidate("d") },
            Action::AddIceCandidate { peer_id: 8, candidate: candidate("e") },
        ]
    );
}

#[test]
fn an_answer_is_applied_and_flushes_the_buffer() {
    let mut peer = new_peer(8);
    let mut out = Vec::new();
    peer.add_candidate(candidate("a"), false, &mut out);
    peer.recv_answer(String::from("answer"), &mut out);
    assert_eq!(
        out,
        vec![
            Action::SetRemoteDescription {
                peer_id: 8,
                sdp_type: SdpKind::Answer,
                sdp: String::from("answer"),
            },
            Action::AddIceCandidate { peer_id: 8, candidate: candidate("a") },
        ]
    );
    assert!(peer.pending_candidates.is_empty());
    out.clear();
    peer.recv_answer(String::from("again"), &mut out);
    assert_eq!(
        out,
        vec![Action::SetRemoteDescription {
            peer_id: 8,
            sdp_type: SdpKind::Answer,
            sdp: String::from("again"),
        }]
    );
}

#[test]
fn messages_and_close_are_addressed_to_the_peer() {
    let peer = new_peer(12);
    let mut out = Vec::new();
    peer.send_message(ServerMessage::PeerLeft(3), &mut out);
    peer.close(&mut out);
    assert_eq!(
        out,
        vec![
            Action::Send { peer_id: 12, message: ServerMessage::PeerLeft(3) },
            Action::Close { peer_id: 12 },
        ]
    );
}

#[test]
fn clones_are_equal() {
    let c = candidate("x");
    assert_eq!(c.clone(), c);
}
