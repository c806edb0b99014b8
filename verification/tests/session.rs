use sfu_server::action::{Action, SdpKind};
use sfu_server::agenda::Agenda;
use sfu_server::error::Error;
use sfu_server::peer::{ConnectionState, ConnectionStatus, SignalingState};
use sfu_server::session::{Session, SessionEvent};
use sfu_server::signal::{IceCandidateInit, PeerMessage, ServerMessage, ServerMessagePeer};
use sfu_server::state::State;
use sfu_server::track::{MediaKind, PeerTrack, Track, TrackId};

const CODE: &str = "abc-def-ghi";

fn stable() -> ConnectionStatus {
    ConnectionStatus { signaling: SignalingState::Stable, has_remote_description: false }
}

fn join(state: &mut State) -> (Session, Vec<Action>) {
    Session::new(state, String::from(CODE)).unwrap()
}

fn named(state: &mut State, session: &Session, name: &str) {
    let out = session.handle_message(state, PeerMessage::Name(String::from(name)), stable());
    assert_eq!(out, Ok(Vec::new()));
}

fn candidate(text: &str) -> IceCandidateInit {
    IceCandidateInit {
        candidate: String::from(text),
        sdp_mid: None,
        sdp_mline_index: None,
        username_fragment: None,
    }
}

fn track(kind: MediaKind, ssrc: u32) -> Track {
    Track { inner: PeerTrack { ssrc }, kind }
}

/// Works `actions` off as the host does, with every offer and answer that
/// the connection is asked for created as "offer" and "answer", and returns
/// the messages sent to `peer` on the way.
fn delivered(actions: Vec<Action>, peer: u32) -> Vec<ServerMessage> {
    let mut messages = Vec::new();
    let mut agenda = Agenda::new(actions);
    while let Some(action) = agenda.next() {
        match action {
            Action::CreateOffer { peer_id } => agenda.offer_created(peer_id, String::from("offer")),
            Action::CreateAnswer { peer_id } => {
                agenda.answer_created(peer_id, String::from("answer"))
            }
            Action::Send { peer_id, message } => {
                if peer_id == peer {
                    messages.push(message);
                }
            }
            _ => {}
        }
    }
    assert!(agenda.is_empty());
    messages
}

/// The messages sent to each of `peers` while `actions` are worked off.
fn delivered_to(actions: Vec<Action>, peers: &[u32]) -> Vec<Vec<ServerMessage>> {
    let mut messages: Vec<Vec<ServerMessage>> = peers.iter().map(|_| Vec::new()).collect();
    let mut agenda = Agenda::new(actions);
    while let Some(action) = agenda.next() {
        match action {
            Action::CreateOffer { peer_id } => agenda.offer_created(peer_id, String::from("offer")),
            Action::CreateAnswer { peer_id } => {
                agenda.answer_created(peer_id, String::from("answer"))
            }
            Action::Send { peer_id, message } => {
                if let Some(index) = peers.iter().position(|p| *p == peer_id) {
                    messages[index].push(message);
                }
            }
            _ => {}
        }
    }
    messages
}

#[test]
fn solo_join_and_leave() {
    let mut state = State::new();
    let (session, actions) = join(&mut state);
    assert_eq!(session.peer_id(), 1);
    assert_eq!(session.code(), CODE);
    assert_eq!(
        actions,
        vec![
            Action::Send { peer_id: 1, message: ServerMessage::Id(1) },
            Action::AddRecvonlyTransceiver { peer_id: 1, kind: MediaKind::Video },
            Action::AddRecvonlyTransceiver { peer_id: 1, kind: MediaKind::Audio },
        ]
    );
    assert!(state.has_room(&String::from(CODE)));
    named(&mut state, &session, "alice");
    let actions = session.leave(&mut state);
    assert_eq!(actions, vec![Action::Close { peer_id: 1 }]);
    assert!(!state.has_room(&String::from(CODE)));
}

#[test]
fn two_peers_see_each_other_once_connected_and_named() {
    let mut state = State::new();
    let (a, join_a) = join(&mut state);
    named(&mut state, &a, "alice");
    let connected_a = a.handle_connected(&mut state).unwrap();
    assert_eq!(
        connected_a,
        vec![
            Action::CreateOffer { peer_id: 1 },
            Action::Send { peer_id: 1, message: ServerMessage::Peers(Vec::new()) },
        ]
    );

    let (b, join_b) = join(&mut state);
    assert_eq!(b.peer_id(), 2);
    named(&mut state, &b, "bob");
    let connected_b = b.handle_connected(&mut state).unwrap();
    assert_eq!(
        connected_b,
        vec![
            Action::CreateOffer { peer_id: 2 },
            Action::Send {
                peer_id: 2,
                message: ServerMessage::Peers(vec![ServerMessagePeer {
                    id: 1,
                    name: String::from("alice"),
                }]),
            },
            Action::Send {
                peer_id: 1,
                message: ServerMessage::PeerJoined(ServerMessagePeer {
                    id: 2,
                    name: String::from("bob"),
                }),
            },
        ]
    );

    let mut all = Vec::new();
    all.extend(join_a);
    all.extend(connected_a);
    all.extend(join_b);
    all.extend(connected_b);
    let messages = delivered_to(all, &[1, 2]);
    assert_eq!(
        messages[0],
        vec![
            ServerMessage::Id(1),
            ServerMessage::Offer(String::from("offer")),
            ServerMessage::Peers(Vec::new()),
            ServerMessage::PeerJoined(ServerMessagePeer { id: 2, name: String::from("bob") }),
        ]
    );
    assert_eq!(
        messages[1],
        vec![
            ServerMessage::Id(2),
            ServerMessage::Offer(String::from("offer")),
            ServerMessage::Peers(vec![ServerMessagePeer { id: 1, name: String::from("alice") }]),
        ]
    );
}

#[test]
fn a_joiner_is_given_published_tracks_before_its_offer() {
    let mut state = State::new();
    let (a, _) = join(&mut state);
    a.handle_track(&mut state, track(MediaKind::Audio, 10)).unwrap();
    a.handle_track(&mut state, track(MediaKind::Video, 11)).unwrap();
    let (b, join_b) = join(&mut state);
    assert_eq!(
        join_b,
        vec![
            Action::Send { peer_id: 2, message: ServerMessage::Id(2) },
            Action::AddRecvonlyTransceiver { peer_id: 2, kind: MediaKind::Video },
            Action::AddRecvonlyTransceiver { peer_id: 2, kind: MediaKind::Audio },
            Action::AddSendonlyTransceiver {
                peer_id: 2,
                track: TrackId { peer_id: 1, kind: MediaKind::Video },
            },
            Action::AddSendonlyTransceiver {
                peer_id: 2,
                track: TrackId { peer_id: 1, kind: MediaKind::Audio },
            },
        ]
    );
    let connected = b.handle_connected(&mut state).unwrap();
    assert_eq!(connected[0], Action::CreateOffer { peer_id: 2 });
}

#[test]
fn an_unnamed_peer_is_neither_announced_nor_listed() {
    let mut state = State::new();
    let (a, _) = join(&mut state);
    let (b, _) = join(&mut state);
    let connected_a = a.handle_connected(&mut state).unwrap();
    assert_eq!(
        connected_a,
        vec![
            Action::CreateOffer { peer_id: 1 },
            Action::Send { peer_id: 1, message: ServerMessage::Peers(Vec::new()) },
        ]
    );
    named(&mut state, &b, "bob");
    let connected_b = b.handle_connected(&mut state).unwrap();
    assert_eq!(
        delivered(connected_b, 2),
        vec![ServerMessage::Offer(String::from("offer")), ServerMessage::Peers(Vec::new())]
    );
}

#[test]
fn a_peer_that_is_not_connected_is_not_listed() {
    let mut state = State::new();
    let (a, _) = join(&mut state);
    named(&mut state, &a, "alice");
    let quiet = a.handle_connection_state(&mut state, ConnectionState::Connecting);
    assert_eq!(quiet, Ok(Vec::new()));
    let (b, _) = join(&mut state);
    let connected_b = b.handle_connected(&mut state).unwrap();
    assert_eq!(
        delivered(connected_b, 2),
        vec![ServerMessage::Offer(String::from("offer")), ServerMessage::Peers(Vec::new())]
    );
    a.handle_connected(&mut state).unwrap();
    a.handle_connection_state(&mut state, ConnectionState::Failed).unwrap();
    let (c, _) = join(&mut state);
    let connected_c = c.handle_connected(&mut state).unwrap();
    assert_eq!(
        delivered(connected_c, 3),
        vec![ServerMessage::Offer(String::from("offer")), ServerMessage::Peers(Vec::new())]
    );
}

#[test]
fn the_second_track_triggers_one_renegotiation_per_consumer() {
    let mut state = State::new();
    let (a, _) = join(&mut state);
    named(&mut state, &a, "alice");
    a.handle_connected(&mut state).unwrap();
    let (b, _) = join(&mut state);
    b.handle_connected(&mut state).unwrap();

    let first = b.handle_track(&mut state, track(MediaKind::Audio, 20)).unwrap();
    assert_eq!(
        first,
        vec![Action::AddSendonlyTransceiver {
            peer_id: 1,
            track: TrackId { peer_id: 2, kind: MediaKind::Audio },
        }]
    );
    let second = b.handle_track(&mut state, track(MediaKind::Video, 21)).unwrap();
    assert_eq!(
        second,
        vec![
            Action::AddSendonlyTransceiver {
                peer_id: 1,
                track: TrackId { peer_id: 2, kind: MediaKind::Video },
            },
            Action::CreateOffer { peer_id: 1 },
        ]
    );
    assert_eq!(delivered(first, 1), Vec::<ServerMessage>::new());
    assert_eq!(delivered(second, 1), vec![ServerMessage::Offer(String::from("offer"))]);
}

#[test]
fn a_track_kind_is_published_once() {
    let mut state = State::new();
    let (a, _) = join(&mut state);
    let (_b, _) = join(&mut state);
    a.handle_track(&mut state, track(MediaKind::Video, 1)).unwrap();
    assert_eq!(
        a.handle_track(&mut state, track(MediaKind::Video, 2)),
        Err(Error::TrackAlreadySet(MediaKind::Video))
    );
    let (c, join_c) = join(&mut state);
    assert_eq!(c.peer_id(), 3);
    assert_eq!(
        join_c[3..],
        [Action::AddSendonlyTransceiver {
            peer_id: 3,
            track: TrackId { peer_id: 1, kind: MediaKind::Video },
        }]
    );
    let pli = c.handle_message(&mut state, PeerMessage::Pli(1), stable()).unwrap();
    assert_eq!(pli, vec![Action::WritePli { peer_id: 1, sender_ssrc: 0, media_ssrc: 1 }]);
}

#[test]
fn pli_is_routed_by_peer_id() {
    let mut state = State::new();
    let (a, _) = join(&mut state);
    let (b, _) = join(&mut state);
    a.handle_track(&mut state, track(MediaKind::Video, 100)).unwrap();
    b.handle_track(&mut state, track(MediaKind::Video, 200)).unwrap();
    let routed = a.handle_message(&mut state, PeerMessage::Pli(2), stable()).unwrap();
    assert_eq!(routed, vec![Action::WritePli { peer_id: 2, sender_ssrc: 0, media_ssrc: 200 }]);
    let unknown = a.handle_message(&mut state, PeerMessage::Pli(999), stable()).unwrap();
    assert!(unknown.is_empty());
}

#[test]
fn candidates_before_the_description_are_buffered_in_order() {
    let mut state = State::new();
    let (a, _) = join(&mut state);
    for text in ["one", "two", "three"] {
        let out = a
            .handle_message(&mut state, PeerMessage::Candidate(candidate(text)), stable())
            .unwrap();
        assert!(out.is_empty());
    }
    let out = a
        .handle_message(&mut state, PeerMessage::Offer(String::from("sdp")), stable())
        .unwrap();
    assert_eq!(
        out,
        vec![
            Action::SetRemoteDescription {
                peer_id: 1,
                sdp_type: SdpKind::Offer,
                sdp: String::from("sdp"),
            },
            Action::AddIceCandidate { peer_id: 1, candidate: candidate("one") },
            Action::AddIceCandidate { peer_id: 1, candidate: candidate("two") },
            Action::AddIceCandidate { peer_id: 1, candidate: candidate("three") },
            Action::CreateAnswer { peer_id: 1 },
        ]
    );
    assert_eq!(delivered(out, 1), vec![ServerMessage::Answer(String::from("answer"))]);
    let later = ConnectionStatus {
        signaling: SignalingState::Stable,
        has_remote_description: true,
    };
    let out =
        a.handle_message(&mut state, PeerMessage::Candidate(candidate("four")), later).unwrap();
    assert_eq!(out, vec![Action::AddIceCandidate { peer_id: 1, candidate: candidate("four") }]);
}

#[test]
fn an_offer_during_negotiation_is_dropped() {
    let mut state = State::new();
    let (a, _) = join(&mut state);
    a.handle_message(&mut state, PeerMessage::Candidate(candidate("one")), stable()).unwrap();
    let busy = ConnectionStatus {
        signaling: SignalingState::HaveLocalOffer,
        has_remote_description: false,
    };
    let out = a.handle_message(&mut state, PeerMessage::Offer(String::from("sdp")), busy).unwrap();
    assert!(out.is_empty());
    let out = a
        .handle_message(&mut state, PeerMessage::Answer(String::from("answer")), busy)
        .unwrap();
    assert_eq!(
        out,
        vec![
            Action::SetRemoteDescription {
                peer_id: 1,
                sdp_type: SdpKind::Answer,
                sdp: String::from("answer"),
            },
            Action::AddIceCandidate { peer_id: 1, candidate: candidate("one") },
        ]
    );
}

#[test]
fn a_departure_reaches_every_remaining_peer() {
    let mut state = State::new();
    let (a, _) = join(&mut state);
    let (_b, _) = join(&mut state);
    let (c, _) = join(&mut state);
    a.handle_track(&mut state, track(MediaKind::Audio, 1)).unwrap();
    a.handle_track(&mut state, track(MediaKind::Video, 2)).unwrap();
    let out = a.leave(&mut state);
    assert_eq!(
        out,
        vec![
            Action::Close { peer_id: 1 },
            Action::Send { peer_id: 3, message: ServerMessage::PeerLeft(1) },
            Action::StopTransceivers { peer_id: 3, source: 1 },
            Action::CreateOffer { peer_id: 3 },
            Action::Send { peer_id: 2, message: ServerMessage::PeerLeft(1) },
            Action::StopTransceivers { peer_id: 2, source: 1 },
            Action::CreateOffer { peer_id: 2 },
        ]
    );
    for messages in delivered_to(out, &[2, 3]) {
        assert_eq!(
            messages,
            vec![ServerMessage::PeerLeft(1), ServerMessage::Offer(String::from("offer"))]
        );
    }
    assert!(state.has_room(&String::from(CODE)));
    let (d, join_d) = join(&mut state);
    assert_eq!(d.peer_id(), 4);
    assert_eq!(join_d.len(), 3);
    let _ = c;
}

#[test]
fn leaving_twice_is_leaving_once() {
    let mut state = State::new();
    let (a, _) = join(&mut state);
    let (b, _) = join(&mut state);
    let first = a.leave(&mut state);
    assert!(!first.is_empty());
    let second = a.leave(&mut state);
    assert!(second.is_empty());
    assert!(state.has_room(&String::from(CODE)));
    let last = b.leave(&mut state);
    assert_eq!(last, vec![Action::Close { peer_id: 2 }]);
    assert!(!state.has_room(&String::from(CODE)));
    assert!(b.leave(&mut state).is_empty());
    assert!(a.leave(&mut state).is_empty());
    assert!(!state.has_room(&String::from(CODE)));
}

#[test]
fn a_session_that_has_left_is_refused() {
    let mut state = State::new();
    let (a, _) = join(&mut state);
    let (_b, _) = join(&mut state);
    a.leave(&mut state);
    assert_eq!(
        a.handle_message(&mut state, PeerMessage::Name(String::from("ghost")), stable()),
        Err(Error::PeerNotFound)
    );
    assert_eq!(a.handle_connected(&mut state), Err(Error::PeerNotFound));
    assert_eq!(
        a.handle_connection_state(&mut state, ConnectionState::Closed),
        Err(Error::PeerNotFound)
    );
    assert_eq!(
        a.handle_track(&mut state, track(MediaKind::Audio, 1)),
        Err(Error::PeerNotFound)
    );
    assert!(state.has_room(&String::from(CODE)));
}

#[test]
fn a_session_without_a_room_is_refused() {
    let mut state = State::new();
    let (a, _) = join(&mut state);
    a.leave(&mut state);
    assert_eq!(a.handle_connected(&mut state), Err(Error::PeerNotFound));
    assert!(!state.has_room(&String::from(CODE)));
}

#[test]
fn rooms_are_separate_and_ids_are_not() {
    let mut state = State::new();
    let (a, _) = Session::new(&mut state, String::from("aaa-aaa-aaa")).unwrap();
    let (b, _) = Session::new(&mut state, String::from("bbb-bbb-bbb")).unwrap();
    assert_eq!(a.peer_id(), 1);
    assert_eq!(b.peer_id(), 2);
    a.handle_track(&mut state, track(MediaKind::Video, 5)).unwrap();
    named(&mut state, &a, "alice");
    a.handle_connected(&mut state).unwrap();
    let connected = b.handle_connected(&mut state).unwrap();
    assert_eq!(
        connected,
        vec![
            Action::CreateOffer { peer_id: 2 },
            Action::Send { peer_id: 2, message: ServerMessage::Peers(Vec::new()) },
        ]
    );
    let out = b.handle_message(&mut state, PeerMessage::Pli(1), stable()).unwrap();
    assert!(out.is_empty());
    a.leave(&mut state);
    assert!(!state.has_room(&String::from("aaa-aaa-aaa")));
    assert!(state.has_room(&String::from("bbb-bbb-bbb")));
}

#[test]
fn gathered_candidates_go_to_the_own_client() {
    let mut state = State::new();
    let (a, _) = join(&mut state);
    assert!(a.handle_candidate(None).is_empty());
    assert_eq!(
        a.handle_candidate(Some(candidate("local"))),
        vec![Action::Send { peer_id: 1, message: ServerMessage::Candidate(candidate("local")) }]
    );
}

#[test]
fn a_session_can_be_cloned() {
    let mut state = State::new();
    let (a, _) = join(&mut state);
    let twin = a.clone();
    assert_eq!(twin, a);
    assert_eq!(twin.leave(&mut state), vec![Action::Close { peer_id: 1 }]);
    assert!(a.leave(&mut state).is_empty());
}

/// Looks at the room under `CODE` without changing the registry.
fn inspect<T>(state: &mut State, look: impl Fn(&sfu_server::room::Room) -> T) -> Option<T> {
    let room = state.snapshot(&String::from(CODE))?;
    Some(look(&room))
}

/// Checks that the peers of the room have distinct ids and that each of
/// them sends exactly the tracks that the others have published, once each.
fn assert_fanned_out(state: &mut State) {
    inspect(state, |room| {
        for (i, peer) in room.peers.iter().enumerate() {
            for other in &room.peers[i + 1..] {
                assert_ne!(peer.id, other.id);
            }
            let mut expected = Vec::new();
            for other in &room.peers {
                if other.id == peer.id {
                    continue;
                }
                for kind in [MediaKind::Video, MediaKind::Audio] {
                    if other.track(kind).is_some() {
                        expected.push(TrackId { peer_id: other.id, kind });
                    }
                }
            }
            for track in &expected {
                let count = peer.conn.sending.iter().filter(|t| *t == track).count();
                assert_eq!(count, 1, "peer {} sends {:?} {} times", peer.id, track, count);
            }
            assert_eq!(peer.conn.sending.len(), expected.len());
        }
    });
}

#[test]
fn every_peer_sends_what_the_others_publish_exactly_once() {
    let mut state = State::new();
    let (a, _) = join(&mut state);
    assert_fanned_out(&mut state);
    a.handle_track(&mut state, track(MediaKind::Video, 1)).unwrap();
    assert_fanned_out(&mut state);
    let (b, _) = join(&mut state);
    assert_fanned_out(&mut state);
    b.handle_track(&mut state, track(MediaKind::Audio, 2)).unwrap();
    assert_fanned_out(&mut state);
    let (c, _) = join(&mut state);
    assert_fanned_out(&mut state);
    a.handle_track(&mut state, track(MediaKind::Audio, 3)).unwrap();
    c.handle_track(&mut state, track(MediaKind::Video, 4)).unwrap();
    c.handle_track(&mut state, track(MediaKind::Audio, 5)).unwrap();
    assert_fanned_out(&mut state);
    assert!(a.handle_track(&mut state, track(MediaKind::Audio, 6)).is_err());
    assert_fanned_out(&mut state);
    named(&mut state, &b, "bob");
    b.handle_connected(&mut state).unwrap();
    assert_fanned_out(&mut state);
    a.leave(&mut state);
    assert_fanned_out(&mut state);
    let sent_by_b = inspect(&mut state, |room| room.get_peer(2).conn.sending.clone()).unwrap();
    assert_eq!(
        sent_by_b,
        vec![
            TrackId { peer_id: 3, kind: MediaKind::Video },
            TrackId { peer_id: 3, kind: MediaKind::Audio },
        ]
    );
    let (d, _) = join(&mut state);
    assert_eq!(d.peer_id(), 4);
    assert_fanned_out(&mut state);
    c.leave(&mut state);
    b.leave(&mut state);
    assert_fanned_out(&mut state);
    d.leave(&mut state);
    assert!(inspect(&mut state, |room| room.len()).is_none());
}

#[test]
fn peer_ids_are_never_reused() {
    let mut state = State::new();
    let mut seen = Vec::new();
    for round in 0..5 {
        let (a, _) = join(&mut state);
        let (b, _) = Session::new(&mut state, String::from("zzz-zzz-zzz")).unwrap();
        assert!(!seen.contains(&a.peer_id()));
        seen.push(a.peer_id());
        assert!(!seen.contains(&b.peer_id()));
        seen.push(b.peer_id());
        if round % 2 == 0 {
            a.leave(&mut state);
        }
        b.leave(&mut state);
    }
    assert_eq!(seen, (1..=10).collect::<Vec<u32>>());
    assert_eq!(inspect(&mut state, |room| room.len()), Some(2));
}

#[test]
fn events_are_dispatched_to_their_handlers() {
    let mut state = State::new();
    let (a, _) = join(&mut state);
    let (b, _) = join(&mut state);
    assert_eq!(
        a.handle(
            &mut state,
            SessionEvent::Message { message: PeerMessage::Name(String::from("alice")), status: stable() }
        ),
        Ok(Vec::new())
    );
    assert_eq!(
        a.handle(&mut state, SessionEvent::ConnectionState(ConnectionState::Connecting)),
        Ok(Vec::new())
    );
    assert_eq!(
        a.handle(&mut state, SessionEvent::ConnectionState(ConnectionState::Connected)),
        Ok(vec![
            Action::CreateOffer { peer_id: 1 },
            Action::Send { peer_id: 1, message: ServerMessage::Peers(Vec::new()) },
            Action::Send {
                peer_id: 2,
                message: ServerMessage::PeerJoined(ServerMessagePeer {
                    id: 1,
                    name: String::from("alice"),
                }),
            },
        ])
    );
    assert_eq!(
        a.handle(&mut state, SessionEvent::Candidate(Some(candidate("local")))),
        Ok(vec![Action::Send {
            peer_id: 1,
            message: ServerMessage::Candidate(candidate("local")),
        }])
    );
    assert_eq!(a.handle(&mut state, SessionEvent::Candidate(None)), Ok(Vec::new()));
    assert_eq!(
        a.handle(&mut state, SessionEvent::Track(track(MediaKind::Video, 9))),
        Ok(vec![Action::AddSendonlyTransceiver {
            peer_id: 2,
            track: TrackId { peer_id: 1, kind: MediaKind::Video },
        }])
    );
    assert_eq!(
        a.handle(&mut state, SessionEvent::Track(track(MediaKind::Video, 9))),
        Err(Error::TrackAlreadySet(MediaKind::Video))
    );
    assert_eq!(
        a.handle(&mut state, SessionEvent::Closed),
        Ok(vec![
            Action::Close { peer_id: 1 },
            Action::Send { peer_id: 2, message: ServerMessage::PeerLeft(1) },
            Action::StopTransceivers { peer_id: 2, source: 1 },
            Action::CreateOffer { peer_id: 2 },
        ])
    );
    assert_eq!(a.handle(&mut state, SessionEvent::Failed), Ok(Vec::new()));
    assert_eq!(a.handle(&mut state, SessionEvent::Closed), Ok(Vec::new()));
    assert_eq!(
        a.handle(&mut state, SessionEvent::ConnectionState(ConnectionState::Closed)),
        Err(Error::PeerNotFound)
    );
    assert_eq!(
        a.handle(&mut state, SessionEvent::Track(track(MediaKind::Audio, 1))),
        Err(Error::PeerNotFound)
    );
    assert_eq!(
        a.handle(
            &mut state,
            SessionEvent::Message { message: PeerMessage::Pli(2), status: stable() }
        ),
        Err(Error::PeerNotFound)
    );
    assert_eq!(b.handle(&mut state, SessionEvent::Failed), Ok(vec![Action::Close { peer_id: 2 }]));
    assert!(!state.has_room(&String::from(CODE)));
}

#[test]
fn no_peer_joins_once_the_peer_ids_have_run_out() {
    let mut state = State::starting_at(u32::MAX - 1, 1);
    let (a, _) = join(&mut state);
    assert_eq!(a.peer_id(), u32::MAX - 1);
    assert_eq!(Session::new(&mut state, String::from(CODE)).err(), Some(Error::IdsExhausted));
    assert_eq!(
        Session::new(&mut state, String::from("new-new-new")).err(),
        Some(Error::IdsExhausted)
    );
    assert!(!state.has_room(&String::from("new-new-new")));
    assert_eq!(inspect(&mut state, |room| room.len()), Some(1));
    assert_eq!(a.leave(&mut state), vec![Action::Close { peer_id: u32::MAX - 1 }]);
}

#[test]
fn no_room_is_created_once_the_room_ids_have_run_out() {
    let mut state = State::starting_at(1, u32::MAX - 1);
    let (a, _) = join(&mut state);
    assert_eq!(inspect(&mut state, |room| room.id), Some(u32::MAX - 1));
    assert_eq!(
        Session::new(&mut state, String::from("new-new-new")).err(),
        Some(Error::IdsExhausted)
    );
    assert!(!state.has_room(&String::from("new-new-new")));
    let (b, _) = join(&mut state);
    assert_eq!(b.peer_id(), 2);
    assert_eq!(a.peer_id(), 1);
}
