use sfu_server::action::Action;
use sfu_server::error::Error;
use sfu_server::peer::ConnectionState;
use sfu_server::room::Room;
use sfu_server::signal::{ServerMessage, ServerMessagePeer};
use sfu_server::track::{MediaKind, PeerTrack, Track, TrackId};

fn room_of(n: u32) -> (Room, u32) {
    let mut room = Room::new(1, String::from("aaa-aaa-aaa"));
    let mut next = 1;
    let mut out = Vec::new();
    for _ in 0..n {
        room.add_peer(&mut next, &mut out).unwrap();
    }
    (room, next)
}

fn ids(room: &Room) -> Vec<u32> {
    room.peers.iter().map(|p| p.id).collect()
}

fn video(ssrc: u32) -> Track {
    Track { inner: PeerTrack { ssrc }, kind: MediaKind::Video }
}

fn audio(ssrc: u32) -> Track {
    Track { inner: PeerTrack { ssrc }, kind: MediaKind::Audio }
}

#[test]
fn a_new_room_is_empty() {
    let room = Room::new(9, String::from("aaa-aaa-aaa"));
    assert_eq!(room.id, 9);
    assert_eq!(room.code, "aaa-aaa-aaa");
    assert!(room.is_empty());
    assert_eq!(room.len(), 0);
    assert!(!room.has_peer(1));
    assert_eq!(room.get_peer_index(1), None);
}

#[test]
fn peers_get_consecutive_ids_from_the_counter() {
    let mut room = Room::new(3, String::from("aaa-aaa-aaa"));
    let mut next = 5;
    let mut out = Vec::new();
    assert_eq!(room.add_peer(&mut next, &mut out), Ok(5));
    assert_eq!(room.add_peer(&mut next, &mut out), Ok(6));
    assert_eq!(next, 7);
    assert_eq!(ids(&room), vec![5, 6]);
    assert_eq!(room.peers[0].room_id, 3);
    assert_eq!(
        out,
        vec![
            Action::Send { peer_id: 5, message: ServerMessage::Id(5) },
            Action::Send { peer_id: 6, message: ServerMessage::Id(6) },
        ]
    );
}

#[test]
fn no_peer_is_admitted_once_the_ids_have_run_out() {
    let mut room = Room::new(1, String::from("aaa-aaa-aaa"));
    let mut next = u32::MAX - 1;
    let mut out = Vec::new();
    assert_eq!(room.add_peer(&mut next, &mut out), Ok(u32::MAX - 1));
    assert_eq!(next, u32::MAX);
    out.clear();
    assert_eq!(room.add_peer(&mut next, &mut out), Err(Error::IdsExhausted));
    assert_eq!(next, u32::MAX);
    assert_eq!(room.len(), 1);
    assert!(out.is_empty());
}

#[test]
fn peers_are_found_by_id() {
    let (mut room, _) = room_of(3);
    assert_eq!(room.get_peer_index(2), Some(1));
    assert_eq!(room.get_peer(3).id, 3);
    assert!(room.has_peer(1));
    assert!(!room.has_peer(4));
    room.get_peer_mut(2).set_name(String::from("bob"));
    assert_eq!(room.get_peer(2).name, Some(String::from("bob")));
    assert_eq!(room.get_peer(1).name, None);
}

#[test]
fn removal_moves_the_last_peer_into_the_gap() {
    let (mut room, _) = room_of(4);
    let removed = room.remove_peer(2);
    assert_eq!(removed.id, 2);
    assert_eq!(ids(&room), vec![1, 4, 3]);
    let removed = room.remove_peer(3);
    assert_eq!(removed.id, 3);
    assert_eq!(ids(&room), vec![1, 4]);
}

#[test]
fn a_joiner_gets_the_tracks_that_the_others_have_published() {
    let (mut room, _) = room_of(4);
    room.get_peer_mut(1).set_track(audio(10));
    room.get_peer_mut(1).set_track(video(11));
    room.get_peer_mut(2).set_track(audio(20));
    room.get_peer_mut(4).set_track(video(41));
    let mut out = Vec::new();
    room.add_other_peers_tracks(4, &mut out);
    let expected = vec![
        TrackId { peer_id: 1, kind: MediaKind::Video },
        TrackId { peer_id: 1, kind: MediaKind::Audio },
        TrackId { peer_id: 2, kind: MediaKind::Audio },
    ];
    assert_eq!(room.get_peer(4).conn.sending, expected);
    assert_eq!(
        out,
        expected
            .iter()
            .map(|track| Action::AddSendonlyTransceiver { peer_id: 4, track: *track })
            .collect::<Vec<Action>>()
    );
    assert!(room.get_peer(1).conn.sending.is_empty());
}

#[test]
fn membership_lists_show_connected_named_others() {
    let (mut room, _) = room_of(5);
    room.get_peer_mut(1).set_name(String::from("alice"));
    room.get_peer_mut(1).on_connected(ConnectionState::Connected);
    room.get_peer_mut(2).set_name(String::from("bob"));
    room.get_peer_mut(3).on_connected(ConnectionState::Connected);
    room.get_peer_mut(4).set_name(String::from("dave"));
    room.get_peer_mut(4).on_connected(ConnectionState::Connected);
    room.get_peer_mut(5).set_name(String::from("eve"));
    room.get_peer_mut(5).on_connected(ConnectionState::Connected);
    room.get_peer_mut(5).on_connected(ConnectionState::Disconnected);
    assert_eq!(
        room.get_server_message_peers(4),
        vec![ServerMessagePeer { id: 1, name: String::from("alice") }]
    );
    assert_eq!(
        room.get_server_message_peers(2),
        vec![
            ServerMessagePeer { id: 1, name: String::from("alice") },
            ServerMessagePeer { id: 4, name: String::from("dave") },
        ]
    );
    assert_eq!(room.get_server_message_peers(99).len(), 2);
}

#[test]
fn a_join_is_announced_to_everyone_else() {
    let (room, _) = room_of(3);
    let mut out = Vec::new();
    room.send_joined_peer(2, String::from("bob"), &mut out);
    let joined = ServerMessagePeer { id: 2, name: String::from("bob") };
    assert_eq!(
        out,
        vec![
            Action::Send { peer_id: 1, message: ServerMessage::PeerJoined(joined.clone()) },
            Action::Send { peer_id: 3, message: ServerMessage::PeerJoined(joined) },
        ]
    );
}

#[test]
fn a_departure_is_told_and_cleaned_up_everywhere() {
    let (mut room, _) = room_of(3);
    let mut out = Vec::new();
    let from_one = TrackId { peer_id: 1, kind: MediaKind::Video };
    let from_two = TrackId { peer_id: 2, kind: MediaKind::Video };
    room.get_peer_mut(2).add_sendonly_transceiver(from_one, &mut out);
    room.get_peer_mut(3).add_sendonly_transceiver(from_one, &mut out);
    room.get_peer_mut(3).add_sendonly_transceiver(from_two, &mut out);
    out.clear();
    assert!(room.handle_peer_leave(1, &mut out));
    assert_eq!(ids(&room), vec![3, 2]);
    assert_eq!(
        out,
        vec![
            Action::Close { peer_id: 1 },
            Action::Send { peer_id: 3, message: ServerMessage::PeerLeft(1) },
            Action::StopTransceivers { peer_id: 3, source: 1 },
            Action::CreateOffer { peer_id: 3 },
            Action::Send { peer_id: 2, message: ServerMessage::PeerLeft(1) },
            Action::StopTransceivers { peer_id: 2, source: 1 },
            Action::CreateOffer { peer_id: 2 },
        ]
    );
    assert!(room.get_peer(2).conn.sending.is_empty());
    assert_eq!(room.get_peer(3).conn.sending, vec![from_two]);
}

#[test]
fn a_second_departure_changes_nothing() {
    let (mut room, _) = room_of(2);
    let mut out = Vec::new();
    assert!(room.handle_peer_leave(1, &mut out));
    out.clear();
    assert!(!room.handle_peer_leave(1, &mut out));
    assert!(out.is_empty());
    assert_eq!(ids(&room), vec![2]);
    assert!(!room.handle_peer_leave(77, &mut out));
    assert!(out.is_empty());
}

#[test]
fn a_track_is_fanned_out_with_or_without_renegotiation() {
    let (mut room, _) = room_of(3);
    let track = TrackId { peer_id: 2, kind: MediaKind::Audio };
    let mut out = Vec::new();
    room.add_peer_track_to_others(2, track, false, &mut out);
    assert_eq!(
        out,
        vec![
            Action::AddSendonlyTransceiver { peer_id: 1, track },
            Action::AddSendonlyTransceiver { peer_id: 3, track },
        ]
    );
    assert_eq!(room.get_peer(1).conn.sending, vec![track]);
    assert!(room.get_peer(2).conn.sending.is_empty());
    assert_eq!(room.get_peer(3).conn.sending, vec![track]);

    let track = TrackId { peer_id: 2, kind: MediaKind::Video };
    out.clear();
    room.add_peer_track_to_others(2, track, true, &mut out);
    assert_eq!(
        out,
        vec![
            Action::AddSendonlyTransceiver { peer_id: 1, track },
            Action::CreateOffer { peer_id: 1 },
            Action::AddSendonlyTransceiver { peer_id: 3, track },
            Action::CreateOffer { peer_id: 3 },
        ]
    );
}

#[test]
fn pli_reaches_the_named_peer_only() {
    let (mut room, _) = room_of(2);
    room.get_peer_mut(1).set_track(video(100));
    room.get_peer_mut(2).set_track(video(200));
    let mut out = Vec::new();
    room.send_pli(2, &mut out);
    assert_eq!(out, vec![Action::WritePli { peer_id: 2, sender_ssrc: 0, media_ssrc: 200 }]);
    out.clear();
    room.send_pli(999, &mut out);
    assert!(out.is_empty());
}
