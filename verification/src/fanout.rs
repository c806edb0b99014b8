//! The fan-out invariant of a room: every peer is asked to send exactly the
//! forwarding tracks that the other peers of the room have published, each
//! of them once. This module states the invariant and proves that joining,
//! publishing and leaving keep it.

use vstd::prelude::*;
use vstd::seq_lib::lemma_no_dup_in_concat;

use crate::peer::{without_source, PeerView};
use crate::room::{lemma_has_peer, published_tracks, tracks_of_others, RoomView};
use crate::track::{MediaKind, Track, TrackId};

verus! {

/// Whether `track` is a forwarding track that `peer` has published.
pub open spec fn peer_publishes(peer: PeerView, track: TrackId) -> bool {
    peer.id == track.peer_id && peer.track(track.kind) is Some
}

/// Whether `track` is a forwarding track that one of `peers` has published.
pub open spec fn published_in(peers: Seq<PeerView>, track: TrackId) -> bool {
    exists|j: int| 0 <= j < peers.len() && peer_publishes(#[trigger] peers[j], track)
}

/// The peer at position `i` sends no track twice, and sends a track exactly
/// if another peer has published it.
pub open spec fn sends_what_others_publish(peers: Seq<PeerView>, i: int) -> bool {
    &&& peers[i].sending.no_duplicates()
    &&& forall|t: TrackId| #[trigger]
        peers[i].sending.contains(t) <==> t.peer_id != peers[i].id && published_in(peers, t)
}

/// Every peer sends exactly what the others have published, once each.
pub open spec fn fanned_out(peers: Seq<PeerView>) -> bool {
    forall|i: int| 0 <= i < peers.len() ==> #[trigger] sends_what_others_publish(peers, i)
}

/// No two of `peers` have the same id.
pub open spec fn distinct_ids(peers: Seq<PeerView>) -> bool {
    forall|i: int, j: int|
        0 <= i < peers.len() && 0 <= j < peers.len() && i != j ==> peers[i].id != peers[j].id
}

/// The tracks that a peer has published are its video and its audio track,
/// as far as it has them, and no track twice.
pub proof fn lemma_published_tracks(peer: PeerView)
    ensures
        published_tracks(peer).no_duplicates(),
        forall|t: TrackId| #[trigger]
            published_tracks(peer).contains(t) <==> peer_publishes(peer, t),
{
    let tracks = published_tracks(peer);
    let video = TrackId { peer_id: peer.id, kind: MediaKind::Video };
    let audio = TrackId { peer_id: peer.id, kind: MediaKind::Audio };
    if peer.video is Some && peer.audio is Some {
        assert(tracks =~= seq![video, audio]);
    } else if peer.video is Some {
        assert(tracks =~= seq![video]);
    } else if peer.audio is Some {
        assert(tracks =~= seq![audio]);
    } else {
        assert(tracks =~= Seq::<TrackId>::empty());
    }
    assert forall|t: TrackId| #[trigger] tracks.contains(t) <==> peer_publishes(peer, t) by {
        if peer_publishes(peer, t) {
            if t.kind == MediaKind::Video {
                assert(t == video);
                assert(tracks[0] == video);
            } else {
                assert(t == audio);
                if peer.video is Some {
                    assert(tracks[1] == audio);
                } else {
                    assert(tracks[0] == audio);
                }
            }
        }
        if tracks.contains(t) {
            let k = choose|k: int| 0 <= k < tracks.len() && tracks[k] == t;
            assert(tracks[k] == t);
        }
    }
}

/// The tracks of the others are the tracks that a peer other than `peer_id`
/// among the first `n` has published, and with distinct ids none is listed
/// twice.
pub proof fn lemma_tracks_of_others(peers: Seq<PeerView>, peer_id: u32, n: int)
    requires
        0 <= n <= peers.len(),
        distinct_ids(peers),
    ensures
        tracks_of_others(peers, peer_id, n).no_duplicates(),
        forall|t: TrackId| #[trigger]
            tracks_of_others(peers, peer_id, n).contains(t) <==> exists|j: int|
                0 <= j < n && peers[j].id != peer_id && peer_publishes(#[trigger] peers[j], t),
    decreases n,
{
    let all = tracks_of_others(peers, peer_id, n);
    if n > 0 {
        let before = tracks_of_others(peers, peer_id, n - 1);
        let last = peers[n - 1];
        lemma_tracks_of_others(peers, peer_id, n - 1);
        lemma_published_tracks(last);
        if last.id == peer_id {
            assert(all == before);
            assert forall|t: TrackId| #[trigger] all.contains(t) <==> exists|j: int|
                0 <= j < n && peers[j].id != peer_id && peer_publishes(
                    #[trigger] peers[j],
                    t,
                ) by {
                if exists|j: int|
                    0 <= j < n && peers[j].id != peer_id && peer_publishes(
                        #[trigger] peers[j],
                        t,
                    ) {
                    let j = choose|j: int|
                        0 <= j < n && peers[j].id != peer_id && peer_publishes(
                            #[trigger] peers[j],
                            t,
                        );
                    assert(j < n - 1);
                    assert(peer_publishes(peers[j], t));
                }
            }
        } else {
            let own = published_tracks(last);
            assert(all == before + own);
            assert forall|i: int, j: int| 0 <= i < before.len() && 0 <= j < own.len() implies before[i]
                != own[j] by {
                assert(before.contains(before[i]));
                assert(own.contains(own[j]));
                let k = choose|k: int|
                    0 <= k < n - 1 && peers[k].id != peer_id && peer_publishes(
                        #[trigger] peers[k],
                        before[i],
                    );
                assert(peers[k].id != peers[n - 1].id);
            }
            lemma_no_dup_in_concat(before, own);
            assert forall|t: TrackId| #[trigger] all.contains(t) <==> exists|j: int|
                0 <= j < n && peers[j].id != peer_id && peer_publishes(
                    #[trigger] peers[j],
                    t,
                ) by {
                if all.contains(t) {
                    let k = choose|k: int| 0 <= k < all.len() && all[k] == t;
                    if k < before.len() {
                        assert(before[k] == t);
                        assert(before.contains(t));
                        let j = choose|j: int|
                            0 <= j < n - 1 && peers[j].id != peer_id && peer_publishes(
                                #[trigger] peers[j],
                                t,
                            );
                        assert(0 <= j < n && peers[j].id != peer_id && peer_publishes(peers[j], t));
                    } else {
                        assert(own[k - before.len()] == t);
                        assert(own.contains(t));
                        assert(peer_publishes(peers[n - 1], t));
                    }
                }
                if exists|j: int|
                    0 <= j < n && peers[j].id != peer_id && peer_publishes(
                        #[trigger] peers[j],
                        t,
                    ) {
                    let j = choose|j: int|
                        0 <= j < n && peers[j].id != peer_id && peer_publishes(
                            #[trigger] peers[j],
                            t,
                        );
                    if j < n - 1 {
                        assert(peer_publishes(peers[j], t));
                        assert(before.contains(t));
                        let k = choose|k: int| 0 <= k < before.len() && before[k] == t;
                        assert(all[k] == t);
                    } else {
                        assert(own.contains(t));
                        let k = choose|k: int| 0 <= k < own.len() && own[k] == t;
                        assert(all[before.len() + k] == t);
                    }
                }
            }
        }
    } else {
        assert(all =~= Seq::<TrackId>::empty());
    }
}

/// Dropping the tracks of one source keeps the other tracks, keeps their
/// order, and repeats none that was not repeated.
pub proof fn lemma_without_source(sending: Seq<TrackId>, source: u32, n: int)
    requires
        0 <= n <= sending.len(),
    ensures
        forall|t: TrackId| #[trigger]
            without_source(sending, source, n).contains(t) <==> t.peer_id != source && exists|
                k: int,
            |
                0 <= k < n && sending[k] == t,
        sending.no_duplicates() ==> without_source(sending, source, n).no_duplicates(),
    decreases n,
{
    let kept = without_source(sending, source, n);
    if n > 0 {
        let before = without_source(sending, source, n - 1);
        let last = sending[n - 1];
        lemma_without_source(sending, source, n - 1);
        assert forall|t: TrackId| #[trigger] kept.contains(t) <==> t.peer_id != source && exists|
            k: int,
        |
            0 <= k < n && sending[k] == t by {
            if kept.contains(t) {
                let i = choose|i: int| 0 <= i < kept.len() && kept[i] == t;
                if last.peer_id != source && i == before.len() {
                    assert(sending[n - 1] == t);
                } else {
                    assert(before[i] == t);
                    assert(before.contains(t));
                }
            }
            if t.peer_id != source && exists|k: int| 0 <= k < n && sending[k] == t {
                let k = choose|k: int| 0 <= k < n && sending[k] == t;
                if k < n - 1 {
                    assert(before.contains(t));
                    let i = choose|i: int| 0 <= i < before.len() && before[i] == t;
                    assert(kept[i] == t);
                } else {
                    assert(kept[before.len() as int] == t);
                }
            }
        }
        if sending.no_duplicates() && last.peer_id != source {
            assert forall|i: int, j: int|
                0 <= i < kept.len() && 0 <= j < kept.len() && i != j implies kept[i]
                != kept[j] by {
                if i == before.len() {
                    assert(before.contains(before[j]));
                    let k = choose|k: int| 0 <= k < n - 1 && sending[k] == before[j];
                    assert(sending[k] != sending[n - 1]);
                } else if j == before.len() {
                    assert(before.contains(before[i]));
                    let k = choose|k: int| 0 <= k < n - 1 && sending[k] == before[i];
                    assert(sending[k] != sending[n - 1]);
                } else {
                    assert(before[i] != before[j]);
                }
            }
        }
    } else {
        assert(kept =~= Seq::<TrackId>::empty());
    }
}

/// Whether two lists of peers agree, position by position, on the ids, on
/// the published tracks and on the tracks being sent.
pub open spec fn same_media(a: Seq<PeerView>, b: Seq<PeerView>) -> bool {
    &&& a.len() == b.len()
    &&& forall|k: int|
        0 <= k < a.len() ==> {
            &&& (#[trigger] a[k]).id == b[k].id
            &&& a[k].sending == b[k].sending
            &&& a[k].video == b[k].video
            &&& a[k].audio == b[k].audio
        }
}

/// A change that touches neither ids nor tracks keeps the fan-out
/// invariant.
pub proof fn lemma_same_media_keeps_fan_out(a: Seq<PeerView>, b: Seq<PeerView>)
    requires
        same_media(a, b),
        fanned_out(a),
    ensures
        fanned_out(b),
{
    assert forall|t: TrackId| published_in(a, t) == published_in(b, t) by {
        if published_in(a, t) {
            let j = choose|j: int| 0 <= j < a.len() && peer_publishes(#[trigger] a[j], t);
            assert(peer_publishes(b[j], t));
        }
        if published_in(b, t) {
            let j = choose|j: int| 0 <= j < b.len() && peer_publishes(#[trigger] b[j], t);
            assert(a[j].id == b[j].id);
            assert(peer_publishes(a[j], t));
        }
    }
    assert forall|i: int| 0 <= i < b.len() implies #[trigger] sends_what_others_publish(b, i) by {
        assert(sends_what_others_publish(a, i));
        assert(a[i].id == b[i].id);
        assert forall|t: TrackId| #[trigger]
            b[i].sending.contains(t) <==> t.peer_id != b[i].id && published_in(b, t) by {
            assert(a[i].sending.contains(t) <==> t.peer_id != a[i].id && published_in(a, t));
        }
    }
}

/// Replacing a peer by one with the same id and the same tracks keeps the
/// fan-out invariant.
pub proof fn lemma_replace_keeps_fan_out(room: RoomView, position: int, peer: PeerView)
    requires
        0 <= position < room.peers.len(),
        peer.id == room.peers[position].id,
        peer.sending == room.peers[position].sending,
        peer.video == room.peers[position].video,
        peer.audio == room.peers[position].audio,
        fanned_out(room.peers),
    ensures
        fanned_out(room.with_peer_at(position, peer).peers),
{
    lemma_same_media_keeps_fan_out(room.peers, room.with_peer_at(position, peer).peers);
}

/// A peer that joins a room, and is given the tracks of the others, keeps
/// the fan-out invariant.
pub proof fn lemma_join_keeps_fan_out(room: RoomView, id: u32)
    requires
        room.wf(),
        room.ids_below(id),
        fanned_out(room.peers),
    ensures
        fanned_out(
            room.with_peer(PeerView::fresh(id, room.id)).after_tracks_of_others(id).peers,
        ),
{
    let n = room.peers.len() as int;
    let joined = room.with_peer(PeerView::fresh(id, room.id));
    let after = joined.after_tracks_of_others(id);
    let tracks = tracks_of_others(joined.peers, id, n + 1);
    crate::room::lemma_position_from(joined.peers, id, 0);
    assert(joined.position(id) == n) by {
        let p = joined.position(id);
        if p < n {
            assert(joined.peers[p] == room.peers[p]);
            assert(room.peers[p].id < id);
        }
        if p > n {
            assert(joined.peers[n].id == id);
        }
    }
    assert(distinct_ids(joined.peers)) by {
        assert forall|i: int, j: int|
            0 <= i < joined.peers.len() && 0 <= j < joined.peers.len() && i != j implies joined.peers[i].id
            != joined.peers[j].id by {
            if i < n {
                assert(room.peers[i].id < id);
            }
            if j < n {
                assert(room.peers[j].id < id);
            }
        }
    }
    lemma_tracks_of_others(joined.peers, id, n + 1);
    assert(after.peers.len() == n + 1);
    assert(after.peers[n].sending =~= tracks);
    assert forall|k: int| 0 <= k < n implies #[trigger] after.peers[k] == room.peers[k] by {}
    assert forall|t: TrackId| published_in(after.peers, t) == published_in(room.peers, t) by {
        if published_in(after.peers, t) {
            let j = choose|j: int|
                0 <= j < after.peers.len() && peer_publishes(#[trigger] after.peers[j], t);
            assert(j < n);
            assert(peer_publishes(room.peers[j], t));
        }
        if published_in(room.peers, t) {
            let j = choose|j: int|
                0 <= j < room.peers.len() && peer_publishes(#[trigger] room.peers[j], t);
            assert(after.peers[j] == room.peers[j]);
            assert(peer_publishes(after.peers[j], t));
        }
    }
    assert forall|i: int| 0 <= i < after.peers.len() implies #[trigger] sends_what_others_publish(
        after.peers,
        i,
    ) by {
        if i < n {
            assert(sends_what_others_publish(room.peers, i));
            assert(after.peers[i] == room.peers[i]);
            assert forall|t: TrackId| #[trigger]
                after.peers[i].sending.contains(t) <==> t.peer_id != after.peers[i].id
                    && published_in(after.peers, t) by {
                assert(room.peers[i].sending.contains(t) <==> t.peer_id != room.peers[i].id
                    && published_in(room.peers, t));
            }
        } else {
            assert forall|t: TrackId| #[trigger]
                after.peers[i].sending.contains(t) <==> t.peer_id != after.peers[i].id
                    && published_in(after.peers, t) by {
                if tracks.contains(t) {
                    let j = choose|j: int|
                        0 <= j < n + 1 && joined.peers[j].id != id && peer_publishes(
                            #[trigger] joined.peers[j],
                            t,
                        );
                    assert(j < n);
                    assert(joined.peers[j] == room.peers[j]);
                    assert(peer_publishes(room.peers[j], t));
                }
                if t.peer_id != id && published_in(room.peers, t) {
                    let j = choose|j: int|
                        0 <= j < room.peers.len() && peer_publishes(#[trigger] room.peers[j], t);
                    assert(joined.peers[j] == room.peers[j]);
                    assert(joined.peers[j].id != id && peer_publishes(joined.peers[j], t));
                }
            }
        }
    }
}

/// A peer that publishes a track of a kind that it had not published, and
/// whose track is fanned out to the others, keeps the fan-out invariant.
pub proof fn lemma_track_keeps_fan_out(room: RoomView, id: u32, track: Track)
    requires
        room.wf(),
        room.has_peer(id),
        room.peer(id).track(track.kind) is None,
        fanned_out(room.peers),
    ensures
        fanned_out(
            room.with_peer_at(
                room.position(id),
                room.peer(id).publishing(track),
            ).after_fan_out(id, TrackId { peer_id: id, kind: track.kind }).peers,
        ),
{
    lemma_has_peer(room, id);
    let position = room.position(id);
    let new_track = TrackId { peer_id: id, kind: track.kind };
    let published = room.with_peer_at(position, room.peer(id).publishing(track));
    let after = published.after_fan_out(id, new_track);
    assert forall|k: int| 0 <= k < room.peers.len() implies (#[trigger] after.peers[k]).id
        == room.peers[k].id by {}
    assert(!published_in(room.peers, new_track)) by {
        if published_in(room.peers, new_track) {
            let j = choose|j: int|
                0 <= j < room.peers.len() && peer_publishes(#[trigger] room.peers[j], new_track);
            if j != position {
                assert(room.peers[j].id != room.peers[position].id);
            }
        }
    }
    assert forall|t: TrackId|
        published_in(after.peers, t) == (published_in(room.peers, t) || t == new_track) by {
        if published_in(after.peers, t) {
            let j = choose|j: int|
                0 <= j < after.peers.len() && peer_publishes(#[trigger] after.peers[j], t);
            if j == position {
                if t.kind != track.kind {
                    assert(peer_publishes(room.peers[j], t));
                }
            } else {
                assert(room.peers[j].id != room.peers[position].id);
                assert(peer_publishes(room.peers[j], t));
            }
        }
        if published_in(room.peers, t) {
            let j = choose|j: int|
                0 <= j < room.peers.len() && peer_publishes(#[trigger] room.peers[j], t);
            assert(after.peers[j].id == room.peers[j].id);
            assert(peer_publishes(after.peers[j], t));
        }
        if t == new_track {
            assert(peer_publishes(after.peers[position], t));
        }
    }
    assert forall|i: int| 0 <= i < after.peers.len() implies #[trigger] sends_what_others_publish(
        after.peers,
        i,
    ) by {
        assert(sends_what_others_publish(room.peers, i));
        let old_sending = room.peers[i].sending;
        if i == position {
            assert(after.peers[i].sending == old_sending);
            assert forall|t: TrackId| #[trigger]
                after.peers[i].sending.contains(t) <==> t.peer_id != after.peers[i].id
                    && published_in(after.peers, t) by {
                assert(old_sending.contains(t) <==> t.peer_id != room.peers[i].id
                    && published_in(room.peers, t));
            }
        } else {
            assert(room.peers[i].id != room.peers[position].id);
            assert(after.peers[i].sending == old_sending.push(new_track));
            assert(!old_sending.contains(new_track));
            assert forall|a: int, b: int|
                0 <= a < after.peers[i].sending.len() && 0 <= b < after.peers[i].sending.len() && a
                    != b implies after.peers[i].sending[a] != after.peers[i].sending[b] by {
                if a == old_sending.len() {
                    assert(old_sending.contains(old_sending[b]));
                } else if b == old_sending.len() {
                    assert(old_sending.contains(old_sending[a]));
                } else {
                    assert(old_sending[a] != old_sending[b]);
                }
            }
            assert forall|t: TrackId| #[trigger]
                after.peers[i].sending.contains(t) <==> t.peer_id != after.peers[i].id
                    && published_in(after.peers, t) by {
                assert(old_sending.contains(t) <==> t.peer_id != room.peers[i].id
                    && published_in(room.peers, t));
                if after.peers[i].sending.contains(t) {
                    let k = choose|k: int|
                        0 <= k < after.peers[i].sending.len() && after.peers[i].sending[k] == t;
                    if k < old_sending.len() {
                        assert(old_sending[k] == t);
                        assert(old_sending.contains(t));
                    }
                }
                if old_sending.contains(t) {
                    let k = choose|k: int| 0 <= k < old_sending.len() && old_sending[k] == t;
                    assert(after.peers[i].sending[k] == t);
                }
                if t == new_track {
                    assert(after.peers[i].sending[old_sending.len() as int] == t);
                }
            }
        }
    }
}

/// A peer that leaves, and whose tracks the others stop, keeps the fan-out
/// invariant.
pub proof fn lemma_leave_keeps_fan_out(room: RoomView, id: u32)
    requires
        room.wf(),
        fanned_out(room.peers),
    ensures
        fanned_out(room.after_leave(id).peers),
{
    lemma_has_peer(room, id);
    if room.has_peer(id) {
        let position = room.position(id);
        let last = room.peers.len() - 1;
        let after = room.after_leave(id);
        assert forall|k: int| 0 <= k < after.peers.len() implies #[trigger] after.peers[k] == (if k
            == position {
            room.peers[last].stopped(id)
        } else {
            room.peers[k].stopped(id)
        }) by {}
        assert forall|t: TrackId|
            published_in(after.peers, t) == (published_in(room.peers, t) && t.peer_id != id) by {
            if published_in(after.peers, t) {
                let j = choose|j: int|
                    0 <= j < after.peers.len() && peer_publishes(#[trigger] after.peers[j], t);
                let source = if j == position { last } else { j };
                assert(source != position);
                assert(room.peers[source].id != room.peers[position].id);
                assert(peer_publishes(room.peers[source], t));
            }
            if published_in(room.peers, t) && t.peer_id != id {
                let j = choose|j: int|
                    0 <= j < room.peers.len() && peer_publishes(#[trigger] room.peers[j], t);
                assert(j != position);
                if j == last {
                    assert(peer_publishes(after.peers[position], t));
                } else {
                    assert(peer_publishes(after.peers[j], t));
                }
            }
        }
        assert forall|i: int| 0 <= i < after.peers.len() implies #[trigger] sends_what_others_publish(
            after.peers,
            i,
        ) by {
            let source = if i == position { last } else { i };
            let old_sending = room.peers[source].sending;
            assert(sends_what_others_publish(room.peers, source));
            assert(after.peers[i] == room.peers[source].stopped(id));
            lemma_without_source(old_sending, id, old_sending.len() as int);
            assert forall|t: TrackId| #[trigger]
                after.peers[i].sending.contains(t) <==> t.peer_id != after.peers[i].id
                    && published_in(after.peers, t) by {
                assert(old_sending.contains(t) <==> t.peer_id != room.peers[source].id
                    && published_in(room.peers, t));
                if old_sending.contains(t) {
                    let k = choose|k: int| 0 <= k < old_sending.len() && old_sending[k] == t;
                    assert(0 <= k < old_sending.len() && old_sending[k] == t);
                }
            }
        }
    }
}

/// Each published track is sent to each other peer exactly once. In a room
/// that is fanned out, the forwarding track of a kind that peer `j` has
/// published stands at exactly one position of what any other peer `i`
/// sends.
pub proof fn lemma_published_track_is_sent_once(
    room: RoomView,
    i: int,
    j: int,
    kind: MediaKind,
)
    requires
        room.wf(),
        fanned_out(room.peers),
        0 <= i < room.peers.len(),
        0 <= j < room.peers.len(),
        i != j,
        room.peers[j].track(kind) is Some,
    ensures
        exists|k: int|
            0 <= k < room.peers[i].sending.len() && #[trigger] room.peers[i].sending[k] == (TrackId {
                peer_id: room.peers[j].id,
                kind,
            }) && forall|other: int|
                0 <= other < room.peers[i].sending.len() && other != k
                    ==> room.peers[i].sending[other] != room.peers[i].sending[k],
{
    let track = TrackId { peer_id: room.peers[j].id, kind };
    assert(sends_what_others_publish(room.peers, i));
    assert(peer_publishes(room.peers[j], track));
    assert(room.peers[i].id != room.peers[j].id);
    assert(room.peers[i].sending.contains(track));
    let k = choose|k: int| 0 <= k < room.peers[i].sending.len() && room.peers[i].sending[k] == track;
    assert(0 <= k < room.peers[i].sending.len() && room.peers[i].sending[k] == track);
}

/// The tracks of a peer that has left are sent nowhere. After the
/// departure of peer `id` no remaining peer sends a forwarding track of
/// `id`.
pub proof fn lemma_tracks_of_leaver_are_stopped(room: RoomView, id: u32)
    requires
        room.wf(),
        fanned_out(room.peers),
        room.has_peer(id),
    ensures
        forall|i: int, k: int|
            0 <= i < room.after_leave(id).peers.len() && 0 <= k < room.after_leave(
                id,
            ).peers[i].sending.len() ==> (#[trigger] room.after_leave(id).peers[i].sending[k]).peer_id
                != id,
{
    let after = room.after_leave(id);
    lemma_has_peer(room, id);
    let position = room.position(id);
    let last = room.peers.len() - 1;
    assert forall|i: int, k: int|
        0 <= i < after.peers.len() && 0 <= k < after.peers[i].sending.len() implies (
    #[trigger] after.peers[i].sending[k]).peer_id != id by {
        let source = if i == position { last } else { i };
        let old_sending = room.peers[source].sending;
        assert(after.peers[i] == room.peers[source].stopped(id));
        lemma_without_source(old_sending, id, old_sending.len() as int);
        assert(after.peers[i].sending.contains(after.peers[i].sending[k]));
    }
}

} // verus!
