//! A room: the peers that share a code, and the operations that span them.

use vstd::prelude::*;

use crate::action::{views, Action, ActionView};
use crate::error::Error;
use crate::peer::{ConnectionState, Peer, PeerView};
use crate::signal::{ServerMessage, ServerMessagePeer, ServerMessageView};
use crate::track::{MediaKind, TrackId};

verus! {

/// The peers of one conference.
#[derive(Debug, PartialEq, Eq)]
pub struct Room {
    pub id: u32,
    pub code: String,
    pub peers: Vec<Peer>,
}

/// The mathematical content of a [`Room`].
pub struct RoomView {
    pub id: u32,
    pub code: Seq<char>,
    pub peers: Seq<PeerView>,
}

/// The contents of a list of peers, in order.
pub open spec fn peer_views(peers: Seq<Peer>) -> Seq<PeerView> {
    Seq::new(peers.len(), |i: int| peers[i]@)
}

impl View for Room {
    type V = RoomView;

    open spec fn view(&self) -> RoomView {
        RoomView { id: self.id, code: self.code@, peers: peer_views(self.peers@) }
    }
}

/// The position of the first peer called `id` at or after `start`, or the
/// number of peers if there is none.
pub open spec fn position_from(peers: Seq<PeerView>, id: u32, start: int) -> int
    decreases peers.len() - start,
{
    if start < 0 || start >= peers.len() {
        peers.len() as int
    } else if peers[start].id == id {
        start
    } else {
        position_from(peers, id, start + 1)
    }
}

/// What [`position_from`] finds: nothing before the position is called `id`,
/// and the peer at the position is, if the position is one.
pub proof fn lemma_position_from(peers: Seq<PeerView>, id: u32, start: int)
    requires
        0 <= start <= peers.len(),
    ensures
        start <= position_from(peers, id, start) <= peers.len(),
        position_from(peers, id, start) < peers.len() ==> peers[position_from(
            peers,
            id,
            start,
        )].id == id,
        forall|k: int| start <= k < position_from(peers, id, start) ==> peers[k].id != id,
    decreases peers.len() - start,
{
    if start < peers.len() && peers[start].id != id {
        lemma_position_from(peers, id, start + 1);
    }
}

impl RoomView {
    /// The position of the first peer called `id`, or the number of peers if
    /// there is none.
    pub open spec fn position(self, id: u32) -> int {
        position_from(self.peers, id, 0)
    }

    /// Whether a peer called `id` is in the room.
    pub open spec fn has_peer(self, id: u32) -> bool {
        self.position(id) < self.peers.len()
    }

    /// The first peer called `id`.
    pub open spec fn peer(self, id: u32) -> PeerView
        recommends
            self.has_peer(id),
    {
        self.peers[self.position(id)]
    }

    /// No two peers of the room have the same id.
    pub open spec fn wf(self) -> bool {
        forall|i: int, j: int|
            0 <= i < self.peers.len() && 0 <= j < self.peers.len() && i != j
                ==> self.peers[i].id != self.peers[j].id
    }

    /// Every peer of the room has an id below `bound`.
    pub open spec fn ids_below(self, bound: u32) -> bool {
        forall|i: int| 0 <= i < self.peers.len() ==> (#[trigger] self.peers[i]).id < bound
    }

    /// The room with one more peer at the end.
    pub open spec fn with_peer(self, peer: PeerView) -> RoomView {
        RoomView { peers: self.peers.push(peer), ..self }
    }

    /// The room with the peer at `position` replaced.
    pub open spec fn with_peer_at(self, position: int, peer: PeerView) -> RoomView {
        RoomView { peers: self.peers.update(position, peer), ..self }
    }

    /// The room without the peer at `position`: the last peer takes its
    /// place.
    pub open spec fn without_peer_at(self, position: int) -> RoomView {
        RoomView { peers: self.peers.update(position, self.peers.last()).drop_last(), ..self }
    }
}

/// A peer called `id` is in the room exactly if some position holds one.
pub proof fn lemma_has_peer(room: RoomView, id: u32)
    ensures
        room.has_peer(id) <==> exists|i: int|
            0 <= i < room.peers.len() && (#[trigger] room.peers[i]).id == id,
        room.has_peer(id) ==> 0 <= room.position(id) < room.peers.len() && room.peer(id).id
            == id,
{
    lemma_position_from(room.peers, id, 0);
    if exists|i: int| 0 <= i < room.peers.len() && (#[trigger] room.peers[i]).id == id {
        let i = choose|i: int| 0 <= i < room.peers.len() && (#[trigger] room.peers[i]).id == id;
        if !room.has_peer(id) {
            assert(room.peers[i].id != id);
        }
    }
}

/// The forwarding tracks that a peer has published: video first, then
/// audio.
pub open spec fn published_tracks(peer: PeerView) -> Seq<TrackId> {
    (if peer.video is Some {
        seq![TrackId { peer_id: peer.id, kind: MediaKind::Video }]
    } else {
        Seq::empty()
    }) + (if peer.audio is Some {
        seq![TrackId { peer_id: peer.id, kind: MediaKind::Audio }]
    } else {
        Seq::empty()
    })
}

/// The forwarding tracks published by the peers other than `peer_id` among
/// the first `n`, peer by peer.
pub open spec fn tracks_of_others(peers: Seq<PeerView>, peer_id: u32, n: int) -> Seq<TrackId>
    decreases n,
{
    if n <= 0 {
        Seq::empty()
    } else if peers[n - 1].id == peer_id {
        tracks_of_others(peers, peer_id, n - 1)
    } else {
        tracks_of_others(peers, peer_id, n - 1) + published_tracks(peers[n - 1])
    }
}

/// One sendonly transceiver on the connection of `peer_id` for each of
/// `tracks`, in order.
pub open spec fn attach_actions(peer_id: u32, tracks: Seq<TrackId>) -> Seq<ActionView> {
    Seq::new(
        tracks.len(),
        |i: int| ActionView::AddSendonlyTransceiver { peer_id, track: tracks[i] },
    )
}

/// The membership list shown to `exclude`: of the first `n` peers, those
/// that are connected, have a name and are not `exclude` itself.
pub open spec fn members(peers: Seq<PeerView>, exclude: u32, n: int) -> Seq<ServerMessagePeer>
    decreases n,
{
    if n <= 0 {
        Seq::empty()
    } else if peers[n - 1].is_listed() && peers[n - 1].id != exclude {
        members(peers, exclude, n - 1).push(
            ServerMessagePeer { id: peers[n - 1].id, name: peers[n - 1].name.unwrap() },
        )
    } else {
        members(peers, exclude, n - 1)
    }
}

/// The announcement of peer `id` under `name` to each of the first `n`
/// peers but `id` itself.
pub open spec fn joined_actions(peers: Seq<PeerView>, id: u32, name: String, n: int) -> Seq<
    ActionView,
>
    decreases n,
{
    if n <= 0 {
        Seq::empty()
    } else if peers[n - 1].id != id {
        joined_actions(peers, id, name, n - 1).push(
            ActionView::Send {
                peer_id: peers[n - 1].id,
                message: ServerMessageView::PeerJoined(ServerMessagePeer { id, name }),
            },
        )
    } else {
        joined_actions(peers, id, name, n - 1)
    }
}

/// What each of the first `n` remaining peers is asked after peer `id` has
/// left: tell the client, stop the tracks of `id`, renegotiate.
pub open spec fn leave_actions(peers: Seq<PeerView>, id: u32, n: int) -> Seq<ActionView>
    decreases n,
{
    if n <= 0 {
        Seq::empty()
    } else {
        leave_actions(peers, id, n - 1) + seq![
            ActionView::Send { peer_id: peers[n - 1].id, message: ServerMessageView::PeerLeft(id) },
            ActionView::StopTransceivers { peer_id: peers[n - 1].id, source: id },
            ActionView::CreateOffer { peer_id: peers[n - 1].id },
        ]
    }
}

/// What one peer is asked when `track` is fanned out to it.
pub open spec fn fan_out_step(peer_id: u32, track: TrackId, send_offer: bool) -> Seq<ActionView> {
    if send_offer {
        seq![
            ActionView::AddSendonlyTransceiver { peer_id, track },
            ActionView::CreateOffer { peer_id },
        ]
    } else {
        seq![ActionView::AddSendonlyTransceiver { peer_id, track }]
    }
}

/// What the first `n` peers but `peer_id` are asked when `track` is fanned
/// out.
pub open spec fn fan_out_actions(
    peers: Seq<PeerView>,
    peer_id: u32,
    track: TrackId,
    send_offer: bool,
    n: int,
) -> Seq<ActionView>
    decreases n,
{
    if n <= 0 {
        Seq::empty()
    } else if peers[n - 1].id != peer_id {
        fan_out_actions(peers, peer_id, track, send_offer, n - 1) + fan_out_step(
            peers[n - 1].id,
            track,
            send_offer,
        )
    } else {
        fan_out_actions(peers, peer_id, track, send_offer, n - 1)
    }
}

/// The keyframe requests to the peers called `peer_id` among the first `n`.
pub open spec fn pli_actions(peers: Seq<PeerView>, peer_id: u32, n: int) -> Seq<ActionView>
    decreases n,
{
    if n <= 0 {
        Seq::empty()
    } else if peers[n - 1].id == peer_id {
        pli_actions(peers, peer_id, n - 1) + peers[n - 1].pli_actions()
    } else {
        pli_actions(peers, peer_id, n - 1)
    }
}

impl RoomView {
    /// The room after the peer called `peer_id` was given the tracks that
    /// the others have published.
    pub open spec fn after_tracks_of_others(self, peer_id: u32) -> RoomView {
        let position = self.position(peer_id);
        let peer = self.peers[position];
        let tracks = tracks_of_others(self.peers, peer_id, self.peers.len() as int);
        self.with_peer_at(position, PeerView { sending: peer.sending + tracks, ..peer })
    }

    /// The room after `track` was fanned out to every peer but `peer_id`.
    pub open spec fn after_fan_out(self, peer_id: u32, track: TrackId) -> RoomView {
        RoomView {
            peers: Seq::new(
                self.peers.len(),
                |k: int|
                    if self.peers[k].id != peer_id {
                        self.peers[k].sending_also(track)
                    } else {
                        self.peers[k]
                    },
            ),
            ..self
        }
    }

    /// The room after every peer was asked to stop the tracks of `id`.
    pub open spec fn after_stop(self, id: u32) -> RoomView {
        RoomView {
            peers: Seq::new(self.peers.len(), |k: int| self.peers[k].stopped(id)),
            ..self
        }
    }

    /// The room after the peer called `id` has left: unchanged if there is
    /// none; else the peer is removed and the others stop its tracks.
    pub open spec fn after_leave(self, id: u32) -> RoomView {
        if self.has_peer(id) {
            self.without_peer_at(self.position(id)).after_stop(id)
        } else {
            self
        }
    }

    /// What the departure of the peer called `id` asks for: nothing if there
    /// is none; else its connection is closed and every other peer is told.
    pub open spec fn leave_actions(self, id: u32) -> Seq<ActionView> {
        if self.has_peer(id) {
            let rest = self.without_peer_at(self.position(id)).peers;
            seq![ActionView::Close { peer_id: id }] + leave_actions(rest, id, rest.len() as int)
        } else {
            Seq::empty()
        }
    }
}

/// Two rooms whose peers have the same ids, position by position, find the
/// same peers and are in order together.
pub proof fn lemma_same_ids(a: RoomView, b: RoomView)
    requires
        a.peers.len() == b.peers.len(),
        forall|k: int| 0 <= k < a.peers.len() ==> (#[trigger] a.peers[k]).id == b.peers[k].id,
    ensures
        forall|id: u32| a.position(id) == b.position(id),
        forall|id: u32| a.has_peer(id) == b.has_peer(id),
        a.wf() == b.wf(),
        forall|bound: u32| a.ids_below(bound) == b.ids_below(bound),
{
    assert forall|id: u32| a.position(id) == b.position(id) by {
        lemma_same_ids_from(a.peers, b.peers, id, 0);
    }
    if a.wf() {
        assert forall|i: int, j: int|
            0 <= i < b.peers.len() && 0 <= j < b.peers.len() && i != j implies b.peers[i].id
            != b.peers[j].id by {
            assert(a.peers[i].id == b.peers[i].id);
            assert(a.peers[j].id == b.peers[j].id);
        }
    }
    if b.wf() {
        assert forall|i: int, j: int|
            0 <= i < a.peers.len() && 0 <= j < a.peers.len() && i != j implies a.peers[i].id
            != a.peers[j].id by {
            assert(a.peers[i].id == b.peers[i].id);
            assert(a.peers[j].id == b.peers[j].id);
        }
    }
    assert forall|bound: u32| a.ids_below(bound) == b.ids_below(bound) by {
        if a.ids_below(bound) {
            assert forall|k: int| 0 <= k < b.peers.len() implies (#[trigger] b.peers[k]).id
                < bound by {
                assert(a.peers[k].id == b.peers[k].id);
            }
        }
        if b.ids_below(bound) {
            assert forall|k: int| 0 <= k < a.peers.len() implies (#[trigger] a.peers[k]).id
                < bound by {
                assert(a.peers[k].id == b.peers[k].id);
            }
        }
    }
}

/// The step of [`lemma_same_ids`] for one id and one starting position.
pub proof fn lemma_same_ids_from(a: Seq<PeerView>, b: Seq<PeerView>, id: u32, start: int)
    requires
        a.len() == b.len(),
        forall|k: int| 0 <= k < a.len() ==> (#[trigger] a[k]).id == b[k].id,
        0 <= start <= a.len(),
    ensures
        position_from(a, id, start) == position_from(b, id, start),
    decreases a.len() - start,
{
    if start < a.len() {
        assert(a[start].id == b[start].id);
        if a[start].id != id {
            lemma_same_ids_from(a, b, id, start + 1);
        }
    }
}

/// Replacing a peer by one of the same id changes neither where peers are
/// found nor whether the room is in order.
pub proof fn lemma_replace_keeps_ids(room: RoomView, position: int, peer: PeerView)
    requires
        0 <= position < room.peers.len(),
        peer.id == room.peers[position].id,
    ensures
        forall|id: u32| room.with_peer_at(position, peer).position(id) == room.position(id),
        forall|id: u32| room.with_peer_at(position, peer).has_peer(id) == room.has_peer(id),
        room.with_peer_at(position, peer).wf() == room.wf(),
        forall|bound: u32| room.with_peer_at(position, peer).ids_below(bound) == room.ids_below(bound),
{
    let after = room.with_peer_at(position, peer);
    assert forall|k: int| 0 <= k < after.peers.len() implies (#[trigger] after.peers[k]).id
        == room.peers[k].id by {}
    lemma_same_ids(after, room);
}

/// Distinct ids stay distinct. A room whose peers have distinct ids below
/// `id` has no peer called `id`; with a new peer under that id its peers
/// still have distinct ids, all below the id after it, and the earlier
/// peers are where and what they were.
pub proof fn lemma_new_peer_keeps_ids_distinct(room: RoomView, id: u32)
    requires
        room.wf(),
        room.ids_below(id),
        id < u32::MAX,
    ensures
        !room.has_peer(id),
        room.with_peer(PeerView::fresh(id, room.id)).wf(),
        room.with_peer(PeerView::fresh(id, room.id)).ids_below((id + 1) as u32),
        room.with_peer(PeerView::fresh(id, room.id)).peers.subrange(0, room.peers.len() as int)
            == room.peers,
        room.with_peer(PeerView::fresh(id, room.id)).peers.last() == PeerView::fresh(id, room.id),
{
    let after = room.with_peer(PeerView::fresh(id, room.id));
    lemma_has_peer(room, id);
    if room.has_peer(id) {
        assert(room.peer(id).id < id);
    }
    assert forall|i: int, j: int|
        0 <= i < after.peers.len() && 0 <= j < after.peers.len() && i != j implies after.peers[i].id
        != after.peers[j].id by {
        if i < room.peers.len() {
            assert(room.peers[i].id < id);
        }
        if j < room.peers.len() {
            assert(room.peers[j].id < id);
        }
    }
    assert forall|k: int| 0 <= k < after.peers.len() implies (#[trigger] after.peers[k]).id < (id
        + 1) as u32 by {
        if k < room.peers.len() {
            assert(room.peers[k].id < id);
        }
    }
    assert(after.peers.subrange(0, room.peers.len() as int) =~= room.peers);
}

/// A keyframe request for a peer that is not in the room asks for nothing.
pub proof fn lemma_pli_unknown_peer(peers: Seq<PeerView>, peer_id: u32, n: int)
    requires
        0 <= n <= peers.len(),
        forall|k: int| 0 <= k < n ==> (#[trigger] peers[k]).id != peer_id,
    ensures
        pli_actions(peers, peer_id, n) == Seq::<ActionView>::empty(),
    decreases n,
{
    if n > 0 {
        assert(peers[n - 1].id != peer_id);
        lemma_pli_unknown_peer(peers, peer_id, n - 1);
    }
}

/// Whether `entry` shows `peer` to `exclude` truthfully: the peer is another
/// one, it is connected, and it has set the name that the entry shows.
pub open spec fn is_shown_as(peer: PeerView, entry: ServerMessagePeer, exclude: u32) -> bool {
    &&& peer.id == entry.id
    &&& peer.id != exclude
    &&& peer.state == ConnectionState::Connected
    &&& peer.name == Some(entry.name)
}

/// Whether `entry` shows one of the first `n` peers truthfully.
pub open spec fn shows_a_peer(peers: Seq<PeerView>, n: int, entry: ServerMessagePeer, exclude: u32) -> bool {
    exists|i: int| 0 <= i < n && is_shown_as(#[trigger] peers[i], entry, exclude)
}

/// Membership lists show only connected, named peers. Every entry of the
/// list shown to `exclude` stands for a peer of the room other than
/// `exclude` whose connection is connected and whose name is the one shown.
pub proof fn lemma_members_are_connected_and_named(peers: Seq<PeerView>, exclude: u32, n: int)
    requires
        0 <= n <= peers.len(),
    ensures
        forall|k: int|
            0 <= k < members(peers, exclude, n).len() ==> shows_a_peer(
                peers,
                n,
                #[trigger] members(peers, exclude, n)[k],
                exclude,
            ),
    decreases n,
{
    if n > 0 {
        lemma_members_are_connected_and_named(peers, exclude, n - 1);
        let before = members(peers, exclude, n - 1);
        let list = members(peers, exclude, n);
        assert forall|k: int| 0 <= k < list.len() implies shows_a_peer(
            peers,
            n,
            #[trigger] list[k],
            exclude,
        ) by {
            if k < before.len() {
                assert(list[k] == before[k]);
                assert(shows_a_peer(peers, n - 1, before[k], exclude));
                let i = choose|i: int|
                    0 <= i < n - 1 && is_shown_as(#[trigger] peers[i], before[k], exclude);
                assert(0 <= i < n && is_shown_as(peers[i], list[k], exclude));
            } else {
                assert(peers[n - 1].is_listed() && peers[n - 1].id != exclude);
                assert(is_shown_as(peers[n - 1], list[k], exclude));
            }
        }
    }
}

/// An announcement goes to every peer but the announced one, and carries
/// the id and the name that were given.
pub proof fn lemma_joined_actions(peers: Seq<PeerView>, id: u32, name: String, n: int)
    requires
        0 <= n <= peers.len(),
    ensures
        forall|k: int|
            0 <= k < joined_actions(peers, id, name, n).len() ==> exists|i: int|
                0 <= i < n && peers[i].id != id && (#[trigger] joined_actions(peers, id, name, n)[k])
                    == (ActionView::Send {
                    peer_id: peers[i].id,
                    message: ServerMessageView::PeerJoined(ServerMessagePeer { id, name }),
                }),
    decreases n,
{
    if n > 0 {
        lemma_joined_actions(peers, id, name, n - 1);
        let before = joined_actions(peers, id, name, n - 1);
        let all = joined_actions(peers, id, name, n);
        assert forall|k: int| 0 <= k < all.len() implies exists|i: int|
            0 <= i < n && peers[i].id != id && (#[trigger] all[k]) == (ActionView::Send {
                peer_id: peers[i].id,
                message: ServerMessageView::PeerJoined(ServerMessagePeer { id, name }),
            }) by {
            if k < before.len() {
                assert(all[k] == before[k]);
                let i = choose|i: int|
                    0 <= i < n - 1 && peers[i].id != id && before[k] == (ActionView::Send {
                        peer_id: peers[i].id,
                        message: ServerMessageView::PeerJoined(ServerMessagePeer { id, name }),
                    });
                assert(0 <= i < n && peers[i].id != id);
            } else {
                assert(0 <= n - 1 < n && peers[n - 1].id != id);
            }
        }
    }
}

impl Clone for Room {
    fn clone(&self) -> (res: Self)
        ensures
            res@ == self@,
    {
        let mut peers: Vec<Peer> = Vec::new();
        let mut i: usize = 0;
        while i < self.peers.len()
            invariant
                0 <= i <= self.peers@.len(),
                peers@.len() == i,
                forall|k: int| 0 <= k < i ==> (#[trigger] peers@[k])@ == self.peers@[k]@,
            decreases self.peers@.len() - i,
        {
            let peer = self.peers[i].clone();
            peers.push(peer);
            i += 1;
        }
        assert(peer_views(peers@) =~= peer_views(self.peers@));
        Room { id: self.id, code: self.code.clone(), peers }
    }
}

impl Room {
    /// Creates the empty room `id` for the given code.
    pub fn new(id: u32, code: String) -> (room: Room)
        ensures
            room@ == (RoomView { id, code: code@, peers: Seq::empty() }),
            room@.wf(),
    {
        let room = Room { id, code, peers: Vec::new() };
        assert(room@.peers =~= Seq::empty());
        room
    }

    /// The number of peers in the room.
    pub fn len(&self) -> (n: usize)
        ensures
            n == self@.peers.len(),
    {
        self.peers.len()
    }

    /// Whether the room has no peer.
    pub fn is_empty(&self) -> (empty: bool)
        ensures
            empty == (self@.peers.len() == 0),
    {
        self.peers.len() == 0
    }

    /// Finds the position of the peer called `id`.
    pub fn get_peer_index(&self, id: u32) -> (found: Option<usize>)
        ensures
            found is Some <==> self@.has_peer(id),
            found is Some ==> found.unwrap() == self@.position(id),
    {
        let mut i: usize = 0;
        while i < self.peers.len()
            invariant
                0 <= i <= self.peers@.len(),
                position_from(self@.peers, id, 0) == position_from(self@.peers, id, i as int),
            decreases self.peers@.len() - i,
        {
            if self.peers[i].id == id {
                return Some(i);
            }
            i += 1;
        }
        None
    }

    /// Tells whether a peer called `id` is in the room.
    pub fn has_peer(&self, id: u32) -> (found: bool)
        ensures
            found == self@.has_peer(id),
    {
        self.get_peer_index(id).is_some()
    }

    /// The peer called `id`.
    pub fn get_peer(&self, id: u32) -> (peer: &Peer)
        requires
            self@.has_peer(id),
        ensures
            peer@ == self@.peer(id),
            *peer == self.peers@[self@.position(id)],
    {
        let found = self.get_peer_index(id);
        &self.peers[found.unwrap()]
    }

    /// The peer called `id`, to be changed in place.
    pub fn get_peer_mut(&mut self, id: u32) -> (peer: &mut Peer)
        requires
            old(self)@.has_peer(id),
        ensures
            *peer == old(self).peers@[old(self)@.position(id)],
            final(self).id == old(self).id,
            final(self).peers@ == old(self).peers@.update(old(self)@.position(id), *final(peer)),
            final(self)@ == old(self)@.with_peer_at(old(self)@.position(id), final(peer)@),
    {
        let found = self.get_peer_index(id);
        let index = found.unwrap();
        let peer = &mut self.peers[index];
        proof {
            assert(peer_views(old(self).peers@.update(index as int, *final(peer)))
                =~= peer_views(old(self).peers@).update(index as int, final(peer)@));
        }
        peer
    }
    /// Admits a new peer: takes the next id from the shared counter, creates
    /// the peer, appends it and returns its id. Refused, with nothing
    /// changed, once the counter has run out.
    pub fn add_peer(&mut self, next_peer_id: &mut u32, out: &mut Vec<Action>) -> (added: Result<
        u32,
        Error,
    >)
        ensures
            *old(next_peer_id) < u32::MAX ==> added == Ok::<u32, Error>(*old(next_peer_id)),
            *old(next_peer_id) == u32::MAX ==> added == Err::<u32, Error>(Error::IdsExhausted),
            added is Ok ==> {
                &&& *final(next_peer_id) == *old(next_peer_id) + 1
                &&& final(self)@ == old(self)@.with_peer(
                    PeerView::fresh(*old(next_peer_id), old(self).id),
                )
                &&& views(final(out)@) == views(old(out)@).push(
                    PeerView::fresh(*old(next_peer_id), old(self).id).id_action(),
                )
            },
            added is Err ==> {
                &&& *final(next_peer_id) == *old(next_peer_id)
                &&& final(self)@ == old(self)@
                &&& views(final(out)@) == views(old(out)@)
            },
            old(self)@.wf() && old(self)@.ids_below(*old(next_peer_id)) ==> final(self)@.wf()
                && final(self)@.ids_below(*final(next_peer_id)),
    {
        if *next_peer_id == u32::MAX {
            return Err(Error::IdsExhausted);
        }
        let id = *next_peer_id;
        *next_peer_id = id + 1;
        let peer = Peer::new(id, self.id, out);
        self.peers.push(peer);
        assert(self@.peers =~= old(self)@.peers.push(PeerView::fresh(id, self.id)));
        Ok(id)
    }

    /// Removes the peer called `id` and returns it. The last peer takes its
    /// place.
    pub fn remove_peer(&mut self, id: u32) -> (peer: Peer)
        requires
            old(self)@.has_peer(id),
        ensures
            peer@ == old(self)@.peer(id),
            final(self)@ == old(self)@.without_peer_at(old(self)@.position(id)),
    {
        let found = self.get_peer_index(id);
        let index = found.unwrap();
        let peer = self.peers.swap_remove(index);
        assert(self@.peers =~= old(self)@.without_peer_at(index as int).peers);
        peer
    }

    /// Attaches to the peer called `peer_id` the forwarding tracks that the
    /// other peers have published so far.
    pub fn add_other_peers_tracks(&mut self, peer_id: u32, out: &mut Vec<Action>)
        requires
            old(self)@.has_peer(peer_id),
        ensures
            final(self)@ == old(self)@.after_tracks_of_others(peer_id),
            views(final(out)@) == views(old(out)@) + attach_actions(
                peer_id,
                tracks_of_others(old(self)@.peers, peer_id, old(self)@.peers.len() as int),
            ),
    {
        let found = self.get_peer_index(peer_id);
        let position = found.unwrap();
        proof {
            lemma_has_peer(self@, peer_id);
        }
        let ghost before = self@.peers;
        let ghost target = before[position as int];
        let mut j: usize = 0;
        while j < self.peers.len()
            invariant
                0 <= j <= self.peers@.len(),
                position < self.peers@.len(),
                self.id == old(self).id,
                self.code@ == old(self).code@,
                before == old(self)@.peers,
                target == before[position as int],
                target.id == peer_id,
                self.peers@.len() == before.len(),
                forall|k: int|
                    0 <= k < before.len() && k != position ==> (#[trigger] self.peers@[k])@
                        == before[k],
                self.peers@[position as int]@ == (PeerView {
                    sending: target.sending + tracks_of_others(before, peer_id, j as int),
                    ..target
                }),
                views(out@) == views(old(out)@) + attach_actions(
                    peer_id,
                    tracks_of_others(before, peer_id, j as int),
                ),
            decreases self.peers@.len() - j,
        {
            let ghost so_far = tracks_of_others(before, peer_id, j as int);
            let other_id = self.peers[j].id;
            if other_id != peer_id {
                assert(j != position);
                let video = self.peers[j].video;
                let audio = self.peers[j].audio;
                let ghost mut added = Seq::<TrackId>::empty();
                if video.is_some() {
                    let track = TrackId { peer_id: other_id, kind: MediaKind::Video };
                    self.peers[position].add_sendonly_transceiver(track, out);
                    proof {
                        added = added.push(track);
                    }
                }
                if audio.is_some() {
                    let track = TrackId { peer_id: other_id, kind: MediaKind::Audio };
                    self.peers[position].add_sendonly_transceiver(track, out);
                    proof {
                        added = added.push(track);
                    }
                }
                assert(added =~= published_tracks(before[j as int]));
                assert(self.peers@[position as int]@.sending =~= target.sending + (so_far + added));
            }
            j += 1;
        }
        assert(self@.peers =~= old(self)@.after_tracks_of_others(peer_id).peers);
    }

    /// The membership list shown to the peer `for_peer_id`: every other peer
    /// that is connected and has set a name, in room order.
    pub fn get_server_message_peers(&self, for_peer_id: u32) -> (list: Vec<ServerMessagePeer>)
        ensures
            list@ == members(self@.peers, for_peer_id, self@.peers.len() as int),
    {
        let mut list: Vec<ServerMessagePeer> = Vec::new();
        let mut i: usize = 0;
        while i < self.peers.len()
            invariant
                0 <= i <= self.peers@.len(),
                list@ == members(self@.peers, for_peer_id, i as int),
            decreases self.peers@.len() - i,
        {
            let peer = &self.peers[i];
            if peer.id != for_peer_id && peer.conn.state == ConnectionState::Connected {
                match &peer.name {
                    Some(name) => {
                        list.push(ServerMessagePeer { id: peer.id, name: name.clone() });
                    },
                    None => {},
                }
            }
            i += 1;
        }
        list
    }

    /// Announces peer `id` under `name` to every other peer of the room.
    pub fn send_joined_peer(&self, id: u32, name: String, out: &mut Vec<Action>)
        ensures
            views(final(out)@) == views(old(out)@) + joined_actions(
                self@.peers,
                id,
                name,
                self@.peers.len() as int,
            ),
    {
        let mut i: usize = 0;
        while i < self.peers.len()
            invariant
                0 <= i <= self.peers@.len(),
                views(out@) == views(old(out)@) + joined_actions(self@.peers, id, name, i as int),
            decreases self.peers@.len() - i,
        {
            let other = &self.peers[i];
            if other.id != id {
                other.send_message(
                    ServerMessage::PeerJoined(ServerMessagePeer { id, name: name.clone() }),
                    out,
                );
            }
            i += 1;
        }
    }

    /// Takes the peer called `id` out of the room. Its connection is closed;
    /// every remaining peer is told that it left, stops the tracks that it
    /// published and renegotiates. Returns whether the peer was found: a
    /// second departure changes nothing and asks for nothing.
    pub fn handle_peer_leave(&mut self, id: u32, out: &mut Vec<Action>) -> (left: bool)
        ensures
            left == old(self)@.has_peer(id),
            final(self)@ == old(self)@.after_leave(id),
            views(final(out)@) == views(old(out)@) + old(self)@.leave_actions(id),
    {
        if !self.has_peer(id) {
            return false;
        }
        let peer = self.remove_peer(id);
        proof {
            lemma_has_peer(old(self)@, id);
        }
        peer.close(out);
        let ghost rest = self@.peers;
        let ghost base = views(out@);
        let mut i: usize = 0;
        while i < self.peers.len()
            invariant
                0 <= i <= self.peers@.len(),
                self.id == old(self).id,
                self.code@ == old(self).code@,
                self.peers@.len() == rest.len(),
                forall|k: int| 0 <= k < i ==> (#[trigger] self.peers@[k])@ == rest[k].stopped(id),
                forall|k: int| i <= k < rest.len() ==> (#[trigger] self.peers@[k])@ == rest[k],
                views(out@) == base + leave_actions(rest, id, i as int),
            decreases self.peers@.len() - i,
        {
            self.peers[i].send_message(ServerMessage::PeerLeft(id), out);
            self.peers[i].stop_transceivers(id, out);
            self.peers[i].send_offer(out);
            i += 1;
        }
        assert(self@.peers =~= old(self)@.after_leave(id).peers);
        true
    }

    /// Attaches `track`, published by `peer_id`, to every other peer. With
    /// `send_offer` each of them renegotiates right after.
    pub fn add_peer_track_to_others(
        &mut self,
        peer_id: u32,
        track: TrackId,
        send_offer: bool,
        out: &mut Vec<Action>,
    )
        ensures
            final(self)@ == old(self)@.after_fan_out(peer_id, track),
            views(final(out)@) == views(old(out)@) + fan_out_actions(
                old(self)@.peers,
                peer_id,
                track,
                send_offer,
                old(self)@.peers.len() as int,
            ),
    {
        let ghost before = self@.peers;
        let mut i: usize = 0;
        while i < self.peers.len()
            invariant
                0 <= i <= self.peers@.len(),
                self.id == old(self).id,
                self.code@ == old(self).code@,
                before == old(self)@.peers,
                self.peers@.len() == before.len(),
                forall|k: int|
                    0 <= k < i ==> (#[trigger] self.peers@[k])@ == (if before[k].id != peer_id {
                        before[k].sending_also(track)
                    } else {
                        before[k]
                    }),
                forall|k: int| i <= k < before.len() ==> (#[trigger] self.peers@[k])@ == before[k],
                views(out@) == views(old(out)@) + fan_out_actions(
                    before,
                    peer_id,
                    track,
                    send_offer,
                    i as int,
                ),
            decreases self.peers@.len() - i,
        {
            if self.peers[i].id != peer_id {
                self.peers[i].add_sendonly_transceiver(track, out);
                if send_offer {
                    self.peers[i].send_offer(out);
                }
            }
            i += 1;
        }
        assert(self@.peers =~= old(self)@.after_fan_out(peer_id, track).peers);
    }

    /// Requests a keyframe from the peer called `peer_id`. A request for a
    /// peer that is not in the room asks for nothing.
    pub fn send_pli(&self, peer_id: u32, out: &mut Vec<Action>)
        ensures
            views(final(out)@) == views(old(out)@) + pli_actions(
                self@.peers,
                peer_id,
                self@.peers.len() as int,
            ),
            !self@.has_peer(peer_id) ==> views(final(out)@) == views(old(out)@),
    {
        proof {
            if !self@.has_peer(peer_id) {
                lemma_has_peer(self@, peer_id);
                lemma_pli_unknown_peer(self@.peers, peer_id, self@.peers.len() as int);
            }
        }
        let mut i: usize = 0;
        while i < self.peers.len()
            invariant
                0 <= i <= self.peers@.len(),
                views(out@) == views(old(out)@) + pli_actions(self@.peers, peer_id, i as int),
            decreases self.peers@.len() - i,
        {
            let peer = &self.peers[i];
            if peer.id == peer_id {
                peer.send_pli(out);
            }
            i += 1;
        }
    }
}

} // verus!
