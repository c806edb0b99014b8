//! The registry of rooms, keyed by room code, and the counters from which
//! room and peer ids are taken.

use dashmap::DashMap;
use vstd::prelude::*;

use crate::action::{views, Action};
use crate::error::Error;
use crate::fanout::fanned_out;
use crate::peer::PeerView;
use crate::room::{lemma_has_peer, Room, RoomView};

verus! {

/// The concurrent hash map of the `dashmap` crate. Its contents are known
/// to the engine only through [`room_entries`].
#[verifier::external_type_specification]
#[verifier::external_body]
#[verifier::reject_recursive_types(K)]
#[verifier::reject_recursive_types(V)]
#[verifier::reject_recursive_types(S)]
pub struct ExDashMap<K, V, S>(DashMap<K, V, S>);

/// The rooms that a map holds, each under the characters of its code.
pub uninterp spec fn room_entries(rooms: DashMap<String, Room>) -> Map<Seq<char>, Room>;

/// Creates an empty map of rooms.
///
/// Trusted: this is `DashMap::new`, which returns a map without entries.
#[verifier::external_body]
fn rooms_new() -> (rooms: DashMap<String, Room>)
    ensures
        room_entries(rooms) =~= Map::empty(),
{
    DashMap::new()
}

/// Tells whether the map holds a room under `code`.
///
/// Trusted: this is `DashMap::contains_key`, which tells whether an entry
/// with an equal key exists; strings are equal when their characters are.
#[verifier::external_body]
fn rooms_contains(rooms: &DashMap<String, Room>, code: &String) -> (found: bool)
    ensures
        found == room_entries(*rooms).contains_key(code@),
{
    rooms.contains_key(code)
}

/// Takes the room under `code` out of the map, if there is one.
///
/// Trusted: this is `DashMap::remove`, which removes the entry with an equal
/// key and returns its key and value, or returns nothing and leaves the map
/// as it is when there is none. The value is handed on.
#[verifier::external_body]
fn rooms_remove(rooms: &mut DashMap<String, Room>, code: &String) -> (room: Option<Room>)
    ensures
        room_entries(*final(rooms)) == room_entries(*old(rooms)).remove(code@),
        room == (if room_entries(*old(rooms)).contains_key(code@) {
            Some(room_entries(*old(rooms))[code@])
        } else {
            None
        }),
{
    rooms.remove(code).map(|entry| entry.1)
}

/// Puts `room` into the map under `code`.
///
/// Trusted: this is `DashMap::insert`, which stores the value under the key
/// and returns the value that an equal key held before, if any.
#[verifier::external_body]
fn rooms_insert(rooms: &mut DashMap<String, Room>, code: String, room: Room) -> (displaced:
    Option<Room>)
    ensures
        room_entries(*final(rooms)) == room_entries(*old(rooms)).insert(code@, room),
        displaced == (if room_entries(*old(rooms)).contains_key(code@) {
            Some(room_entries(*old(rooms))[code@])
        } else {
            None
        }),
{
    rooms.insert(code, room)
}

/// The registry of rooms of one server process.
pub struct State {
    next_peer_id: u32,
    next_room_id: u32,
    /// The map of rooms. It is lent out of the registry while an operation
    /// changes it, and stands for an empty map meanwhile.
    rooms: Option<DashMap<String, Room>>,
}

/// The rooms that a map holds, if the map is there.
pub open spec fn entries_of(rooms: Option<DashMap<String, Room>>) -> Map<Seq<char>, Room> {
    match rooms {
        Some(map) => room_entries(map),
        None => Map::empty(),
    }
}

/// The mathematical content of a [`State`].
pub struct StateView {
    /// The id that the next peer gets.
    pub next_peer_id: u32,
    /// The id that the next room gets.
    pub next_room_id: u32,
    /// The rooms, each under the characters of its code.
    pub rooms: Map<Seq<char>, RoomView>,
}

/// The contents of the rooms of a map.
pub open spec fn room_views(rooms: Map<Seq<char>, Room>) -> Map<Seq<char>, RoomView> {
    Map::new(|code: Seq<char>| rooms.contains_key(code), |code: Seq<char>| rooms[code]@)
}

/// What the registry asks of a room that it holds under `code`: the room
/// knows its code, its id and the ids of its peers were handed out by the
/// counters, the peer ids are distinct, and every peer sends exactly the
/// tracks that the others have published.
pub open spec fn room_ok(
    code: Seq<char>,
    room: RoomView,
    next_peer_id: u32,
    next_room_id: u32,
) -> bool {
    &&& room.code == code
    &&& room.id < next_room_id
    &&& room.wf()
    &&& room.ids_below(next_peer_id)
    &&& fanned_out(room.peers)
}

/// `room` has the id of no room that is registered under a code other than
/// `code`, and none of its peers has the id of a peer of such a room.
pub open spec fn apart_from_others(
    rooms: Map<Seq<char>, RoomView>,
    code: Seq<char>,
    room: RoomView,
) -> bool {
    &&& forall|other: Seq<char>|
        other != code && #[trigger] rooms.contains_key(other) ==> rooms[other].id != room.id
    &&& forall|other: Seq<char>, id: u32|
        other != code && rooms.contains_key(other) && #[trigger] rooms[other].has_peer(id)
            ==> !room.has_peer(id)
}

/// No two rooms have the same id or a peer of the same id.
pub open spec fn rooms_apart(rooms: Map<Seq<char>, RoomView>) -> bool {
    forall|code: Seq<char>| #[trigger]
        rooms.contains_key(code) ==> apart_from_others(rooms, code, rooms[code])
}

impl StateView {
    /// Every room of the registry is in order, and no room id and no peer
    /// id is in use twice.
    pub open spec fn wf(self) -> bool {
        &&& forall|code: Seq<char>| #[trigger]
            self.rooms.contains_key(code) ==> room_ok(
                code,
                self.rooms[code],
                self.next_peer_id,
                self.next_room_id,
            )
        &&& rooms_apart(self.rooms)
    }

    /// Whether peer `peer_id` is in the room under `code`.
    pub open spec fn has_member(self, code: Seq<char>, peer_id: u32) -> bool {
        self.rooms.contains_key(code) && self.rooms[code].has_peer(peer_id)
    }

    /// The registry with `room` under `code`.
    pub open spec fn with_room(self, code: Seq<char>, room: RoomView) -> StateView {
        StateView { rooms: self.rooms.insert(code, room), ..self }
    }

    /// The registry without a room under `code`.
    pub open spec fn without_room(self, code: Seq<char>) -> StateView {
        StateView { rooms: self.rooms.remove(code), ..self }
    }

    /// The registry with room `room`, or without a room under `code` if
    /// `room` has no peer left.
    pub open spec fn with_room_unless_empty(self, code: Seq<char>, room: RoomView) -> StateView {
        if room.peers.len() == 0 {
            self.without_room(code)
        } else {
            self.with_room(code, room)
        }
    }
}

impl View for State {
    type V = StateView;

    closed spec fn view(&self) -> StateView {
        StateView {
            next_peer_id: self.next_peer_id,
            next_room_id: self.next_room_id,
            rooms: room_views(entries_of(self.rooms)),
        }
    }
}

/// A registry in order stays in order when a room is removed, and the
/// removed room shares no peer id with the rooms that stay.
pub proof fn lemma_removal_keeps_order(state: StateView, code: Seq<char>)
    requires
        state.wf(),
    ensures
        state.without_room(code).wf(),
        state.rooms.contains_key(code) ==> apart_from_others(
            state.without_room(code).rooms,
            code,
            state.rooms[code],
        ),
{
    let after = state.without_room(code);
    assert forall|k: Seq<char>| #[trigger] after.rooms.contains_key(k) implies apart_from_others(
        after.rooms,
        k,
        after.rooms[k],
    ) by {
        assert(state.rooms.contains_key(k));
        assert(apart_from_others(state.rooms, k, state.rooms[k]));
        assert forall|other: Seq<char>, id: u32|
            other != k && after.rooms.contains_key(other) && #[trigger] after.rooms[other].has_peer(
                id,
            ) implies !after.rooms[k].has_peer(id) by {
            assert(state.rooms.contains_key(other) && state.rooms[other].has_peer(id));
        }
    }
    if state.rooms.contains_key(code) {
        assert(apart_from_others(state.rooms, code, state.rooms[code]));
        assert forall|other: Seq<char>, id: u32|
            other != code && after.rooms.contains_key(other) && #[trigger] after.rooms[other].has_peer(
                id,
            ) implies !state.rooms[code].has_peer(id) by {
            assert(state.rooms.contains_key(other) && state.rooms[other].has_peer(id));
        }
    }
}

/// A registry in order stays in order when a room is put into it that is
/// in order itself and shares no peer id with the rooms under other codes.
pub proof fn lemma_insertion_keeps_order(state: StateView, code: Seq<char>, room: RoomView)
    requires
        state.wf(),
        room_ok(code, room, state.next_peer_id, state.next_room_id),
        apart_from_others(state.rooms, code, room),
    ensures
        state.with_room(code, room).wf(),
{
    let after = state.with_room(code, room);
    assert forall|k: Seq<char>| #[trigger] after.rooms.contains_key(k) implies apart_from_others(
        after.rooms,
        k,
        after.rooms[k],
    ) by {
        assert forall|other: Seq<char>, id: u32|
            other != k && after.rooms.contains_key(other) && #[trigger] after.rooms[other].has_peer(
                id,
            ) implies !after.rooms[k].has_peer(id) by {
            if k == code {
                assert(state.rooms.contains_key(other) && state.rooms[other].has_peer(id));
            } else if other == code {
                assert(state.rooms.contains_key(k));
                if state.rooms[k].has_peer(id) {
                    assert(!room.has_peer(id));
                }
            } else {
                assert(state.rooms.contains_key(k));
                assert(apart_from_others(state.rooms, k, state.rooms[k]));
                assert(state.rooms.contains_key(other) && state.rooms[other].has_peer(id));
            }
        }
    }
}

/// Peer ids are unique. In a registry in order, two peers of the same id
/// are one peer: they are in the same room at the same position. And every
/// id in use lies below the id that the next peer gets.
pub proof fn lemma_peer_ids_are_unique(state: StateView, a: Seq<char>, i: int, b: Seq<char>, j: int)
    requires
        state.wf(),
        state.rooms.contains_key(a),
        state.rooms.contains_key(b),
        0 <= i < state.rooms[a].peers.len(),
        0 <= j < state.rooms[b].peers.len(),
    ensures
        state.rooms[a].peers[i].id == state.rooms[b].peers[j].id ==> a == b && i == j,
        state.rooms[a].peers[i].id < state.next_peer_id,
{
    let id = state.rooms[a].peers[i].id;
    assert(room_ok(a, state.rooms[a], state.next_peer_id, state.next_room_id));
    assert(room_ok(b, state.rooms[b], state.next_peer_id, state.next_room_id));
    if id == state.rooms[b].peers[j].id {
        lemma_has_peer(state.rooms[a], id);
        lemma_has_peer(state.rooms[b], id);
        if a != b {
            assert(apart_from_others(state.rooms, b, state.rooms[b]));
            assert(state.rooms[a].has_peer(id));
            assert(false);
        }
    }
}

/// Room ids are unique. In a registry in order, two rooms under different
/// codes have different ids, and every id in use lies below the id that the
/// next room gets.
pub proof fn lemma_room_ids_are_unique(state: StateView, a: Seq<char>, b: Seq<char>)
    requires
        state.wf(),
        state.rooms.contains_key(a),
        state.rooms.contains_key(b),
    ensures
        state.rooms[a].id == state.rooms[b].id ==> a == b,
        state.rooms[a].id < state.next_room_id,
{
    assert(room_ok(a, state.rooms[a], state.next_peer_id, state.next_room_id));
    assert(apart_from_others(state.rooms, b, state.rooms[b]));
}

/// The contents of a map of rooms without the room under `code` are the
/// contents of the map without the entry under `code`.
pub proof fn lemma_room_views_remove(rooms: Map<Seq<char>, Room>, code: Seq<char>)
    ensures
        room_views(rooms.remove(code)) == room_views(rooms).remove(code),
{
    assert(room_views(rooms.remove(code)) =~= room_views(rooms).remove(code));
}

/// The contents of a map of rooms with `room` under `code` are the contents
/// of the map with the contents of `room` under `code`.
pub proof fn lemma_room_views_insert(rooms: Map<Seq<char>, Room>, code: Seq<char>, room: Room)
    ensures
        room_views(rooms.insert(code, room)) == room_views(rooms).insert(code, room@),
{
    assert(room_views(rooms.insert(code, room)) =~= room_views(rooms).insert(code, room@));
}

impl State {
    /// Every registry is in order, at any time.
    #[verifier::type_invariant]
    pub open spec fn in_order(self) -> bool {
        self@.wf()
    }

    /// Creates a registry without rooms. Ids start at 1.
    pub fn new() -> (state: State)
        ensures
            state@ == (StateView { next_peer_id: 1, next_room_id: 1, rooms: Map::empty() }),
            state@.wf(),
    {
        State::starting_at(1, 1)
    }

    /// Creates a registry without rooms whose counters start at the given
    /// ids.
    pub fn starting_at(next_peer_id: u32, next_room_id: u32) -> (state: State)
        ensures
            state@ == (StateView { next_peer_id, next_room_id, rooms: Map::empty() }),
            state@.wf(),
    {
        let rooms = rooms_new();
        assert(room_views(room_entries(rooms)) =~= Map::empty());
        State { next_peer_id, next_room_id, rooms: Some(rooms) }
    }

    /// Tells whether a room is registered under `code`.
    pub fn has_room(&self, code: &String) -> (found: bool)
        ensures
            found == self@.rooms.contains_key(code@),
    {
        match &self.rooms {
            Some(rooms) => rooms_contains(rooms, code),
            None => false,
        }
    }

    /// Tells whether an id is left for one more peer.
    pub fn has_peer_id_left(&self) -> (left: bool)
        ensures
            left == (self@.next_peer_id < u32::MAX),
    {
        self.next_peer_id < u32::MAX
    }

    /// Lends the map of rooms out of the registry, which holds no room
    /// until the map is handed back.
    fn lend(&mut self) -> (rooms: Option<DashMap<String, Room>>)
        ensures
            rooms == old(self).rooms,
            final(self).rooms == None::<DashMap<String, Room>>,
            final(self).next_peer_id == old(self).next_peer_id,
            final(self).next_room_id == old(self).next_room_id,
    {
        let mut rooms: Option<DashMap<String, Room>> = None;
        proof {
            assert(room_views(entries_of(rooms)) =~= Map::empty());
        }
        std::mem::swap(&mut self.rooms, &mut rooms);
        rooms
    }

    /// Checks the room under `code` out of the registry, if there is one.
    /// The room is in order and shares no id with the rooms that stay.
    pub(crate) fn take_room(&mut self, code: &String) -> (room: Option<Room>)
        ensures
            final(self)@ == old(self)@.without_room(code@),
            final(self)@.wf(),
            room is Some <==> old(self)@.rooms.contains_key(code@),
            room is Some ==> {
                &&& room.unwrap()@ == old(self)@.rooms[code@]
                &&& room_ok(
                    code@,
                    room.unwrap()@,
                    final(self)@.next_peer_id,
                    final(self)@.next_room_id,
                )
                &&& apart_from_others(final(self)@.rooms, code@, room.unwrap()@)
            },
    {
        proof {
            use_type_invariant(&*self);
            lemma_room_views_remove(entries_of(self.rooms), code@);
            lemma_removal_keeps_order(self@, code@);
        }
        match self.lend() {
            Some(mut rooms) => {
                let room = rooms_remove(&mut rooms, code);
                self.rooms = Some(rooms);
                room
            },
            None => {
                assert(self@.rooms =~= old(self)@.rooms.remove(code@));
                None
            },
        }
    }

    /// Checks a room into the registry under `code`, in place of the one
    /// that may be there. The room must be in order and share no id with
    /// the rooms under other codes.
    pub(crate) fn put_room(&mut self, code: String, room: Room)
        requires
            room_ok(code@, room@, old(self)@.next_peer_id, old(self)@.next_room_id),
            apart_from_others(old(self)@.rooms, code@, room@),
        ensures
            final(self)@ == old(self)@.with_room(code@, room@),
            final(self)@.wf(),
    {
        proof {
            use_type_invariant(&*self);
            lemma_room_views_insert(entries_of(self.rooms), code@, room);
            lemma_insertion_keeps_order(self@, code@, room@);
        }
        let mut rooms = match self.lend() {
            Some(rooms) => rooms,
            None => rooms_new(),
        };
        let _ = rooms_insert(&mut rooms, code, room);
        self.rooms = Some(rooms);
    }

    /// A copy of the room under `code`, if there is one. The registry stays
    /// as it is.
    pub fn snapshot(&mut self, code: &String) -> (room: Option<Room>)
        ensures
            final(self)@ == old(self)@,
            room is Some <==> old(self)@.rooms.contains_key(code@),
            room is Some ==> room.unwrap()@ == old(self)@.rooms[code@],
    {
        match self.take_room(code) {
            Some(room) => {
                let copy = room.clone();
                self.put_room(code.clone(), room);
                assert(self@.rooms =~= old(self)@.rooms);
                Some(copy)
            },
            None => {
                assert(self@.rooms =~= old(self)@.rooms);
                None
            },
        }
    }

    /// Checks the room under `code` out of the registry. If there is none,
    /// a new, empty room is created under the next room id and handed out
    /// in its place. Refused, with nothing changed, if a room would have to
    /// be created and the room ids have run out.
    pub(crate) fn take_or_create_room(&mut self, code: &String) -> (room: Result<Room, Error>)
        ensures
            final(self)@.wf(),
            room is Ok <==> old(self)@.rooms.contains_key(code@) || old(self)@.next_room_id
                < u32::MAX,
            old(self)@.rooms.contains_key(code@) ==> {
                &&& room is Ok
                &&& room.unwrap()@ == old(self)@.rooms[code@]
                &&& final(self)@ == old(self)@.without_room(code@)
            },
            !old(self)@.rooms.contains_key(code@) && room is Ok ==> {
                &&& room.unwrap()@ == (RoomView {
                    id: old(self)@.next_room_id,
                    code: code@,
                    peers: Seq::empty(),
                })
                &&& final(self)@ == (StateView {
                    next_room_id: (old(self)@.next_room_id + 1) as u32,
                    ..old(self)@
                })
            },
            room is Err ==> room == Err::<Room, Error>(Error::IdsExhausted) && final(self)@
                == old(self)@,
            room is Ok ==> {
                &&& room_ok(
                    code@,
                    room.unwrap()@,
                    final(self)@.next_peer_id,
                    final(self)@.next_room_id,
                )
                &&& apart_from_others(final(self)@.rooms, code@, room.unwrap()@)
            },
    {
        match self.take_room(code) {
            Some(room) => Ok(room),
            None => {
                assert(self@.rooms =~= old(self)@.rooms);
                if self.next_room_id == u32::MAX {
                    return Err(Error::IdsExhausted);
                }
                let id = self.next_room_id;
                proof {
                    use_type_invariant(&*self);
                    assert forall|other: Seq<char>| #[trigger]
                        self@.rooms.contains_key(other) implies room_ok(
                        other,
                        self@.rooms[other],
                        self@.next_peer_id,
                        (id + 1) as u32,
                    ) by {
                        assert(room_ok(
                            other,
                            self@.rooms[other],
                            self@.next_peer_id,
                            self@.next_room_id,
                        ));
                    }
                }
                self.next_room_id = id + 1;
                let room = Room::new(id, code.clone());
                proof {
                    assert forall|other: Seq<char>|
                        other != code@ && #[trigger] self@.rooms.contains_key(
                            other,
                        ) implies self@.rooms[other].id != room@.id by {
                        assert(room_ok(
                            other,
                            self@.rooms[other],
                            self@.next_peer_id,
                            self@.next_room_id,
                        ));
                        assert(old(self)@.rooms.contains_key(other));
                    }
                    assert forall|other: Seq<char>, peer: u32|
                        other != code@ && self@.rooms.contains_key(other)
                            && #[trigger] self@.rooms[other].has_peer(peer) implies !room@.has_peer(
                        peer,
                    ) by {
                        lemma_has_peer(room@, peer);
                    }
                    assert(fanned_out(room@.peers));
                }
                Ok(room)
            },
        }
    }

    /// Looks the room under `code` up and returns a copy of it. If there is
    /// none, a new, empty room is created under the next room id, registered
    /// under `code` and returned as a copy. A registered room stays
    /// registered. Refused, with nothing changed, if a room would have to be
    /// created and the room ids have run out.
    pub fn get_room(&mut self, code: &String) -> (room: Result<Room, Error>)
        ensures
            final(self)@.wf(),
            room is Ok <==> old(self)@.rooms.contains_key(code@) || old(self)@.next_room_id
                < u32::MAX,
            old(self)@.rooms.contains_key(code@) ==> {
                &&& room is Ok
                &&& room.unwrap()@ == old(self)@.rooms[code@]
                &&& final(self)@ == old(self)@
            },
            !old(self)@.rooms.contains_key(code@) && room is Ok ==> {
                &&& room.unwrap()@ == (RoomView {
                    id: old(self)@.next_room_id,
                    code: code@,
                    peers: Seq::empty(),
                })
                &&& final(self)@ == (StateView {
                    next_room_id: (old(self)@.next_room_id + 1) as u32,
                    rooms: old(self)@.rooms.insert(code@, room.unwrap()@),
                    ..old(self)@
                })
            },
            room is Err ==> room == Err::<Room, Error>(Error::IdsExhausted) && final(self)@
                == old(self)@,
            room is Ok ==> final(self)@.rooms.contains_key(code@) && final(self)@.rooms[code@]
                == room.unwrap()@,
    {
        match self.take_or_create_room(code) {
            Ok(room) => {
                let copy = room.clone();
                self.put_room(code.clone(), room);
                proof {
                    if old(self)@.rooms.contains_key(code@) {
                        assert(self@.rooms =~= old(self)@.rooms);
                    } else {
                        assert(self@.rooms =~= old(self)@.rooms.insert(code@, copy@));
                    }
                }
                Ok(copy)
            },
            Err(e) => Err(e),
        }
    }

    /// Removes the room under `code` from the registry, if there is one.
    pub fn remove_room(&mut self, code: &String)
        ensures
            final(self)@ == old(self)@.without_room(code@),
            final(self)@.wf(),
    {
        let _ = self.take_room(code);
    }

    /// Admits a new peer to `room` under the next peer id of the registry.
    /// Refused, with nothing changed, once the peer ids have run out.
    pub fn add_peer(&mut self, room: &mut Room, out: &mut Vec<Action>) -> (added: Result<
        u32,
        Error,
    >)
        ensures
            final(self)@.wf(),
            old(self)@.next_peer_id < u32::MAX ==> added == Ok::<u32, Error>(
                old(self)@.next_peer_id,
            ),
            old(self)@.next_peer_id == u32::MAX ==> added == Err::<u32, Error>(
                Error::IdsExhausted,
            ),
            added is Ok ==> {
                &&& final(self)@ == (StateView {
                    next_peer_id: (old(self)@.next_peer_id + 1) as u32,
                    ..old(self)@
                })
                &&& final(room)@ == old(room)@.with_peer(
                    PeerView::fresh(old(self)@.next_peer_id, old(room).id),
                )
                &&& views(final(out)@) == views(old(out)@).push(
                    PeerView::fresh(old(self)@.next_peer_id, old(room).id).id_action(),
                )
            },
            added is Err ==> {
                &&& final(self)@ == old(self)@
                &&& final(room)@ == old(room)@
                &&& views(final(out)@) == views(old(out)@)
            },
            final(room)@.code == old(room)@.code,
            added is Ok && old(room)@.wf() && old(room)@.ids_below(old(self)@.next_peer_id)
                ==> final(room)@.wf() && final(room)@.ids_below(final(self)@.next_peer_id),
    {
        let mut next = self.next_peer_id;
        let added = room.add_peer(&mut next, out);
        proof {
            use_type_invariant(&*self);
            assert forall|code: Seq<char>| #[trigger] self@.rooms.contains_key(code) implies room_ok(
                code,
                self@.rooms[code],
                next,
                self@.next_room_id,
            ) by {
                assert(room_ok(code, self@.rooms[code], self@.next_peer_id, self@.next_room_id));
            }
        }
        self.next_peer_id = next;
        added
    }
}

} // verus!
