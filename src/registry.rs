//! The server-wide collection of rooms, kept in order of creation, each
//! with an id that no other room has had before it.

use crate::room::{AiOutcome, Difficulty, Room, RoomType, RoomView, Turn};
use vstd::prelude::*;

verus! {

pub struct Server {
    pub rooms: Vec<Room>,
    /// The id the next room will get.
    pub next_id: u32,
}

impl View for Server {
    type V = Seq<RoomView>;

    open spec fn view(&self) -> Seq<RoomView> {
        self.rooms@.map_values(|r: Room| r@)
    }
}

/// Ids grow strictly along the list and stay below `next_id`.
pub open spec fn ids_ordered(rooms: Seq<RoomView>, next_id: u32) -> bool {
    &&& forall|i: int, j: int|
        0 <= i < j < rooms.len() ==> rooms[i].room_id < rooms[j].room_id
    &&& forall|i: int| 0 <= i < rooms.len() ==> (#[trigger] rooms[i]).room_id < next_id
}

pub open spec fn has_id(rooms: Seq<RoomView>, id: u32) -> bool {
    exists|i: int| 0 <= i < rooms.len() && (#[trigger] rooms[i]).room_id == id
}

/// Where the room with `id` stands, when there is one.
pub open spec fn id_index(rooms: Seq<RoomView>, id: u32) -> int {
    choose|i: int| 0 <= i < rooms.len() && (#[trigger] rooms[i]).room_id == id
}

/// `rooms` with `f` applied to the room with `id`; unchanged if none has it.
pub open spec fn update_id(
    rooms: Seq<RoomView>,
    id: u32,
    f: spec_fn(RoomView) -> RoomView,
) -> Seq<RoomView> {
    if has_id(rooms, id) {
        rooms.update(id_index(rooms, id), f(rooms[id_index(rooms, id)]))
    } else {
        rooms
    }
}

/// `rooms` without the room with `id`.
pub open spec fn remove_id(rooms: Seq<RoomView>, id: u32) -> Seq<RoomView> {
    if has_id(rooms, id) {
        rooms.remove(id_index(rooms, id))
    } else {
        rooms
    }
}

/// The registry after the player of `role` left the room with `id`: the
/// room is gone once both players have left it.
pub open spec fn after_exit(rooms: Seq<RoomView>, id: u32, role: Turn) -> Seq<RoomView> {
    if has_id(rooms, id) {
        let i = id_index(rooms, id);
        let v = rooms[i].exited(role);
        if v.both_exited() {
            rooms.remove(i)
        } else {
            rooms.update(i, v)
        }
    } else {
        rooms
    }
}

/// Whether the room at `i` is the first one named `name`.
pub open spec fn first_named(rooms: Seq<RoomView>, name: Seq<char>, i: int) -> bool {
    &&& 0 <= i < rooms.len()
    &&& rooms[i].room_name == name
    &&& forall|j: int| 0 <= j < i ==> (#[trigger] rooms[j]).room_name != name
}

pub open spec fn has_name(rooms: Seq<RoomView>, name: Seq<char>) -> bool {
    exists|i: int| 0 <= i < rooms.len() && (#[trigger] rooms[i]).room_name == name
}

proof fn lemma_same_ids(a: Seq<RoomView>, b: Seq<RoomView>, n: u32)
    requires
        ids_ordered(a, n),
        a.len() == b.len(),
        forall|j: int| 0 <= j < a.len() ==> (#[trigger] b[j]).room_id == a[j].room_id,
    ensures
        ids_ordered(b, n),
{
    assert forall|i: int, j: int| 0 <= i < j < b.len() implies b[i].room_id < b[j].room_id by {
        assert(a[i].room_id < a[j].room_id);
    }
}

proof fn lemma_remove_ordered(a: Seq<RoomView>, n: u32, k: int)
    requires
        ids_ordered(a, n),
        0 <= k < a.len(),
    ensures
        ids_ordered(a.remove(k), n),
        !has_id(a.remove(k), a[k].room_id),
{
    let b = a.remove(k);
    assert forall|i: int, j: int| 0 <= i < j < b.len() implies b[i].room_id < b[j].room_id by {
        let i0 = if i < k { i } else { i + 1 };
        let j0 = if j < k { j } else { j + 1 };
        assert(b[i] == a[i0] && b[j] == a[j0]);
        assert(a[i0].room_id < a[j0].room_id);
    }
    assert forall|i: int| 0 <= i < b.len() implies (#[trigger] b[i]).room_id < n by {
        let i0 = if i < k { i } else { i + 1 };
        assert(b[i] == a[i0]);
    }
    if has_id(b, a[k].room_id) {
        let i = choose|i: int| 0 <= i < b.len() && (#[trigger] b[i]).room_id == a[k].room_id;
        let i0 = if i < k { i } else { i + 1 };
        assert(b[i] == a[i0]);
        if i0 < k {
            assert(a[i0].room_id < a[k].room_id);
        } else {
            assert(a[k].room_id < a[i0].room_id);
        }
    }
}

impl Server {
    pub open spec fn wf(&self) -> bool {
        self.next_id >= 1 && ids_ordered(self@, self.next_id)
    }

    /// `next` is `self` with one fresh room of the given name and kind
    /// added at the end, under the id that was next.
    pub open spec fn created(self, next: Server, name: Seq<char>, kind: RoomType) -> bool {
        &&& next.next_id == self.next_id + 1
        &&& next@.len() == self@.len() + 1
        &&& next@.drop_last() == self@
        &&& next@.last().fresh(self.next_id, name, kind)
    }

    /// An empty registry whose first room will get id 1.
    pub fn new() -> (r: Server)
        ensures
            r.wf(),
            r@.len() == 0,
            r.next_id == 1,
    {
        let r = Server { rooms: Vec::new(), next_id: 1 };
        assert(r@ =~= Seq::<RoomView>::empty());
        r
    }

    fn add_room(&mut self, room_name: String, kind: RoomType) -> (r: Option<u32>)
        requires
            old(self).wf(),
        ensures
            final(self).wf(),
            old(self).next_id < u32::MAX ==> r == Some(old(self).next_id) && old(self).created(
                *final(self),
                room_name@,
                kind,
            ),
            old(self).next_id == u32::MAX ==> r is None && *final(self) == *old(self),
    {
        if self.next_id == u32::MAX {
            return None;
        }
        let id = self.next_id;
        let mut room = Room::new(id, room_name);
        room.room_type = kind;
        let ghost old_view = self@;
        self.rooms.push(room);
        self.next_id = id + 1;
        assert(self@.drop_last() =~= old_view);
        assert(self@[self@.len() - 1] == room@);
        assert forall|j: int| 0 <= j < old_view.len() implies #[trigger] self@[j] == old_view[j] by {
            assert(self@.drop_last()[j] == self@[j]);
        }
        Some(id)
    }

    /// Adds a multiplayer room under the next id and returns that id; once
    /// every id is used up, nothing is added and `None` comes back.
    pub fn create_room(&mut self, room_name: String) -> (r: Option<u32>)
        requires
            old(self).wf(),
        ensures
            final(self).wf(),
            old(self).next_id < u32::MAX ==> r == Some(old(self).next_id) && old(self).created(
                *final(self),
                room_name@,
                RoomType::MultiPlayer,
            ),
            old(self).next_id == u32::MAX ==> r is None && *final(self) == *old(self),
    {
        self.add_room(room_name, RoomType::MultiPlayer)
    }

    /// Adds a single-player room, as `create_room` does.
    pub fn create_single_room(&mut self, room_name: String) -> (r: Option<u32>)
        requires
            old(self).wf(),
        ensures
            final(self).wf(),
            old(self).next_id < u32::MAX ==> r == Some(old(self).next_id) && old(self).created(
                *final(self),
                room_name@,
                RoomType::SinglePlayer,
            ),
            old(self).next_id == u32::MAX ==> r is None && *final(self) == *old(self),
    {
        self.add_room(room_name, RoomType::SinglePlayer)
    }

    /// Where the room with `id` stands.
    pub fn find_index(&self, id: u32) -> (r: Option<usize>)
        requires
            self.wf(),
        ensures
            r is None <==> !has_id(self@, id),
            r matches Some(i) ==> i < self@.len() && i == id_index(self@, id) && self@[i as int].room_id == id,
    {
        let mut i: usize = 0;
        while i < self.rooms.len()
            invariant
                self.wf(),
                i <= self.rooms.len(),
                forall|j: int| 0 <= j < i ==> (#[trigger] self@[j]).room_id != id,
            decreases self.rooms.len() - i,
        {
            if self.rooms[i].room_id == id {
                assert(self@[i as int].room_id == id);
                proof {
                    let k = id_index(self@, id);
                    assert(0 <= k < self@.len() && self@[k].room_id == id);
                    if k < i {
                        assert(self@[k].room_id < self@[i as int].room_id);
                    } else if k > i {
                        assert(self@[i as int].room_id < self@[k].room_id);
                    }
                }
                return Some(i);
            }
            i += 1;
        }
        None
    }
    /// Puts the mouse of the room with `id` on `(x, y)`; returns whether
    /// that room exists.
    pub fn move_mouse(&mut self, id: u32, x: u32, y: u32) -> (r: bool)
        requires
            old(self).wf(),
        ensures
            final(self).wf(),
            final(self).next_id == old(self).next_id,
            r == has_id(old(self)@, id),
            final(self)@ == update_id(old(self)@, id, |v: RoomView| v.with_mouse_at((x, y))),
    {
        match self.find_index(id) {
            Some(i) => {
                let ghost old_view = self@;
                self.rooms[i].move_mouse(x, y);
                proof {
                    assert(self@ =~= old_view.update(i as int, old_view[i as int].with_mouse_at((x, y))));
                    lemma_same_ids(old_view, self@, self.next_id);
                }
                true
            },
            None => false,
        }
    }
    /// Adds a wall on `(x, y)` in the room with `id`; returns whether that
    /// room exists.
    pub fn place_trap(&mut self, id: u32, x: u32, y: u32) -> (r: bool)
        requires
            old(self).wf(),
        ensures
            final(self).wf(),
            final(self).next_id == old(self).next_id,
            r == has_id(old(self)@, id),
            final(self)@ == update_id(old(self)@, id, |v: RoomView| v.with_trap((x, y))),
    {
        match self.find_index(id) {
            Some(i) => {
                let ghost old_view = self@;
                self.rooms[i].place_trap(x, y);
                proof {
                    assert(self@ =~= old_view.update(i as int, old_view[i as int].with_trap((x, y))));
                    lemma_same_ids(old_view, self@, self.next_id);
                }
                true
            },
            None => false,
        }
    }

    /// Ends the game in the room with `id`; returns whether that room
    /// exists.
    pub fn game_over(&mut self, id: u32, winner: Option<Turn>) -> (r: bool)
        requires
            old(self).wf(),
        ensures
            final(self).wf(),
            final(self).next_id == old(self).next_id,
            r == has_id(old(self)@, id),
            final(self)@ == update_id(old(self)@, id, |v: RoomView| v.finished(winner)),
    {
        match self.find_index(id) {
            Some(i) => {
                let ghost old_view = self@;
                self.rooms[i].mark_game_over(winner);
                proof {
                    assert(self@ =~= old_view.update(i as int, old_view[i as int].finished(winner)));
                    lemma_same_ids(old_view, self@, self.next_id);
                }
                true
            },
            None => false,
        }
    }

    /// Seats `player` as `role` in the room with `id` if that slot is
    /// empty; returns whether that room exists.
    pub fn join_room(&mut self, id: u32, role: Turn, player: String) -> (r: bool)
        requires
            old(self).wf(),
        ensures
            final(self).wf(),
            final(self).next_id == old(self).next_id,
            r == has_id(old(self)@, id),
            final(self)@ == update_id(old(self)@, id, |v: RoomView| v.joined(role, player@)),
    {
        match self.find_index(id) {
            Some(i) => {
                let ghost old_view = self@;
                let ghost p = player@;
                self.rooms[i].join(role, player);
                proof {
                    assert(self@ =~= old_view.update(i as int, old_view[i as int].joined(role, p)));
                    lemma_same_ids(old_view, self@, self.next_id);
                }
                true
            },
            None => false,
        }
    }

    /// Frees the slot that `player` holds in the room with `id`; returns
    /// whether that room exists.
    pub fn exit_room(&mut self, id: u32, player: &String) -> (r: bool)
        requires
            old(self).wf(),
        ensures
            final(self).wf(),
            final(self).next_id == old(self).next_id,
            r == has_id(old(self)@, id),
            final(self)@ == update_id(old(self)@, id, |v: RoomView| v.left(player@)),
    {
        match self.find_index(id) {
            Some(i) => {
                let ghost old_view = self@;
                self.rooms[i].leave(player);
                proof {
                    assert(self@ =~= old_view.update(i as int, old_view[i as int].left(player@)));
                    lemma_same_ids(old_view, self@, self.next_id);
                }
                true
            },
            None => false,
        }
    }

    /// Lets the built-in mouse move in the room with `id`; `None` when no
    /// room has that id.
    pub fn ai_move(&mut self, id: u32) -> (r: Option<AiOutcome>)
        requires
            old(self).wf(),
        ensures
            final(self).wf(),
            final(self).next_id == old(self).next_id,
            r is None <==> !has_id(old(self)@, id),
            r is None ==> final(self)@ == old(self)@,
            r matches Some(o) ==> {
                let i = id_index(old(self)@, id);
                &&& final(self)@.len() == old(self)@.len()
                &&& old(self)@[i].ai_step(final(self)@[i], o)
                &&& final(self)@ == old(self)@.update(i, final(self)@[i])
            },
    {
        match self.find_index(id) {
            Some(i) => {
                let ghost old_view = self@;
                let o = self.rooms[i].ai_move();
                proof {
                    assert(self@ =~= old_view.update(i as int, self@[i as int]));
                    lemma_same_ids(old_view, self@, self.next_id);
                }
                Some(o)
            },
            None => None,
        }
    }

    /// Records that the player of `role` left the room with `id`, and
    /// removes the room once both players have left; returns whether that
    /// room existed.
    pub fn after_exit_room(&mut self, id: u32, role: Turn) -> (r: bool)
        requires
            old(self).wf(),
        ensures
            final(self).wf(),
            final(self).next_id == old(self).next_id,
            r == has_id(old(self)@, id),
            final(self)@ == after_exit(old(self)@, id, role),
    {
        match self.find_index(id) {
            Some(i) => {
                let ghost old_view = self@;
                let both = self.rooms[i].mark_exit(role);
                proof {
                    assert(self@ =~= old_view.update(i as int, old_view[i as int].exited(role)));
                    lemma_same_ids(old_view, self@, self.next_id);
                }
                if both {
                    let ghost mid = self@;
                    let _ = self.rooms.remove(i);
                    proof {
                        assert(self@ =~= mid.remove(i as int));
                        assert(self@ =~= old_view.remove(i as int));
                        lemma_remove_ordered(mid, self.next_id, i as int);
                    }
                }
                true
            },
            None => false,
        }
    }

    /// Removes the room with `id`, if there is one.
    pub fn delete_room(&mut self, id: u32) -> (r: bool)
        requires
            old(self).wf(),
        ensures
            final(self).wf(),
            final(self).next_id == old(self).next_id,
            r == has_id(old(self)@, id),
            final(self)@ == remove_id(old(self)@, id),
    {
        match self.find_index(id) {
            Some(i) => {
                let ghost old_view = self@;
                let _ = self.rooms.remove(i);
                proof {
                    assert(self@ =~= old_view.remove(i as int));
                    lemma_remove_ordered(old_view, self.next_id, i as int);
                }
                true
            },
            None => false,
        }
    }

    /// Where the first room named `name` stands.
    pub fn find_by_name(&self, name: &String) -> (r: Option<usize>)
        ensures
            r is None <==> !has_name(self@, name@),
            r matches Some(i) ==> first_named(self@, name@, i as int),
    {
        let mut i: usize = 0;
        while i < self.rooms.len()
            invariant
                i <= self.rooms.len(),
                forall|j: int| 0 <= j < i ==> (#[trigger] self@[j]).room_name != name@,
            decreases self.rooms.len() - i,
        {
            if self.rooms[i].room_name == *name {
                assert(self@[i as int].room_name == name@);
                return Some(i);
            }
            i += 1;
        }
        None
    }

    /// Sets the difficulty of the first room named `name`; returns whether
    /// there is one.
    pub fn set_difficulty(&mut self, level: Option<Difficulty>, name: &String) -> (r: bool)
        requires
            old(self).wf(),
        ensures
            final(self).wf(),
            final(self).next_id == old(self).next_id,
            r == has_name(old(self)@, name@),
            !r ==> final(self)@ == old(self)@,
            r ==> exists|i: int|
                first_named(old(self)@, name@, i) && final(self)@ == old(self)@.update(
                    i,
                    old(self)@[i].with_difficulty(level),
                ),
    {
        match self.find_by_name(name) {
            Some(i) => {
                let ghost old_view = self@;
                self.rooms[i].set_difficulty(level);
                proof {
                    assert(self@ =~= old_view.update(i as int, old_view[i as int].with_difficulty(level)));
                    lemma_same_ids(old_view, self@, self.next_id);
                }
                true
            },
            None => false,
        }
    }

    /// Removes every room named `name`, keeping the others in order.
    pub fn delete_room_by_name(&mut self, name: &String)
        requires
            old(self).wf(),
        ensures
            final(self).wf(),
            final(self).next_id == old(self).next_id,
            final(self)@ == old(self)@.filter(|v: RoomView| v.room_name != name@),
    {
        let ghost pred = |v: RoomView| v.room_name != name@;
        let ghost orig = self@;
        let mut rest: Vec<Room> = Vec::new();
        std::mem::swap(&mut rest, &mut self.rooms);
        let len0 = rest.len();
        let ghost n = len0 as nat;
        let mut k: usize = 0;
        while rest.len() > 0
            invariant
                self.next_id == old(self).next_id,
                pred == (|v: RoomView| v.room_name != name@),
                ids_ordered(orig, self.next_id),
                orig.len() == n,
                n == len0,
                k + rest@.len() == n,
                rest@.map_values(|r: Room| r@) == orig.skip(k as int),
                self@ == orig.take(k as int).filter(pred),
                ids_ordered(self@, self.next_id),
                forall|j: int|
                    0 <= j < self@.len() ==> k < n ==> (#[trigger] self@[j]).room_id
                        < orig[k as int].room_id,
            decreases rest@.len(),
        {
            let ghost before = self@;
            let ghost rb = rest@;
            let room = rest.remove(0);
            assert(room@ == orig[k as int]) by {
                assert(orig.skip(k as int)[0] == orig[k as int]);
            }
            assert(orig.take(k + 1).drop_last() =~= orig.take(k as int));
            assert(orig.take(k + 1).last() == orig[k as int]);
            reveal(Seq::filter);
            if room.room_name != *name {
                self.rooms.push(room);
                assert(self@ =~= before.push(orig[k as int]));
                assert(pred(orig[k as int]));
                assert(orig.take(k + 1).filter(pred) == orig.take(k as int).filter(pred).push(
                    orig[k as int],
                ));
            } else {
                assert(self@ =~= before);
                assert(!pred(orig[k as int]));
                assert(orig.take(k + 1).filter(pred) == orig.take(k as int).filter(pred));
            }
            assert forall|j: int| 0 <= j < rest@.len() implies rest@[j]@ == orig[k + 1 + j] by {
                assert(rest@[j] == rb[j + 1]);
                assert(rb.map_values(|r: Room| r@)[j + 1] == orig.skip(k as int)[j + 1]);
            }
            assert(rest@.map_values(|r: Room| r@) =~= orig.skip(k + 1));
            assert forall|j: int|
                0 <= j < self@.len() && k + 1 < n implies (#[trigger] self@[j]).room_id
                < orig[k + 1].room_id by {
                assert(orig[k as int].room_id < orig[k + 1].room_id);
                if j < before.len() {
                    assert(self@[j] == before[j]);
                }
            }
            k += 1;
        }
        assert(orig.take(n as int) =~= orig);
    }
}

proof fn lemma_index_unique(rooms: Seq<RoomView>, n: u32, id: u32, i: int)
    requires
        ids_ordered(rooms, n),
        0 <= i < rooms.len(),
        rooms[i].room_id == id,
    ensures
        has_id(rooms, id),
        id_index(rooms, id) == i,
{
    let k = id_index(rooms, id);
    if k < i {
        assert(rooms[k].room_id < rooms[i].room_id);
    } else if k > i {
        assert(rooms[i].room_id < rooms[k].room_id);
    }
}

/// Once the mouse's player and the trapper's player have both left a
/// room, in either order, no room with its id remains.
pub proof fn lemma_both_exits_remove(
    rooms: Seq<RoomView>,
    next_id: u32,
    id: u32,
    first: Turn,
    second: Turn,
)
    requires
        ids_ordered(rooms, next_id),
        first != second,
    ensures
        !has_id(after_exit(after_exit(rooms, id, first), id, second), id),
{
    if has_id(rooms, id) {
        let i = id_index(rooms, id);
        let v = rooms[i].exited(first);
        if v.both_exited() {
            lemma_remove_ordered(rooms, next_id, i);
        } else {
            let mid = rooms.update(i, v);
            lemma_same_ids(rooms, mid, next_id);
            lemma_index_unique(mid, next_id, id, i);
            assert(mid[i].exited(second).both_exited());
            lemma_remove_ordered(mid, next_id, i);
        }
    }
}

/// Rooms made one after another in an empty registry get the ids
/// 1, 2, ..., n in order, under the names they were made with: none is
/// lost and no id repeats.
pub proof fn lemma_sequential_ids(states: Seq<Server>, names: Seq<Seq<char>>)
    requires
        states.len() == names.len() + 1,
        states[0]@.len() == 0,
        states[0].next_id == 1,
        forall|i: int|
            0 <= i < names.len() ==> #[trigger] states[i].created(
                states[i + 1],
                names[i],
                RoomType::MultiPlayer,
            ),
    ensures
        states.last()@.len() == names.len(),
        states.last().next_id == names.len() + 1,
        forall|i: int|
            0 <= i < names.len() ==> (#[trigger] states.last()@[i]).room_id == i + 1
                && states.last()@[i].room_name == names[i],
    decreases names.len(),
{
    if names.len() > 0 {
        let k = names.len() - 1;
        lemma_sequential_ids(states.drop_last(), names.drop_last());
        assert(states.drop_last().last() == states[k]);
        assert(states[k].created(states[k + 1], names[k], RoomType::MultiPlayer));
        assert forall|i: int| 0 <= i < names.len() implies (#[trigger] states.last()@[i]).room_id
            == i + 1 && states.last()@[i].room_name == names[i] by {
            if i < k {
                assert(states.last()@.drop_last()[i] == states.last()@[i]);
                assert(names.drop_last()[i] == names[i]);
            }
        }
    }
}

} // verus!
