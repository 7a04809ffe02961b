//! The world: every room and every item, each under its own key, in the
//! order in which they were added.

use vstd::prelude::*;
use indexmap::IndexMap;
use crate::model::{Item, ItemView, Room, RoomView};
use crate::table::{
    assign, distinct_keys, first_at, has_key, keys_of, lemma_assign_distinct, lemma_found,
    lemma_occurs, lookup, place_of, Table,
};
use crate::text::texts;

verus! {

/// `indexmap::IndexMap`, taken as it is. Nothing is known of such a map
/// but what the functions below say of it.
#[verifier::external_type_specification]
#[verifier::external_body]
#[verifier::reject_recursive_types(K)]
#[verifier::reject_recursive_types(V)]
#[verifier::reject_recursive_types(S)]
pub struct ExIndexMap<K, V, S>(IndexMap<K, V, S>);

/// What an `IndexMap` from keys to slots holds: its entries, in the map's
/// own order, which is the order in which the keys were first inserted.
pub uninterp spec fn slots_of(m: IndexMap<String, usize>) -> Seq<(Seq<char>, usize)>;

/// Calls `IndexMap::new`. Trusted: the new map has no entry.
#[verifier::external_body]
fn slots_new() -> (m: IndexMap<String, usize>)
    ensures
        slots_of(m) == Seq::<(Seq<char>, usize)>::empty(),
{
    IndexMap::new()
}

/// Calls `IndexMap::get`. Trusted: the result is the slot stored under the
/// key that equals `key`, and `None` where the map has no such key.
#[verifier::external_body]
fn slots_get(m: &IndexMap<String, usize>, key: &str) -> (r: Option<usize>)
    ensures
        r == lookup(slots_of(*m), key@),
{
    m.get(key).copied()
}

/// Calls `IndexMap::insert`. Trusted: where the key was in the map, its
/// entry keeps its place and gets the new slot; where it was not, the pair
/// becomes the last entry. The result is the slot that the key had before.
#[verifier::external_body]
fn slots_insert(m: &mut IndexMap<String, usize>, key: String, slot: usize) -> (r: Option<usize>)
    ensures
        slots_of(*final(m)) == assign(slots_of(*old(m)), key@, slot),
        r == lookup(slots_of(*old(m)), key@),
{
    m.insert(key, slot)
}

/// The world as a value: rooms and items as keyed entries, each list in the
/// order in which its keys were added.
pub struct WorldView {
    pub rooms: Seq<(Seq<char>, RoomView)>,
    pub items: Seq<(Seq<char>, ItemView)>,
}

impl WorldView {
    /// Every entry stands under the key written on it, and no key stands
    /// twice.
    pub open spec fn wf(self) -> bool {
        &&& distinct_keys(self.rooms)
        &&& distinct_keys(self.items)
        &&& forall|i: int| 0 <= i < self.rooms.len() ==> (#[trigger] self.rooms[i]).0 == self.rooms[i].1.key
        &&& forall|i: int| 0 <= i < self.items.len() ==> (#[trigger] self.items[i]).0 == self.items[i].1.key
    }

    /// The room under `key`.
    pub open spec fn room(self, key: Seq<char>) -> Option<RoomView> {
        lookup(self.rooms, key)
    }

    /// The item under `key`.
    pub open spec fn item(self, key: Seq<char>) -> Option<ItemView> {
        lookup(self.items, key)
    }

    /// The world with `room` at place `i`, under the key it had there.
    pub open spec fn with_room(self, i: int, room: RoomView) -> WorldView {
        WorldView { rooms: self.rooms.update(i, (self.rooms[i].0, room)), items: self.items }
    }

    /// Every exit of every room leads to a room of this world.
    pub open spec fn exits_closed(self) -> bool {
        forall|i: int, j: int|
            0 <= i < self.rooms.len() && 0 <= j < self.rooms[i].1.exits.len() ==> has_key(
                self.rooms,
                (#[trigger] self.rooms[i].1.exits[j]).1,
            )
    }
}

/// The rooms of a list as keyed entries.
spec fn room_entries(rooms: Seq<Room>) -> Seq<(Seq<char>, RoomView)> {
    rooms.map_values(|r: Room| (r.key@, r@))
}

/// The items of a list as keyed entries.
spec fn item_entries(items: Seq<Item>) -> Seq<(Seq<char>, ItemView)> {
    items.map_values(|it: Item| (it.key@, it@))
}

/// The index lists, entry for entry, the keys of `entries` with their places.
spec fn indexed<T>(slots: Seq<(Seq<char>, usize)>, entries: Seq<(Seq<char>, T)>) -> bool {
    &&& slots.len() == entries.len()
    &&& forall|i: int|
        0 <= i < slots.len() ==> (#[trigger] slots[i]).0 == entries[i].0 && slots[i].1 == i
}

/// What an index finds is the first place of the key among the entries.
proof fn lemma_indexed<T>(
    slots: Seq<(Seq<char>, usize)>,
    entries: Seq<(Seq<char>, T)>,
    k: Seq<char>,
)
    requires
        indexed(slots, entries),
    ensures
        match lookup(slots, k) {
            Some(i) => first_at(entries, k, i as int),
            None => !has_key(entries, k),
        },
{
    if has_key(slots, k) {
        let i = place_of(slots, k);
        assert(first_at(entries, k, i)) by {
            assert(slots[i].0 == entries[i].0);
            assert forall|j: int| 0 <= j < i implies (#[trigger] entries[j]).0 != k by {
                assert(slots[j].0 == entries[j].0);
            }
        }
    } else {
        if has_key(entries, k) {
            let i = place_of(entries, k);
            assert(slots[i].0 == entries[i].0);
            lemma_occurs(slots, k, i);
        }
    }
}

/// Writing the same key to the index and to the entries keeps them in step.
proof fn lemma_indexed_assign<T>(
    slots: Seq<(Seq<char>, usize)>,
    entries: Seq<(Seq<char>, T)>,
    k: Seq<char>,
    v: T,
)
    requires
        indexed(slots, entries),
        entries.len() <= usize::MAX,
    ensures
        match lookup(slots, k) {
            Some(i) => indexed(slots, assign(entries, k, v)),
            None => indexed(assign(slots, k, entries.len() as usize), assign(entries, k, v)),
        },
{
    lemma_indexed(slots, entries, k);
    match lookup(slots, k) {
        Some(i) => {
            lemma_found(entries, k, i as int);
            let e2 = assign(entries, k, v);
            assert forall|j: int| 0 <= j < slots.len() implies (#[trigger] slots[j]).0
                == e2[j].0 && slots[j].1 == j by {
                assert(slots[j].0 == entries[j].0);
            }
        },
        None => {
            let n = entries.len() as usize;
            let s2 = assign(slots, k, n);
            let e2 = assign(entries, k, v);
            assert(s2 == slots.push((k, n)));
            assert(e2 == entries.push((k, v)));
            assert forall|j: int| 0 <= j < s2.len() implies (#[trigger] s2[j]).0 == e2[j].0
                && s2[j].1 == j by {
                if j < slots.len() {
                    assert(slots[j].0 == entries[j].0);
                }
            }
        },
    }
}

/// A key that is not found stands in no entry.
proof fn lemma_occurs_not<T>(s: Seq<(Seq<char>, T)>, k: Seq<char>)
    requires
        !has_key(s, k),
    ensures
        forall|j: int| 0 <= j < s.len() ==> (#[trigger] s[j]).0 != k,
        forall|v: T| #[trigger] assign(s, k, v) == s.push((k, v)),
{
    assert forall|j: int| 0 <= j < s.len() implies (#[trigger] s[j]).0 != k by {
        if s[j].0 == k {
            lemma_occurs(s, k, j);
        }
    }
}

/// Changing a room in its place, under its own key, keeps the rooms well
/// formed.
proof fn lemma_update_keeps_keys(rooms: Seq<(Seq<char>, RoomView)>, i: int, room: RoomView)
    requires
        0 <= i < rooms.len(),
        distinct_keys(rooms),
        forall|j: int| 0 <= j < rooms.len() ==> (#[trigger] rooms[j]).0 == rooms[j].1.key,
        room.key == rooms[i].0,
    ensures
        distinct_keys(rooms.update(i, (rooms[i].0, room))),
        forall|j: int|
            0 <= j < rooms.len() ==> (#[trigger] rooms.update(i, (rooms[i].0, room))[j]).0
                == rooms.update(i, (rooms[i].0, room))[j].1.key,
        keys_of(rooms.update(i, (rooms[i].0, room))) == keys_of(rooms),
{
    let next = rooms.update(i, (rooms[i].0, room));
    assert forall|a: int, b: int|
        0 <= a < next.len() && 0 <= b < next.len() && (#[trigger] next[a]).0 == (#[trigger] next[b]).0
        implies a == b by {
        assert(rooms[a].0 == next[a].0);
        assert(rooms[b].0 == next[b].0);
    }
    assert forall|j: int| 0 <= j < rooms.len() implies (#[trigger] next[j]).0
        == next[j].1.key by {
        assert(rooms[j].0 == rooms[j].1.key);
    }
    assert(keys_of(next) =~= keys_of(rooms));
}

/// Every room and item of the game, each found by its key. Rooms and items
/// lie in lists, in the order in which they were added; beside each list an
/// `IndexMap` leads from a key to its place in the list.
#[derive(Debug)]
pub struct World {
    rooms: Vec<Room>,
    room_slots: IndexMap<String, usize>,
    items: Vec<Item>,
    item_slots: IndexMap<String, usize>,
}

impl View for World {
    type V = WorldView;

    closed spec fn view(&self) -> WorldView {
        WorldView { rooms: room_entries(self.rooms@), items: item_entries(self.items@) }
    }
}

impl World {
    /// Each index agrees with its list.
    pub closed spec fn in_step(&self) -> bool {
        &&& indexed(slots_of(self.room_slots), self@.rooms)
        &&& indexed(slots_of(self.item_slots), self@.items)
    }

    /// The world is in order: its indexes agree with its lists, and as a
    /// value it is well formed.
    pub open spec fn wf(&self) -> bool {
        &&& self.in_step()
        &&& self@.wf()
    }

    /// A world without rooms or items.
    pub fn new() -> (w: World)
        ensures
            w.wf(),
            w@.rooms.len() == 0,
            w@.items.len() == 0,
    {
        World {
            rooms: Vec::new(),
            room_slots: slots_new(),
            items: Vec::new(),
            item_slots: slots_new(),
        }
    }

    /// The number of rooms.
    pub fn room_count(&self) -> (n: usize)
        ensures
            n == self@.rooms.len(),
    {
        self.rooms.len()
    }

    /// The room at place `i`, in the order in which the rooms were added.
    pub fn room_at(&self, i: usize) -> (r: &Room)
        requires
            i < self@.rooms.len(),
        ensures
            self@.rooms[i as int] == (r.key@, r@),
    {
        &self.rooms[i]
    }

    /// The number of items.
    pub fn item_count(&self) -> (n: usize)
        ensures
            n == self@.items.len(),
    {
        self.items.len()
    }

    /// The item at place `i`, in the order in which the items were added.
    pub fn item_at(&self, i: usize) -> (r: &Item)
        requires
            i < self@.items.len(),
        ensures
            self@.items[i as int] == (r.key@, r@),
    {
        &self.items[i]
    }

    /// The place of the room under `key`.
    pub fn room_place(&self, key: &str) -> (r: Option<usize>)
        requires
            self.wf(),
        ensures
            match r {
                Some(i) => first_at(self@.rooms, key@, i as int),
                None => !has_key(self@.rooms, key@),
            },
    {
        proof {
            lemma_indexed(slots_of(self.room_slots), self@.rooms, key@);
        }
        slots_get(&self.room_slots, key)
    }

    /// The place of the item under `key`.
    pub fn item_place(&self, key: &str) -> (r: Option<usize>)
        requires
            self.wf(),
        ensures
            match r {
                Some(i) => first_at(self@.items, key@, i as int),
                None => !has_key(self@.items, key@),
            },
    {
        proof {
            lemma_indexed(slots_of(self.item_slots), self@.items, key@);
        }
        slots_get(&self.item_slots, key)
    }

    /// The room under `key`.
    pub fn room(&self, key: &str) -> (r: Option<&Room>)
        requires
            self.wf(),
        ensures
            match r {
                Some(room) => self@.room(key@) == Some(room@),
                None => self@.room(key@) is None,
            },
    {
        match self.room_place(key) {
            Some(i) => {
                proof {
                    lemma_found(self@.rooms, key@, i as int);
                }
                Some(&self.rooms[i])
            },
            None => None,
        }
    }

    /// The item under `key`.
    pub fn item(&self, key: &str) -> (r: Option<&Item>)
        requires
            self.wf(),
        ensures
            match r {
                Some(item) => self@.item(key@) == Some(item@),
                None => self@.item(key@) is None,
            },
    {
        match self.item_place(key) {
            Some(i) => {
                proof {
                    lemma_found(self@.items, key@, i as int);
                }
                Some(&self.items[i])
            },
            None => None,
        }
    }

    /// Adds `room` under its own key. A room that was there under that key
    /// is replaced and keeps its place; a new one becomes the last.
    pub fn add_room(&mut self, room: Room)
        requires
            old(self).wf(),
        ensures
            final(self).wf(),
            final(self)@.rooms == assign(old(self)@.rooms, room.key@, room@),
            final(self)@.items == old(self)@.items,
    {
        proof {
            lemma_indexed(slots_of(self.room_slots), self@.rooms, room.key@);
            assert(self@.rooms.len() == self.rooms.len());
            lemma_indexed_assign(slots_of(self.room_slots), self@.rooms, room.key@, room@);
            lemma_assign_distinct(self@.rooms, room.key@, room@);
        }
        match slots_get(&self.room_slots, room.key.as_str()) {
            Some(i) => {
                proof {
                    lemma_found(self@.rooms, room.key@, i as int);
                }
                self.rooms[i] = room;
                assert(self@.rooms =~= old(self)@.rooms.update(i as int, (room.key@, room@)));
            },
            None => {
                proof {
                    lemma_occurs_not(self@.rooms, room.key@);
                }
                let n = self.rooms.len();
                slots_insert(&mut self.room_slots, room.key.clone(), n);
                self.rooms.push(room);
                assert(self@.rooms =~= old(self)@.rooms.push((room.key@, room@)));
            },
        }
    }

    /// Adds `item` under its own key. An item that was there under that key
    /// is replaced and keeps its place; a new one becomes the last.
    pub fn add_item(&mut self, item: Item)
        requires
            old(self).wf(),
        ensures
            final(self).wf(),
            final(self)@.items == assign(old(self)@.items, item.key@, item@),
            final(self)@.rooms == old(self)@.rooms,
    {
        proof {
            lemma_indexed(slots_of(self.item_slots), self@.items, item.key@);
            assert(self@.items.len() == self.items.len());
            lemma_indexed_assign(slots_of(self.item_slots), self@.items, item.key@, item@);
            lemma_assign_distinct(self@.items, item.key@, item@);
        }
        match slots_get(&self.item_slots, item.key.as_str()) {
            Some(i) => {
                proof {
                    lemma_found(self@.items, item.key@, i as int);
                }
                self.items[i] = item;
                assert(self@.items =~= old(self)@.items.update(i as int, (item.key@, item@)));
            },
            None => {
                proof {
                    lemma_occurs_not(self@.items, item.key@);
                }
                let n = self.items.len();
                slots_insert(&mut self.item_slots, item.key.clone(), n);
                self.items.push(item);
                assert(self@.items =~= old(self)@.items.push((item.key@, item@)));
            },
        }
    }

    /// Takes the item key at `at` out of the list of the room at `place`.
    pub(crate) fn remove_room_item(&mut self, place: usize, at: usize) -> (key: String)
        requires
            old(self).wf(),
            place < old(self)@.rooms.len(),
            at < old(self)@.rooms[place as int].1.items.len(),
        ensures
            final(self).wf(),
            key@ == old(self)@.rooms[place as int].1.items[at as int],
            final(self)@ == old(self)@.with_room(
                place as int,
                (RoomView {
                    items: old(self)@.rooms[place as int].1.items.remove(at as int),
                    ..old(self)@.rooms[place as int].1
                }),
            ),
    {
        let key = self.rooms[place].items.remove(at);
        proof {
            let room = old(self)@.rooms[place as int].1;
            let next = RoomView { items: room.items.remove(at as int), ..room };
            assert(self.rooms@[place as int]@.items =~= next.items);
            assert(self@.rooms =~= old(self)@.rooms.update(place as int, (room.key, next)));
            lemma_update_keeps_keys(old(self)@.rooms, place as int, next);
        }
        key
    }

    /// Puts the item key `key` at the end of the list of the room at `place`.
    pub(crate) fn push_room_item(&mut self, place: usize, key: String)
        requires
            old(self).wf(),
            place < old(self)@.rooms.len(),
        ensures
            final(self).wf(),
            final(self)@ == old(self)@.with_room(
                place as int,
                (RoomView {
                    items: old(self)@.rooms[place as int].1.items.push(key@),
                    ..old(self)@.rooms[place as int].1
                }),
            ),
    {
        self.rooms[place].items.push(key);
        proof {
            let room = old(self)@.rooms[place as int].1;
            let next = RoomView { items: room.items.push(key@), ..room };
            assert(self.rooms@[place as int]@.items =~= next.items);
            assert(self@.rooms =~= old(self)@.rooms.update(place as int, (room.key, next)));
            lemma_update_keeps_keys(old(self)@.rooms, place as int, next);
        }
    }

    /// Sets the flag `name` of the room at `place` to `value`.
    pub(crate) fn set_room_flag(&mut self, place: usize, name: String, value: bool)
        requires
            old(self).wf(),
            place < old(self)@.rooms.len(),
        ensures
            final(self).wf(),
            final(self)@ == old(self)@.with_room(
                place as int,
                (RoomView {
                    flags: assign(old(self)@.rooms[place as int].1.flags, name@, value),
                    ..old(self)@.rooms[place as int].1
                }),
            ),
    {
        self.rooms[place].flags.insert(name, value);
        proof {
            let room = old(self)@.rooms[place as int].1;
            let next = RoomView { flags: assign(room.flags, name@, value), ..room };
            assert(self@.rooms =~= old(self)@.rooms.update(place as int, (room.key, next)));
            lemma_update_keeps_keys(old(self)@.rooms, place as int, next);
        }
    }

    /// Gives the room at `place` the item list `items` and the flags `flags`.
    pub(crate) fn set_room_state(&mut self, place: usize, items: Vec<String>, flags: Table<bool>)
        requires
            old(self).wf(),
            place < old(self)@.rooms.len(),
        ensures
            final(self).wf(),
            final(self)@ == old(self)@.with_room(
                place as int,
                (RoomView {
                    items: texts(items@),
                    flags: flags@,
                    ..old(self)@.rooms[place as int].1
                }),
            ),
    {
        self.rooms[place].items = items;
        self.rooms[place].flags = flags;
        proof {
            let room = old(self)@.rooms[place as int].1;
            let next = RoomView { items: texts(items@), flags: flags@, ..room };
            assert(self@.rooms =~= old(self)@.rooms.update(place as int, (room.key, next)));
            lemma_update_keeps_keys(old(self)@.rooms, place as int, next);
        }
    }

    /// Whether every exit of every room leads to a room of this world.
    pub fn is_closed(&self) -> (b: bool)
        requires
            self.wf(),
        ensures
            b == self@.exits_closed(),
    {
        let mut i: usize = 0;
        while i < self.rooms.len()
            invariant
                self.wf(),
                i <= self.rooms.len(),
                forall|a: int, c: int|
                    0 <= a < i && 0 <= c < self@.rooms[a].1.exits.len() ==> has_key(
                        self@.rooms,
                        (#[trigger] self@.rooms[a].1.exits[c]).1,
                    ),
            decreases self.rooms.len() - i,
        {
            let exits = &self.rooms[i].exits;
            let mut j: usize = 0;
            while j < exits.len()
                invariant
                    self.wf(),
                    i < self.rooms.len(),
                    exits@ == self@.rooms[i as int].1.exits,
                    j <= exits@.len(),
                    forall|c: int|
                        0 <= c < j ==> has_key(self@.rooms, (#[trigger] exits@[c]).1),
                decreases exits@.len() - j,
            {
                if !self.has_room(exits.value_at(j).as_str()) {
                    assert(!has_key(self@.rooms, self@.rooms[i as int].1.exits[j as int].1));
                    return false;
                }
                j += 1;
            }
            i += 1;
        }
        true
    }

    /// Whether the world has a room under `key`.
    pub fn has_room(&self, key: &str) -> (b: bool)
        requires
            self.wf(),
        ensures
            b == has_key(self@.rooms, key@),
    {
        self.room_place(key).is_some()
    }
}

} // verus!
