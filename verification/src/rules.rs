//! The rules of play, as functions on values: what each command makes of a
//! game, and what it answers.

use vstd::prelude::*;
use crate::model::{ItemView, PlayerView, RoomView};
use crate::reply::{ReplyView, SceneView};
use crate::table::{
    assign, first_at, has_key, keys_of, lemma_found, lemma_occurs, lookup, place_of,
};
use crate::text::{lowercase_of, two_parts};
use crate::world::WorldView;

verus! {

/// A game as a value.
pub struct GameView {
    pub world: WorldView,
    pub player: PlayerView,
    pub running: bool,
}

impl GameView {
    /// The world is well formed, its exits lead to rooms of its own, and the
    /// player stands in one of its rooms.
    pub open spec fn wf(self) -> bool {
        &&& self.world.wf()
        &&& self.world.exits_closed()
        &&& has_key(self.world.rooms, self.player.location)
    }

    /// The place of the room in which the player stands.
    pub open spec fn here(self) -> int {
        place_of(self.world.rooms, self.player.location)
    }

    /// The room in which the player stands.
    pub open spec fn room(self) -> RoomView {
        self.world.rooms[self.here()].1
    }

    /// The game with `room` in the place of the room in which the player
    /// stands.
    pub open spec fn with_room(self, room: RoomView) -> GameView {
        GameView { world: self.world.with_room(self.here(), room), ..self }
    }

    /// The game with the player in the room under `key`.
    pub open spec fn moved_to(self, key: Seq<char>) -> GameView {
        GameView { player: PlayerView { location: key, ..self.player }, ..self }
    }

    /// The game with `inventory` as what the player carries.
    pub open spec fn carrying(self, inventory: Seq<Seq<char>>) -> GameView {
        GameView { player: PlayerView { inventory: inventory, ..self.player }, ..self }
    }
}

/// The word of a command, if it came with one.
pub open spec fn word_of(word: Option<&str>) -> Option<Seq<char>> {
    match word {
        Some(w) => Some(w@),
        None => None,
    }
}

/// The item answers to a word, given in lowercase: its key or its name is
/// that word when case is set aside.
pub open spec fn answers_to(item: ItemView, lowered: Seq<char>) -> bool {
    lowercase_of(item.key) == lowered || lowercase_of(item.name) == lowered
}

/// The item at `i` of two lists, one of the items' keys and one of their
/// names, all in lowercase, answers to a word in lowercase.
pub open spec fn answers_at(
    lowered_keys: Seq<Seq<char>>,
    lowered_names: Seq<Seq<char>>,
    lowered: Seq<char>,
    i: int,
) -> bool {
    &&& 0 <= i < lowered_keys.len()
    &&& i < lowered_names.len()
    &&& (lowered_keys[i] == lowered || lowered_names[i] == lowered)
}

/// `i` is the first place of the two lists whose item answers to the word.
pub open spec fn first_answer(
    lowered_keys: Seq<Seq<char>>,
    lowered_names: Seq<Seq<char>>,
    lowered: Seq<char>,
    i: int,
) -> bool {
    &&& answers_at(lowered_keys, lowered_names, lowered, i)
    &&& forall|j: int| 0 <= j < i ==> !answers_at(lowered_keys, lowered_names, lowered, j)
}

/// The key at `i` of `keys` is that of an item of the world that answers to
/// the word.
pub open spec fn matches_at(w: WorldView, keys: Seq<Seq<char>>, lowered: Seq<char>, i: int) -> bool {
    &&& 0 <= i < keys.len()
    &&& w.item(keys[i]) is Some
    &&& answers_to(w.item(keys[i]).unwrap(), lowered)
}

/// `i` is the first place of `keys` whose item answers to the word.
pub open spec fn first_match(w: WorldView, keys: Seq<Seq<char>>, lowered: Seq<char>, i: int) -> bool {
    &&& matches_at(w, keys, lowered, i)
    &&& forall|j: int| 0 <= j < i ==> !matches_at(w, keys, lowered, j)
}

/// The first key of `keys` whose item answers to the word.
pub open spec fn find_item(w: WorldView, keys: Seq<Seq<char>>, lowered: Seq<char>) -> Option<
    Seq<char>,
> {
    if exists|i: int| first_match(w, keys, lowered, i) {
        Some(keys[choose|i: int| first_match(w, keys, lowered, i)])
    } else {
        None
    }
}

/// The key at `i` of `keys` is that of an item that gives light.
pub open spec fn lights_at(w: WorldView, keys: Seq<Seq<char>>, i: int) -> bool {
    &&& 0 <= i < keys.len()
    &&& w.item(keys[i]) is Some
    &&& w.item(keys[i]).unwrap().lights()
}

/// The player carries an item that gives light. Nothing remembers this from
/// one command to the next: it is a matter of the inventory alone.
pub open spec fn has_light(g: GameView) -> bool {
    exists|i: int| lights_at(g.world, g.player.inventory, i)
}

/// The key at `i` of `keys` is that of an item whose unlock value is
/// `target`.
pub open spec fn opens_at(w: WorldView, keys: Seq<Seq<char>>, target: Seq<char>, i: int) -> bool {
    &&& 0 <= i < keys.len()
    &&& w.item(keys[i]) is Some
    &&& w.item(keys[i]).unwrap().unlocks() == Some(target)
}

/// The player carries an item whose unlock value is `target`.
pub open spec fn can_unlock(g: GameView, target: Seq<char>) -> bool {
    exists|i: int| opens_at(g.world, g.player.inventory, target, i)
}

/// The name of the flag that bars the exit in `direction`.
pub open spec fn locked_flag(direction: Seq<char>) -> Seq<char> {
    "locked_"@ + direction
}

/// The unlock value that names the exit in `direction` of the room under
/// `room`.
pub open spec fn unlock_target(room: Seq<char>, direction: Seq<char>) -> Seq<char> {
    room + ":"@ + direction
}

/// The names of the items of the world among `keys`, in the order of the
/// keys. A key that the world does not know is passed over.
pub open spec fn names_of(w: WorldView, keys: Seq<Seq<char>>) -> Seq<Seq<char>>
    decreases keys.len(),
{
    if keys.len() == 0 {
        Seq::empty()
    } else {
        let rest = names_of(w, keys.drop_last());
        match w.item(keys.last()) {
            Some(item) => rest.push(item.name),
            None => rest,
        }
    }
}

/// The room with its flag `name` cleared.
pub open spec fn cleared(room: RoomView, name: Seq<char>) -> RoomView {
    RoomView { flags: assign(room.flags, name, false), ..room }
}

/// What the player sees: in a dark room without a light only the exits,
/// else the room in full.
pub open spec fn scene(g: GameView) -> SceneView {
    let room = g.room();
    if room.dark() && !has_light(g) {
        SceneView::Dark { exits: keys_of(room.exits) }
    } else {
        SceneView::Lit {
            name: room.name,
            desc: room.desc,
            listed: room.items.len() > 0,
            items: names_of(g.world, room.items),
            exits: keys_of(room.exits),
        }
    }
}

/// `look`: the sight of the room. The game stays as it is.
pub open spec fn look_step(g: GameView) -> ReplyView {
    ReplyView::Look { scene: scene(g) }
}

/// `inventory`: the names of what the player carries.
pub open spec fn inventory_step(g: GameView) -> ReplyView {
    if g.player.inventory.len() == 0 {
        ReplyView::EmptyHanded
    } else {
        ReplyView::Carrying { names: names_of(g.world, g.player.inventory) }
    }
}

/// Going in a direction that is written as the exits write it.
pub open spec fn go_toward(g: GameView, direction: Seq<char>) -> (GameView, ReplyView) {
    let room = g.room();
    match lookup(room.exits, direction) {
        None => (g, ReplyView::NoExit),
        Some(dest) => {
            if !room.flag(locked_flag(direction)) {
                let moved = g.moved_to(dest);
                (moved, ReplyView::Moved { unlocked: false, scene: scene(moved) })
            } else if can_unlock(g, unlock_target(room.key, direction)) {
                let moved = g.with_room(cleared(room, locked_flag(direction))).moved_to(dest);
                (moved, ReplyView::Moved { unlocked: true, scene: scene(moved) })
            } else {
                (g, ReplyView::ExitBlocked)
            }
        },
    }
}

/// `go`: the direction is read in lowercase.
pub open spec fn go_step(g: GameView, word: Option<Seq<char>>) -> (GameView, ReplyView) {
    match word {
        None => (g, ReplyView::GoUsage),
        Some(w) => go_toward(g, lowercase_of(w)),
    }
}

/// Taking the item under `key` from the room.
pub open spec fn take_key(g: GameView, key: Seq<char>) -> (GameView, ReplyView) {
    let room = g.room();
    if !room.items.contains(key) || g.world.item(key) is None {
        (g, ReplyView::NotHere)
    } else if !g.world.item(key).unwrap().portable {
        (g, ReplyView::NotPortable)
    } else {
        (
            g.with_room(RoomView { items: room.items.remove_value(key), ..room }).carrying(
                g.player.inventory.push(key),
            ),
            ReplyView::Taken { name: g.world.item(key).unwrap().name },
        )
    }
}

/// `take`: the first item of the room that answers to the word is taken.
pub open spec fn take_step(g: GameView, word: Option<Seq<char>>) -> (GameView, ReplyView) {
    match word {
        None => (g, ReplyView::TakeUsage),
        Some(w) => match find_item(g.world, g.room().items, lowercase_of(w)) {
            None => (g, ReplyView::NotHere),
            Some(key) => take_key(g, key),
        },
    }
}

/// Dropping the item under `key` into the room.
pub open spec fn drop_key(g: GameView, key: Seq<char>) -> (GameView, ReplyView) {
    let room = g.room();
    if !g.player.inventory.contains(key) || g.world.item(key) is None {
        (g, ReplyView::NotCarried)
    } else {
        (
            g.with_room(RoomView { items: room.items.push(key), ..room }).carrying(
                g.player.inventory.remove_value(key),
            ),
            ReplyView::Dropped { name: g.world.item(key).unwrap().name },
        )
    }
}

/// `drop`: the first item of the inventory that answers to the word is
/// dropped.
pub open spec fn drop_step(g: GameView, word: Option<Seq<char>>) -> (GameView, ReplyView) {
    match word {
        None => (g, ReplyView::DropUsage),
        Some(w) => match find_item(g.world, g.player.inventory, lowercase_of(w)) {
            None => (g, ReplyView::NotCarried),
            Some(key) => drop_key(g, key),
        },
    }
}

/// Using the item under `key`. A light comes first; then an unlock value,
/// which must name this room and a locked exit of it; no other effect does
/// anything.
pub open spec fn use_key(g: GameView, key: Seq<char>) -> (GameView, ReplyView) {
    let room = g.room();
    if !g.player.inventory.contains(key) || g.world.item(key) is None {
        (g, ReplyView::NotCarried)
    } else {
        let item = g.world.item(key).unwrap();
        if item.lights() {
            (g, ReplyView::Lit { name: item.name, scene: scene(g) })
        } else {
            match item.unlocks() {
                None => (g, ReplyView::NothingHappens),
                Some(value) => match two_parts(value) {
                    None => (g, ReplyView::Misconfigured),
                    Some((target, direction)) => {
                        if target != room.key {
                            (g, ReplyView::WrongPlace)
                        } else if room.flag(locked_flag(direction)) {
                            (
                                g.with_room(cleared(room, locked_flag(direction))),
                                ReplyView::Unlocked { name: item.name, direction: direction },
                            )
                        } else {
                            (g, ReplyView::NothingToUnlock)
                        }
                    },
                },
            }
        }
    }
}

/// `use`: the first item of the inventory that answers to the word is used.
pub open spec fn use_step(g: GameView, word: Option<Seq<char>>) -> (GameView, ReplyView) {
    match word {
        None => (g, ReplyView::UseUsage),
        Some(w) => match find_item(g.world, g.player.inventory, lowercase_of(w)) {
            None => (g, ReplyView::NotCarried),
            Some(key) => use_key(g, key),
        },
    }
}

/// `quit`: the game stops running.
pub open spec fn quit_step(g: GameView) -> (GameView, ReplyView) {
    (GameView { running: false, ..g }, ReplyView::Farewell)
}

/// Two lists with the same keys in the same places find the same keys in
/// the same places.
pub proof fn lemma_same_keys<T>(a: Seq<(Seq<char>, T)>, b: Seq<(Seq<char>, T)>, k: Seq<char>)
    requires
        a.len() == b.len(),
        forall|i: int| 0 <= i < a.len() ==> (#[trigger] a[i]).0 == b[i].0,
    ensures
        has_key(a, k) == has_key(b, k),
        has_key(a, k) ==> place_of(a, k) == place_of(b, k),
{
    if has_key(a, k) {
        let i = place_of(a, k);
        assert(first_at(b, k, i)) by {
            assert(a[i].0 == b[i].0);
            assert forall|j: int| 0 <= j < i implies (#[trigger] b[j]).0 != k by {
                assert(a[j].0 == b[j].0);
            }
        }
        lemma_found(b, k, i);
    } else if has_key(b, k) {
        let i = place_of(b, k);
        assert(a[i].0 == b[i].0);
        lemma_occurs(a, k, i);
    }
}

/// Changing the room in which the player stands, without touching its key
/// or its exits, keeps the game well formed and the player where they are.
pub proof fn lemma_with_room(g: GameView, room: RoomView)
    requires
        g.wf(),
        room.key == g.room().key,
        room.exits == g.room().exits,
    ensures
        g.with_room(room).wf(),
        g.with_room(room).here() == g.here(),
        g.with_room(room).room() == room,
        0 <= g.here() < g.world.rooms.len(),
        g.room().key == g.player.location,
{
    let rooms = g.world.rooms;
    let i = g.here();
    let next = g.with_room(room).world.rooms;
    assert(rooms[i].0 == rooms[i].1.key);
    assert forall|a: int, b: int|
        0 <= a < next.len() && 0 <= b < next.len() && (#[trigger] next[a]).0 == (#[trigger] next[b]).0
        implies a == b by {
        assert(rooms[a].0 == next[a].0);
        assert(rooms[b].0 == next[b].0);
    }
    assert forall|j: int| 0 <= j < next.len() implies (#[trigger] next[j]).0 == next[j].1.key by {
        assert(rooms[j].0 == rooms[j].1.key);
    }
    lemma_same_keys(rooms, next, g.player.location);
    assert forall|a: int, b: int|
        0 <= a < next.len() && 0 <= b < next[a].1.exits.len() implies has_key(
        next,
        (#[trigger] next[a].1.exits[b]).1,
    ) by {
        assert(next[a].1.exits == rooms[a].1.exits);
        assert(has_key(rooms, rooms[a].1.exits[b].1));
        lemma_same_keys(rooms, next, rooms[a].1.exits[b].1);
    }
}

/// An exit of the room in which the player stands leads to a room of the
/// world.
pub proof fn lemma_exit_leads(g: GameView, direction: Seq<char>)
    requires
        g.wf(),
        lookup(g.room().exits, direction) is Some,
    ensures
        has_key(g.world.rooms, lookup(g.room().exits, direction).unwrap()),
{
    let exits = g.room().exits;
    let p = place_of(exits, direction);
    assert(has_key(g.world.rooms, g.world.rooms[g.here()].1.exits[p].1));
}

} // verus!
