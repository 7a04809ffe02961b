//! What holds of play as a whole: laws that relate several commands, proved
//! of the rules that the engine's operations are bound to.

use vstd::prelude::*;
use crate::command::{step, Command};
use crate::model::RoomView;
use crate::reply::{ErrorKind, ReplyView};
use crate::rules::{
    can_unlock, cleared, drop_key, drop_step, find_item, go_toward, has_light, lemma_exit_leads,
    lemma_same_keys, lemma_with_room, locked_flag, scene, take_key, take_step, unlock_target,
    use_key, GameView,
};
use crate::snapshot::{
    fits, lemma_restore_wf, load_step, restore, restored_rooms, snapshot, ReadingView,
};
use crate::table::{first_at, has_key, keys_of, lemma_assign_lookup, lemma_found, lookup};
use crate::text::{lowercase_of, two_parts};

verus! {

/// How often `key` stands in the item lists of `rooms`, all lists together.
pub open spec fn count_in_rooms(rooms: Seq<(Seq<char>, RoomView)>, key: Seq<char>) -> nat
    decreases rooms.len(),
{
    if rooms.len() == 0 {
        0
    } else {
        count_in_rooms(rooms.drop_last(), key) + rooms.last().1.items.to_multiset().count(key)
    }
}

/// How often `key` stands in the game: in all rooms and in the inventory.
pub open spec fn copies(g: GameView, key: Seq<char>) -> nat {
    count_in_rooms(g.world.rooms, key) + g.player.inventory.to_multiset().count(key)
}

/// Every item of the world is in exactly one container, and what the world
/// does not know is in none.
pub open spec fn placed(g: GameView) -> bool {
    forall|key: Seq<char>|
        #[trigger] copies(g, key) == if has_key(g.world.items, key) {
            1nat
        } else {
            0nat
        }
}

/// One take or drop, with the word that came with it.
pub enum Handling {
    Take { word: Option<Seq<char>> },
    Drop { word: Option<Seq<char>> },
}

/// The game after the takes and drops of `moves`, one after the other.
pub open spec fn handled(g: GameView, moves: Seq<Handling>) -> GameView
    decreases moves.len(),
{
    if moves.len() == 0 {
        g
    } else {
        let before = handled(g, moves.drop_last());
        match moves.last() {
            Handling::Take { word } => take_step(before, word).0,
            Handling::Drop { word } => drop_step(before, word).0,
        }
    }
}

proof fn lemma_count_update(
    rooms: Seq<(Seq<char>, RoomView)>,
    i: int,
    entry: (Seq<char>, RoomView),
    key: Seq<char>,
)
    requires
        0 <= i < rooms.len(),
    ensures
        count_in_rooms(rooms.update(i, entry), key) + rooms[i].1.items.to_multiset().count(key)
            == count_in_rooms(rooms, key) + entry.1.items.to_multiset().count(key),
    decreases rooms.len(),
{
    let next = rooms.update(i, entry);
    if i == rooms.len() - 1 {
        assert(next.drop_last() =~= rooms.drop_last());
    } else {
        assert(next.drop_last() =~= rooms.drop_last().update(i, entry));
        lemma_count_update(rooms.drop_last(), i, entry, key);
    }
}

/// Taking an item by its key keeps the game well formed and moves no key
/// into or out of the game.
pub proof fn lemma_take_key(g: GameView, key: Seq<char>, k: Seq<char>)
    requires
        g.wf(),
    ensures
        take_key(g, key).0.wf(),
        copies(take_key(g, key).0, k) == copies(g, k),
{
    let room = g.room();
    if take_key(g, key).1 is Taken {
        let next = RoomView { items: room.items.remove_value(key), ..room };
        lemma_with_room(g, next);
        room.items.index_of_first_ensures(key);
        room.items.to_multiset_ensures();
        g.player.inventory.to_multiset_ensures();
        lemma_count_update(g.world.rooms, g.here(), (g.world.rooms[g.here()].0, next), k);
    }
}

/// Dropping an item by its key keeps the game well formed and moves no key
/// into or out of the game.
pub proof fn lemma_drop_key(g: GameView, key: Seq<char>, k: Seq<char>)
    requires
        g.wf(),
    ensures
        drop_key(g, key).0.wf(),
        copies(drop_key(g, key).0, k) == copies(g, k),
{
    let room = g.room();
    let inv = g.player.inventory;
    if drop_key(g, key).1 is Dropped {
        let next = RoomView { items: room.items.push(key), ..room };
        lemma_with_room(g, next);
        inv.index_of_first_ensures(key);
        room.items.to_multiset_ensures();
        inv.to_multiset_ensures();
        lemma_count_update(g.world.rooms, g.here(), (g.world.rooms[g.here()].0, next), k);
    }
}

/// Through any run of takes and drops every key stands in the game as
/// often as before: an item that was in exactly one container, a room or
/// the inventory, is in exactly one afterwards.
pub proof fn law_one_container(g: GameView, moves: Seq<Handling>, key: Seq<char>)
    requires
        g.wf(),
    ensures
        handled(g, moves).wf(),
        handled(g, moves).world.items == g.world.items,
        copies(handled(g, moves), key) == copies(g, key),
    decreases moves.len(),
{
    if moves.len() > 0 {
        law_one_container(g, moves.drop_last(), key);
        let before = handled(g, moves.drop_last());
        match moves.last() {
            Handling::Take { word } => {
                if word is Some {
                    let found = find_item(before.world, before.room().items, lowercase_of(word.unwrap()));
                    if found is Some {
                        lemma_take_key(before, found.unwrap(), key);
                    }
                }
            },
            Handling::Drop { word } => {
                if word is Some {
                    let found = find_item(
                        before.world,
                        before.player.inventory,
                        lowercase_of(word.unwrap()),
                    );
                    if found is Some {
                        lemma_drop_key(before, found.unwrap(), key);
                    }
                }
            },
        }
    }
}

/// A game in which every item is in exactly one container stays so through
/// any run of takes and drops.
pub proof fn law_placed(g: GameView, moves: Seq<Handling>)
    requires
        g.wf(),
        placed(g),
    ensures
        placed(handled(g, moves)),
{
    let after = handled(g, moves);
    assert forall|key: Seq<char>|
        #[trigger] copies(after, key) == if has_key(after.world.items, key) {
            1nat
        } else {
            0nat
        } by {
        law_one_container(g, moves, key);
        assert(copies(g, key) == if has_key(g.world.items, key) {
            1nat
        } else {
            0nat
        });
    }
}

/// Taking an item and dropping it at once, in the same room, puts it back
/// into that room: the room holds the same keys as often as before, the
/// dropped key now last; the inventory holds what it held, and is the same
/// list where the key was not in it before; nothing else has changed.
pub proof fn law_take_then_drop(g: GameView, key: Seq<char>)
    requires
        g.wf(),
        take_key(g, key).1 is Taken,
    ensures
        ({
            let back = drop_key(take_key(g, key).0, key);
            &&& back.1 == ReplyView::Dropped { name: g.world.item(key).unwrap().name }
            &&& back.0.player.location == g.player.location
            &&& back.0.player.name == g.player.name
            &&& back.0.running == g.running
            &&& back.0.room().items == g.room().items.remove_value(key).push(key)
            &&& back.0.room().items.to_multiset() == g.room().items.to_multiset()
            &&& back.0.player.inventory.to_multiset() == g.player.inventory.to_multiset()
            &&& !g.player.inventory.contains(key) ==> back.0.player.inventory
                == g.player.inventory
            &&& back.0.world == g.world.with_room(
                g.here(),
                (RoomView { items: g.room().items.remove_value(key).push(key), ..g.room() }),
            )
        }),
{
    let room = g.room();
    let inv = g.player.inventory;
    let r1 = RoomView { items: room.items.remove_value(key), ..room };
    let taken = take_key(g, key).0;
    lemma_with_room(g, r1);
    assert(taken.here() == g.here());
    assert(taken.room() == r1);
    let carried = inv.push(key);
    assert(carried[carried.len() - 1] == key);
    assert(carried.contains(key));
    let r2 = RoomView { items: r1.items.push(key), ..r1 };
    lemma_with_room(taken, r2);
    let back = drop_key(taken, key);
    assert(back.0.room() == r2);
    assert(back.0.world.rooms =~= g.world.rooms.update(g.here(), (g.world.rooms[g.here()].0, r2)));
    room.items.index_of_first_ensures(key);
    room.items.to_multiset_ensures();
    r1.items.to_multiset_ensures();
    assert(r2.items.to_multiset() =~= room.items.to_multiset());
    carried.index_of_first_ensures(key);
    carried.to_multiset_ensures();
    inv.to_multiset_ensures();
    let at = carried.index_of_first(key).unwrap();
    assert(carried.remove(at).to_multiset() =~= inv.to_multiset());
    if !inv.contains(key) {
        if at < inv.len() {
            assert(inv[at] == key);
        }
        assert(carried.remove(at) =~= inv);
    }
}

/// Trying to take an item that cannot be carried changes nothing: not the
/// room, not the inventory, nor anything else of the game.
pub proof fn law_take_refused(g: GameView, key: Seq<char>)
    requires
        g.world.item(key) is Some,
        !g.world.item(key).unwrap().portable,
    ensures
        take_key(g, key).0 == g,
        take_key(g, key).1 is NotHere || take_key(g, key).1 is NotPortable,
        g.room().items.contains(key) ==> take_key(g, key).1 is NotPortable,
{
}

/// `take` changes the game only where it answers that the item was taken.
pub proof fn law_take_changes_only_on_success(g: GameView, word: Option<Seq<char>>)
    ensures
        !(take_step(g, word).1 is Taken) ==> take_step(g, word).0 == g,
        take_step(g, word).1 is Taken ==> ({
            let key = find_item(g.world, g.room().items, lowercase_of(word.unwrap())).unwrap();
            g.world.item(key) is Some && g.world.item(key).unwrap().portable
        }),
{
}

/// In a dark room the inventory alone decides what is seen: with a light
/// the room in full, without one only its exits. In a room that is not
/// dark the room is seen in full either way.
pub proof fn law_light_decides(g: GameView)
    ensures
        g.room().dark() && !has_light(g) ==> scene(g) is Dark,
        g.room().dark() && has_light(g) ==> scene(g) is Lit,
        !g.room().dark() ==> scene(g) is Lit,
{
}

/// Two games that differ in the inventory alone, in the same dark room:
/// the one with a light sees the room, the other only the exits.
pub proof fn law_light_is_not_remembered(g: GameView, with: Seq<Seq<char>>, without: Seq<Seq<char>>)
    requires
        g.room().dark(),
        has_light(g.carrying(with)),
        !has_light(g.carrying(without)),
    ensures
        scene(g.carrying(with)) is Lit,
        scene(g.carrying(without)) is Dark,
{
    assert(g.carrying(with).room() == g.room());
    assert(g.carrying(without).room() == g.room());
}

/// Going where the exit is locked, without what unlocks it, is refused and
/// leaves the game as it is.
pub proof fn law_locked_exit_refuses(g: GameView, direction: Seq<char>)
    requires
        lookup(g.room().exits, direction) is Some,
        g.room().flag(locked_flag(direction)),
        !can_unlock(g, unlock_target(g.room().key, direction)),
    ensures
        go_toward(g, direction) == (g, ReplyView::ExitBlocked),
{
}

/// Going where the exit is not locked takes the player through, whatever
/// they carry.
pub proof fn law_open_exit_lets_through(g: GameView, direction: Seq<char>)
    requires
        g.wf(),
        lookup(g.room().exits, direction) is Some,
        !g.room().flag(locked_flag(direction)),
    ensures
        ({
            let (after, reply) = go_toward(g, direction);
            &&& reply matches ReplyView::Moved { unlocked, .. } && !unlocked
            &&& after == g.moved_to(lookup(g.room().exits, direction).unwrap())
            &&& after.wf()
        }),
{
    lemma_exit_leads(g, direction);
}

/// Going where the exit is locked, with what unlocks it, opens the exit for
/// good: the player goes through, and the room that was left has the lock
/// cleared.
pub proof fn law_go_unlocks(g: GameView, direction: Seq<char>)
    requires
        g.wf(),
        lookup(g.room().exits, direction) is Some,
        g.room().flag(locked_flag(direction)),
        can_unlock(g, unlock_target(g.room().key, direction)),
    ensures
        ({
            let (after, reply) = go_toward(g, direction);
            &&& reply matches ReplyView::Moved { unlocked, .. } && unlocked
            &&& after.wf()
            &&& after.player.location == lookup(g.room().exits, direction).unwrap()
            &&& !after.world.rooms[g.here()].1.flag(locked_flag(direction))
            &&& after.world.rooms[g.here()].0 == g.player.location
        }),
{
    let room = g.room();
    let flag = locked_flag(direction);
    let dest = lookup(room.exits, direction).unwrap();
    lemma_with_room(g, cleared(room, flag));
    lemma_assign_lookup(room.flags, flag, false, flag);
    lemma_exit_leads(g, direction);
    lemma_same_keys(g.world.rooms, g.with_room(cleared(room, flag)).world.rooms, dest);
}

/// Using what unlocks a locked exit of this room clears the lock, and
/// using it once more finds nothing to unlock and changes nothing.
pub proof fn law_use_unlocks_once(g: GameView, key: Seq<char>)
    requires
        g.wf(),
        use_key(g, key).1 is Unlocked,
    ensures
        ({
            let (after, reply) = use_key(g, key);
            let direction = reply->Unlocked_direction;
            &&& g.room().flag(locked_flag(direction))
            &&& after.wf()
            &&& after.player == g.player
            &&& !after.room().flag(locked_flag(direction))
            &&& use_key(after, key) == (after, ReplyView::NothingToUnlock)
            &&& ReplyView::NothingToUnlock.error() is None
        }),
{
    let room = g.room();
    let item = g.world.item(key).unwrap();
    let parts = two_parts(item.unlocks().unwrap()).unwrap();
    let flag = locked_flag(parts.1);
    lemma_with_room(g, cleared(room, flag));
    lemma_assign_lookup(room.flags, flag, false, flag);
}

/// What `save` takes out of a game, `load` puts back unchanged: the same
/// player, and in every room the same items and flags. The snapshot of a
/// game whose player stands in a room of its world fits that game, so that
/// loading it is not refused.
pub proof fn law_save_then_load(g: GameView, path: Seq<char>)
    requires
        g.world.wf(),
    ensures
        restore(g, snapshot(g)) == g,
        has_key(g.world.rooms, g.player.location) ==> load_step(
            g,
            path,
            (ReadingView::Parsed { data: snapshot(g) }),
        ) == (g, (ReplyView::Loaded { path: path, scene: scene(g) })),
{
    let rooms = g.world.rooms;
    let saved = snapshot(g).rooms;
    let back = restored_rooms(rooms, saved);
    assert forall|i: int| 0 <= i < rooms.len() implies back[i] == rooms[i] by {
        assert(first_at(saved, rooms[i].0, i)) by {
            assert forall|j: int| 0 <= j < i implies (#[trigger] saved[j]).0 != rooms[i].0 by {
                assert(rooms[j].0 == saved[j].0);
            }
        }
        lemma_found(saved, rooms[i].0, i);
    }
    assert(back =~= rooms);
}

/// `load` without a snapshot that fits, because none is kept, or none
/// could be read or made sense of, or the one that was read has its player
/// in a room that the world does not have, leaves the game as it is and
/// says which it was.
pub proof fn law_failed_load_changes_nothing(g: GameView, path: Seq<char>, reading: ReadingView)
    requires
        match reading {
            ReadingView::Parsed { data } => !fits(g, data),
            _ => true,
        },
    ensures
        load_step(g, path, reading).0 == g,
        reading is Missing ==> load_step(g, path, reading).1 == (ReplyView::LoadMissing {
            path: path,
        }),
        reading is Missing ==> load_step(g, path, reading).1.error() == Some(ErrorKind::NotFound),
        reading is Unreadable ==> load_step(g, path, reading).1.error() == Some(ErrorKind::Io),
        reading is Malformed || reading is Parsed ==> load_step(g, path, reading).1.error()
            == Some(ErrorKind::Parse),
{
}

/// `load` changes the game only where it answers that the snapshot was
/// loaded, and whatever was read, the game stays well formed: the player
/// stands in a room of the world afterwards as before.
pub proof fn law_load_keeps_order(g: GameView, path: Seq<char>, reading: ReadingView)
    requires
        g.wf(),
    ensures
        load_step(g, path, reading).0.wf(),
        has_key(load_step(g, path, reading).0.world.rooms, load_step(g, path, reading).0.player.location),
        !(load_step(g, path, reading).1 is Loaded) ==> load_step(g, path, reading).0 == g,
        load_step(g, path, reading).1 is Loaded ==> load_step(g, path, reading).1.error() is None,
{
    if let ReadingView::Parsed { data } = reading {
        if fits(g, data) {
            lemma_restore_wf(g, data);
        }
    }
}

/// No command sets a flag: a flag that is not set in some room, such as a
/// lock that was cleared, is not set after any command, whatever the verb
/// and the word. Only a snapshot that is put back can set it again.
pub proof fn law_cleared_stays_cleared(
    g: GameView,
    command: Command,
    word: Option<Seq<char>>,
    i: int,
    flag: Seq<char>,
)
    requires
        g.wf(),
        0 <= i < g.world.rooms.len(),
        !g.world.rooms[i].1.flag(flag),
    ensures
        step(g, command, word).0.world.rooms.len() == g.world.rooms.len(),
        !step(g, command, word).0.world.rooms[i].1.flag(flag),
{
    let room = g.room();
    match command {
        Command::Go => {
            if word is Some {
                let direction = lowercase_of(word.unwrap());
                lemma_assign_lookup(room.flags, locked_flag(direction), false, flag);
            }
        },
        Command::Use => {
            if word is Some {
                let found = find_item(g.world, g.player.inventory, lowercase_of(word.unwrap()));
                if found is Some && use_key(g, found.unwrap()).1 is Unlocked {
                    let item = g.world.item(found.unwrap()).unwrap();
                    let parts = two_parts(item.unlocks().unwrap()).unwrap();
                    lemma_assign_lookup(room.flags, locked_flag(parts.1), false, flag);
                }
            }
        },
        _ => {},
    }
}

/// Every command keeps the game well formed: the player stands in a room
/// of the world, every exit leads to one, and every room and item stays
/// under its own key.
pub proof fn law_step_keeps_order(g: GameView, command: Command, word: Option<Seq<char>>)
    requires
        g.wf(),
    ensures
        step(g, command, word).0.wf(),
        step(g, command, word).0.world.items == g.world.items,
        keys_of(step(g, command, word).0.world.rooms) == keys_of(g.world.rooms),
{
    let room = g.room();
    let after = step(g, command, word).0;
    match command {
        Command::Go => {
            if word is Some {
                let direction = lowercase_of(word.unwrap());
                if lookup(room.exits, direction) is Some {
                    let dest = lookup(room.exits, direction).unwrap();
                    let opened = g.with_room(cleared(room, locked_flag(direction)));
                    lemma_with_room(g, cleared(room, locked_flag(direction)));
                    lemma_exit_leads(g, direction);
                    lemma_same_keys(g.world.rooms, opened.world.rooms, dest);
                }
            }
        },
        Command::Take => {
            if word is Some {
                let found = find_item(g.world, room.items, lowercase_of(word.unwrap()));
                if found is Some {
                    lemma_take_key(g, found.unwrap(), found.unwrap());
                    lemma_with_room(
                        g,
                        (RoomView { items: room.items.remove_value(found.unwrap()), ..room }),
                    );
                }
            }
        },
        Command::Drop => {
            if word is Some {
                let found = find_item(g.world, g.player.inventory, lowercase_of(word.unwrap()));
                if found is Some {
                    lemma_drop_key(g, found.unwrap(), found.unwrap());
                    lemma_with_room(g, (RoomView { items: room.items.push(found.unwrap()), ..room }));
                }
            }
        },
        Command::Use => {
            if word is Some {
                let found = find_item(g.world, g.player.inventory, lowercase_of(word.unwrap()));
                if found is Some && use_key(g, found.unwrap()).1 is Unlocked {
                    let item = g.world.item(found.unwrap()).unwrap();
                    let parts = two_parts(item.unlocks().unwrap()).unwrap();
                    lemma_with_room(g, cleared(room, locked_flag(parts.1)));
                }
            }
        },
        _ => {},
    }
    assert(keys_of(after.world.rooms) =~= keys_of(g.world.rooms));
}

} // verus!
