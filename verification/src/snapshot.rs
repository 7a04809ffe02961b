//! Snapshots: what play has changed, taken out of a game and put back into
//! one. Names, descriptions, exits and effects are no part of a snapshot:
//! they stay those of the world that the snapshot is put into.

use vstd::prelude::*;
use crate::engine::Game;
use crate::model::{Player, PlayerView, RoomView};
use crate::reply::{Reply, ReplyView};
use crate::rules::{lemma_same_keys, scene, GameView};
use crate::table::{has_key, lemma_absent, lookup, Table};
use crate::text::{copy_texts, texts};
use crate::world::WorldView;

verus! {

/// What a snapshot keeps of a room, as a value.
pub struct RoomStateView {
    pub items: Seq<Seq<char>>,
    pub flags: Seq<(Seq<char>, bool)>,
}

/// A snapshot as a value.
pub struct SaveDataView {
    pub player: PlayerView,
    pub rooms: Seq<(Seq<char>, RoomStateView)>,
}

/// What a snapshot keeps of a room: the keys of its items and its flags.
#[derive(Debug, Clone)]
pub struct RoomState {
    pub items: Vec<String>,
    pub flags: Table<bool>,
}

/// A snapshot: the player, and for each room key the room's state.
#[derive(Debug, Clone)]
pub struct SaveData {
    pub player: Player,
    pub rooms: Table<RoomState>,
}

impl View for RoomState {
    type V = RoomStateView;

    open spec fn view(&self) -> RoomStateView {
        RoomStateView { items: texts(self.items@), flags: self.flags@ }
    }
}

impl View for SaveData {
    type V = SaveDataView;

    open spec fn view(&self) -> SaveDataView {
        SaveDataView { player: self.player@, rooms: self.rooms@ }
    }
}

/// What came of reading a snapshot from where it is kept, as a value.
pub enum ReadingView {
    Missing,
    Unreadable { detail: Seq<char> },
    Malformed { detail: Seq<char> },
    Parsed { data: SaveDataView },
}

/// What came of reading a snapshot from where it is kept.
#[derive(Debug, Clone)]
pub enum Reading {
    /// Nothing is kept there.
    Missing,
    /// What is kept there could not be read.
    Unreadable { detail: String },
    /// What was read is no well-formed snapshot.
    Malformed { detail: String },
    /// The snapshot that was read. Whether it fits the world is not yet
    /// known.
    Parsed { data: SaveData },
}

impl View for Reading {
    type V = ReadingView;

    open spec fn view(&self) -> ReadingView {
        match self {
            Reading::Missing => ReadingView::Missing,
            Reading::Unreadable { detail } => ReadingView::Unreadable { detail: detail@ },
            Reading::Malformed { detail } => ReadingView::Malformed { detail: detail@ },
            Reading::Parsed { data } => ReadingView::Parsed { data: data@ },
        }
    }
}

/// What a snapshot keeps of `room`.
pub open spec fn state_of(room: RoomView) -> RoomStateView {
    RoomStateView { items: room.items, flags: room.flags }
}

/// The snapshot of a game: the player, and the state of every room under
/// the room's key.
pub open spec fn snapshot(g: GameView) -> SaveDataView {
    SaveDataView {
        player: g.player,
        rooms: g.world.rooms.map_values(|e: (Seq<char>, RoomView)| (e.0, state_of(e.1))),
    }
}

/// `room`, which stands under `key`, after the states `saved` were put
/// back: with the items and flags saved under its key, or as it was where
/// nothing is saved under its key.
pub open spec fn restored_room(
    room: RoomView,
    key: Seq<char>,
    saved: Seq<(Seq<char>, RoomStateView)>,
) -> RoomView {
    match lookup(saved, key) {
        Some(state) => RoomView { items: state.items, flags: state.flags, ..room },
        None => room,
    }
}

/// The rooms after the states `saved` were put back.
pub open spec fn restored_rooms(
    rooms: Seq<(Seq<char>, RoomView)>,
    saved: Seq<(Seq<char>, RoomStateView)>,
) -> Seq<(Seq<char>, RoomView)> {
    rooms.map_values(|e: (Seq<char>, RoomView)| (e.0, restored_room(e.1, e.0, saved)))
}

/// The game after a snapshot was put back: the player is the snapshot's,
/// every room has the state saved under its key, and a state saved under a
/// key that the world does not have is passed over.
pub open spec fn restore(g: GameView, s: SaveDataView) -> GameView {
    GameView {
        world: WorldView { rooms: restored_rooms(g.world.rooms, s.rooms), items: g.world.items },
        player: s.player,
        running: g.running,
    }
}

/// A snapshot fits a game where its player stands in a room of the game's
/// world.
pub open spec fn fits(g: GameView, s: SaveDataView) -> bool {
    has_key(g.world.rooms, s.player.location)
}

/// The game after an attempt to put a snapshot back: with the snapshot put
/// back where it fits, and as it was where it does not.
pub open spec fn restore_step(g: GameView, s: SaveDataView) -> GameView {
    if fits(g, s) {
        restore(g, s)
    } else {
        g
    }
}

/// What is said of a snapshot whose player stands in a room that the world
/// does not have.
pub open spec fn stray_player(location: Seq<char>) -> Seq<char> {
    "La partida guardada nombra una sala que no existe: "@ + location
}

/// `load`: a snapshot that was read and fits the game is put back, and the
/// room is seen again. Without one the game stays as it is: where none is
/// kept, where none could be read or made sense of, and where the one that
/// was read does not fit.
pub open spec fn load_step(g: GameView, path: Seq<char>, reading: ReadingView) -> (
    GameView,
    ReplyView,
) {
    match reading {
        ReadingView::Missing => (g, ReplyView::LoadMissing { path: path }),
        ReadingView::Unreadable { detail } => (g, ReplyView::LoadUnreadable { detail: detail }),
        ReadingView::Malformed { detail } => (g, ReplyView::LoadMalformed { detail: detail }),
        ReadingView::Parsed { data } => {
            if fits(g, data) {
                let next = restore(g, data);
                (next, ReplyView::Loaded { path: path, scene: scene(next) })
            } else {
                (g, ReplyView::LoadMalformed { detail: stray_player(data.player.location) })
            }
        },
    }
}

/// The reply to `save`, once writing the snapshot has ended.
pub open spec fn save_step(path: Seq<char>, written: Result<(), String>) -> ReplyView {
    match written {
        Ok(_) => ReplyView::Saved { path: path },
        Err(detail) => ReplyView::SaveFailed { detail: detail@ },
    }
}

/// Putting a snapshot back keeps a game well formed, where the snapshot's
/// player stands in a room of the world.
pub proof fn lemma_restore_wf(g: GameView, s: SaveDataView)
    requires
        g.wf(),
        has_key(g.world.rooms, s.player.location),
    ensures
        restore(g, s).wf(),
{
    let rooms = g.world.rooms;
    let next = restored_rooms(rooms, s.rooms);
    assert forall|a: int, b: int|
        0 <= a < next.len() && 0 <= b < next.len() && (#[trigger] next[a]).0 == (#[trigger] next[b]).0
        implies a == b by {
        assert(rooms[a].0 == next[a].0);
        assert(rooms[b].0 == next[b].0);
    }
    assert forall|j: int| 0 <= j < next.len() implies (#[trigger] next[j]).0 == next[j].1.key by {
        assert(rooms[j].0 == rooms[j].1.key);
    }
    lemma_same_keys(rooms, next, s.player.location);
    assert forall|a: int, b: int|
        0 <= a < next.len() && 0 <= b < next[a].1.exits.len() implies has_key(
        next,
        (#[trigger] next[a].1.exits[b]).1,
    ) by {
        assert(next[a].1.exits == rooms[a].1.exits);
        assert(has_key(rooms, rooms[a].1.exits[b].1));
        lemma_same_keys(rooms, next, rooms[a].1.exits[b].1);
    }
}

/// The reply to `save`, once writing the snapshot has ended.
pub fn save_reply(path: &str, written: Result<(), String>) -> (r: Reply)
    ensures
        r@ == save_step(path@, written),
{
    match written {
        Ok(_) => Reply::Saved { path: path.to_owned() },
        Err(detail) => Reply::SaveFailed { detail },
    }
}

impl Game {
    /// `save`: the snapshot of the game as it stands.
    pub fn save(&self) -> (s: SaveData)
        requires
            self.wf(),
        ensures
            s@ == snapshot(self@),
            s.rooms.wf(),
    {
        let world = self.world();
        let mut rooms: Table<RoomState> = Table::new();
        let mut i: usize = 0;
        let ghost all = snapshot(self@).rooms;
        while i < world.room_count()
            invariant
                i <= world@.rooms.len(),
                world@ == self@.world,
                world@.wf(),
                all == snapshot(self@).rooms,
                rooms@ == all.take(i as int),
                rooms.wf(),
            decreases world@.rooms.len() - i,
        {
            let room = world.room_at(i);
            let state = RoomState { items: copy_texts(&room.items), flags: room.flags.duplicate() };
            proof {
                assert forall|j: int| 0 <= j < rooms@.len() implies (#[trigger] rooms@[j]).0
                    != room.key@ by {
                    assert(world@.rooms[j].0 == all[j].0);
                    assert(world@.rooms[i as int].0 == room.key@);
                }
                lemma_absent(rooms@, room.key@);
                assert(state@ == state_of(room@));
            }
            rooms.insert(room.key.clone(), state);
            i += 1;
            assert(rooms@ =~= all.take(i as int));
        }
        assert(all.take(i as int) =~= all);
        let p = self.player();
        SaveData {
            player: Player {
                name: p.name.clone(),
                location: p.location.clone(),
                inventory: copy_texts(&p.inventory),
            },
            rooms,
        }
    }

    /// Whether `data` fits this game: its player stands in a room of this
    /// world.
    pub fn accepts(&self, data: &SaveData) -> (b: bool)
        requires
            self.wf(),
        ensures
            b == fits(self@, data@),
    {
        self.world().has_room(data.player.location.as_str())
    }
}

} // verus!
