//! The engine: a world, a player, and one operation for each command.

use vstd::prelude::*;
use vstd::string::*;
use crate::model::{Player, Room, RoomView};
use crate::reply::{Reply, Scene};
use crate::rules::{
    answers_at, can_unlock, cleared, drop_key, drop_step, find_item, first_answer, first_match,
    go_step,
    go_toward, has_light, inventory_step, lemma_exit_leads, lemma_same_keys, lemma_with_room,
    lights_at, look_step, matches_at, names_of, opens_at, quit_step, scene, take_key, take_step,
    use_key, use_step, word_of, GameView,
};
use crate::snapshot::{
    fits, lemma_restore_wf, load_step, restore_step, restored_rooms, Reading, SaveData,
};
use crate::table::{has_key, lemma_found};
use crate::text::{copy_texts, lowercase_of, position, split_pair, str_eq, texts, to_lower};
use crate::world::{World, WorldView};

verus! {

/// The first match is one place only.
proof fn lemma_first_match_unique(
    w: WorldView,
    keys: Seq<Seq<char>>,
    lowered: Seq<char>,
    i: int,
    j: int,
)
    requires
        first_match(w, keys, lowered, i),
        first_match(w, keys, lowered, j),
    ensures
        i == j,
{
}

/// The first place at which an item answers to a word. The items are given
/// by two lists, one of their keys and one of their names, place for place,
/// and all texts are in lowercase. A place that only one list has is no
/// place of an item.
pub fn first_answering(
    lowered_keys: &Vec<String>,
    lowered_names: &Vec<String>,
    lowered: &str,
) -> (r: Option<usize>)
    ensures
        match r {
            Some(i) => first_answer(
                texts(lowered_keys@),
                texts(lowered_names@),
                lowered@,
                i as int,
            ),
            None => forall|j: int|
                !answers_at(texts(lowered_keys@), texts(lowered_names@), lowered@, j),
        },
{
    let mut i: usize = 0;
    while i < lowered_keys.len() && i < lowered_names.len()
        invariant
            forall|j: int|
                0 <= j < i ==> !answers_at(
                    texts(lowered_keys@),
                    texts(lowered_names@),
                    lowered@,
                    j,
                ),
        decreases lowered_keys.len() - i,
    {
        if str_eq(lowered_keys[i].as_str(), lowered) || str_eq(lowered_names[i].as_str(), lowered) {
            return Some(i);
        }
        i += 1;
    }
    None
}

/// The key of the first item among `keys` that answers to `word`, case set
/// aside. A key that the world does not know answers to nothing.
pub fn find_among(world: &World, keys: &Vec<String>, word: &str) -> (r: Option<String>)
    requires
        world.wf(),
    ensures
        match r {
            Some(k) => find_item(world@, texts(keys@), lowercase_of(word@)) == Some(k@),
            None => find_item(world@, texts(keys@), lowercase_of(word@)) is None,
        },
{
    let lowered = to_lower(word);
    let ghost ks = texts(keys@);
    let mut places: Vec<usize> = Vec::new();
    let mut lowered_keys: Vec<String> = Vec::new();
    let mut lowered_names: Vec<String> = Vec::new();
    let mut i: usize = 0;
    while i < keys.len()
        invariant
            world.wf(),
            i <= keys.len(),
            ks == texts(keys@),
            places@.len() == lowered_keys@.len(),
            places@.len() == lowered_names@.len(),
            forall|j: int|
                0 <= j < places@.len() ==> {
                    &&& (#[trigger] places@[j]) < i
                    &&& world@.item(ks[places@[j] as int]) is Some
                    &&& lowered_keys@[j]@ == lowercase_of(
                        world@.item(ks[places@[j] as int]).unwrap().key,
                    )
                    &&& lowered_names@[j]@ == lowercase_of(
                        world@.item(ks[places@[j] as int]).unwrap().name,
                    )
                },
            forall|a: int, b: int|
                0 <= a < b < places@.len() ==> (#[trigger] places@[a]) < (#[trigger] places@[b]),
            forall|k: int|
                0 <= k < i && world@.item(#[trigger] ks[k]) is Some ==> exists|j: int|
                    0 <= j < places@.len() && #[trigger] places@[j] == k,
        decreases keys.len() - i,
    {
        assert(ks[i as int] == keys@[i as int]@);
        match world.item(keys[i].as_str()) {
            Some(item) => {
                let ghost before = places@;
                places.push(i);
                lowered_keys.push(to_lower(item.key.as_str()));
                lowered_names.push(to_lower(item.name.as_str()));
                assert forall|k: int|
                    0 <= k < i + 1 && world@.item(#[trigger] ks[k]) is Some implies exists|j: int|
                    0 <= j < places@.len() && #[trigger] places@[j] == k by {
                    if k < i {
                        let j = choose|j: int| 0 <= j < before.len() && #[trigger] before[j] == k;
                        assert(places@[j] == k);
                    } else {
                        assert(places@[before.len() as int] == k);
                    }
                }
            },
            None => {},
        }
        i += 1;
    }
    let ghost lk = texts(lowered_keys@);
    let ghost ln = texts(lowered_names@);
    assert forall|j: int| answers_at(lk, ln, lowered@, j) implies matches_at(
        world@,
        ks,
        lowered@,
        places@[j] as int,
    ) by {
        assert(places@[j] < keys.len());
    }
    assert forall|k: int| matches_at(world@, ks, lowered@, k) implies exists|j: int|
        0 <= j < places@.len() && #[trigger] places@[j] == k && answers_at(lk, ln, lowered@, j) by {
        assert(world@.item(ks[k]) is Some);
        let j = choose|j: int| 0 <= j < places@.len() && #[trigger] places@[j] == k;
        assert(answers_at(lk, ln, lowered@, j));
    }
    match first_answering(&lowered_keys, &lowered_names, lowered.as_str()) {
        Some(j) => {
            let at = places[j];
            proof {
                assert(first_match(world@, ks, lowered@, at as int)) by {
                    assert forall|k: int| 0 <= k < at implies !matches_at(
                        world@,
                        ks,
                        lowered@,
                        k,
                    ) by {
                        if matches_at(world@, ks, lowered@, k) {
                            let j2 = choose|j2: int|
                                0 <= j2 < places@.len() && #[trigger] places@[j2] == k
                                    && answers_at(lk, ln, lowered@, j2);
                            if j2 > j {
                                assert(places@[j as int] < places@[j2]);
                            }
                        }
                    }
                }
                let c = choose|c: int| first_match(world@, ks, lowered@, c);
                lemma_first_match_unique(world@, ks, lowered@, at as int, c);
            }
            Some(keys[at].clone())
        },
        None => None,
    }
}

/// The names of the items of the world among `keys`, in the order of the
/// keys.
pub fn names_among(world: &World, keys: &Vec<String>) -> (r: Vec<String>)
    requires
        world.wf(),
    ensures
        texts(r@) == names_of(world@, texts(keys@)),
{
    let mut out: Vec<String> = Vec::new();
    let mut i: usize = 0;
    assert(texts(keys@).take(0) =~= Seq::<Seq<char>>::empty());
    while i < keys.len()
        invariant
            world.wf(),
            i <= keys.len(),
            texts(out@) == names_of(world@, texts(keys@).take(i as int)),
        decreases keys.len() - i,
    {
        proof {
            let next = texts(keys@).take(i + 1);
            assert(next.drop_last() =~= texts(keys@).take(i as int));
            assert(next.last() == keys@[i as int]@);
        }
        let ghost before = texts(out@);
        match world.item(keys[i].as_str()) {
            Some(item) => {
                out.push(item.name.clone());
                assert(texts(out@) =~= before.push(item.name@));
            },
            None => {},
        }
        i += 1;
    }
    assert(texts(keys@).take(keys.len() as int) =~= texts(keys@));
    out
}

/// The game: a world, the player in it, and whether play goes on.
#[derive(Debug)]
pub struct Game {
    world: World,
    player: Player,
    running: bool,
}

impl View for Game {
    type V = GameView;

    closed spec fn view(&self) -> GameView {
        GameView { world: self.world@, player: self.player@, running: self.running }
    }
}

impl Game {
    /// The world's indexes agree with its lists.
    pub closed spec fn in_step(&self) -> bool {
        self.world.in_step()
    }

    /// The game is in order: the world's indexes are, and the game as a
    /// value is well formed.
    pub open spec fn wf(&self) -> bool {
        &&& self.in_step()
        &&& self@.wf()
    }

    /// A new game in `world`: the player, named Hero, stands at the cave
    /// entrance and carries nothing.
    pub fn new(world: World) -> (g: Game)
        requires
            world.wf(),
            world@.exits_closed(),
            has_key(world@.rooms, "cave_entrance"@),
        ensures
            g.wf(),
            g@.world == world@,
            g@.player.name == "Hero"@,
            g@.player.location == "cave_entrance"@,
            g@.player.inventory == Seq::<Seq<char>>::empty(),
            g@.running,
    {
        let g = Game {
            world,
            player: Player {
                name: String::from_str("Hero"),
                location: String::from_str("cave_entrance"),
                inventory: Vec::new(),
            },
            running: true,
        };
        proof {
            assert(g@.player.inventory =~= Seq::<Seq<char>>::empty());
        }
        g
    }

    /// The world.
    pub fn world(&self) -> (w: &World)
        ensures
            w@ == self@.world,
            self.wf() ==> w.wf(),
    {
        &self.world
    }

    /// The player.
    pub fn player(&self) -> (p: &Player)
        ensures
            p@ == self@.player,
    {
        &self.player
    }

    /// Whether play goes on.
    pub fn running(&self) -> (b: bool)
        ensures
            b == self@.running,
    {
        self.running
    }

    /// The place of the room in which the player stands.
    fn here(&self) -> (i: usize)
        requires
            self.wf(),
        ensures
            i == self@.here(),
            0 <= i < self@.world.rooms.len(),
            self@.world.rooms[i as int].0 == self@.player.location,
    {
        let i = self.world.room_place(self.player.location.as_str()).unwrap();
        proof {
            lemma_found(self@.world.rooms, self@.player.location, i as int);
        }
        i
    }

    /// The room in which the player stands.
    pub fn current_room(&self) -> (r: &Room)
        requires
            self.wf(),
        ensures
            r@ == self@.room(),
    {
        let i = self.here();
        self.world.room_at(i)
    }

    /// The key of the first item in the room that answers to `word`.
    pub fn find_item_here(&self, word: &str) -> (r: Option<String>)
        requires
            self.wf(),
        ensures
            match r {
                Some(k) => find_item(self@.world, self@.room().items, lowercase_of(word@))
                    == Some(k@),
                None => find_item(self@.world, self@.room().items, lowercase_of(word@)) is None,
            },
    {
        let room = self.current_room();
        find_among(&self.world, &room.items, word)
    }

    /// The key of the first item in the inventory that answers to `word`.
    pub fn find_item_inventory(&self, word: &str) -> (r: Option<String>)
        requires
            self.wf(),
        ensures
            match r {
                Some(k) => find_item(self@.world, self@.player.inventory, lowercase_of(word@))
                    == Some(k@),
                None => find_item(self@.world, self@.player.inventory, lowercase_of(word@))
                    is None,
            },
    {
        find_among(&self.world, &self.player.inventory, word)
    }

    /// Whether the player carries an item that gives light.
    pub fn has_light(&self) -> (b: bool)
        requires
            self.wf(),
        ensures
            b == has_light(self@),
    {
        let mut i: usize = 0;
        while i < self.player.inventory.len()
            invariant
                self.wf(),
                i <= self.player.inventory.len(),
                forall|j: int| 0 <= j < i ==> !lights_at(self@.world, self@.player.inventory, j),
            decreases self.player.inventory.len() - i,
        {
            assert(self@.player.inventory[i as int] == self.player.inventory@[i as int]@);
            match self.world.item(self.player.inventory[i].as_str()) {
                Some(item) => {
                    if item.lights() {
                        assert(lights_at(self@.world, self@.player.inventory, i as int));
                        return true;
                    }
                },
                None => {},
            }
            i += 1;
        }
        false
    }

    /// What the player sees.
    fn sight(&self) -> (s: Scene)
        requires
            self.wf(),
        ensures
            s@ == scene(self@),
    {
        let room = self.current_room();
        let exits = room.exits.keys();
        if room.flag("dark") && !self.has_light() {
            Scene::Dark { exits }
        } else {
            Scene::Lit {
                name: room.name.clone(),
                desc: room.desc.clone(),
                listed: room.items.len() > 0,
                items: names_among(&self.world, &room.items),
                exits,
            }
        }
    }

    /// `look`: the room as the player sees it.
    pub fn cmd_look(&self) -> (r: Reply)
        requires
            self.wf(),
        ensures
            r@ == look_step(self@),
    {
        Reply::Look { scene: self.sight() }
    }

    /// `inventory`: the names of what the player carries.
    pub fn cmd_inventory(&self) -> (r: Reply)
        requires
            self.wf(),
        ensures
            r@ == inventory_step(self@),
    {
        if self.player.inventory.len() == 0 {
            Reply::EmptyHanded
        } else {
            Reply::Carrying { names: names_among(&self.world, &self.player.inventory) }
        }
    }

    /// Whether the player carries an item whose unlock value is `target`.
    fn holds_key_for(&self, target: &str) -> (b: bool)
        requires
            self.wf(),
        ensures
            b == can_unlock(self@, target@),
    {
        let mut i: usize = 0;
        while i < self.player.inventory.len()
            invariant
                self.wf(),
                i <= self.player.inventory.len(),
                forall|j: int|
                    0 <= j < i ==> !opens_at(self@.world, self@.player.inventory, target@, j),
            decreases self.player.inventory.len() - i,
        {
            assert(self@.player.inventory[i as int] == self.player.inventory@[i as int]@);
            match self.world.item(self.player.inventory[i].as_str()) {
                Some(item) => {
                    match item.effects.get("unlocks") {
                        Some(value) => {
                            if str_eq(value.as_str(), target) {
                                assert(opens_at(
                                    self@.world,
                                    self@.player.inventory,
                                    target@,
                                    i as int,
                                ));
                                return true;
                            }
                        },
                        None => {},
                    }
                },
                None => {},
            }
            i += 1;
        }
        false
    }

    /// Goes through the exit in `direction`, which is written as the exits
    /// write it. A locked exit opens for good where the player holds what
    /// unlocks it, and bars the way where they do not.
    pub fn go_toward(&mut self, direction: &str) -> (r: Reply)
        requires
            old(self).wf(),
        ensures
            final(self).wf(),
            (final(self)@, r@) == go_toward(old(self)@, direction@),
    {
        let here = self.here();
        let room = self.world.room_at(here);
        let dest = match room.exits.get(direction) {
            Some(d) => d.clone(),
            None => {
                return Reply::NoExit;
            },
        };
        let flag = String::from_str("locked_").concat(direction);
        let target = room.key.clone().concat(":").concat(direction);
        let locked = room.flag(flag.as_str());
        proof {
            lemma_exit_leads(self@, direction@);
            lemma_with_room(self@, cleared(self@.room(), flag@));
        }
        if locked {
            if !self.holds_key_for(target.as_str()) {
                return Reply::ExitBlocked;
            }
            self.world.set_room_flag(here, flag, false);
            proof {
                lemma_same_keys(old(self)@.world.rooms, self@.world.rooms, dest@);
            }
        }
        self.player.location = dest;
        Reply::Moved { unlocked: locked, scene: self.sight() }
    }

    /// `go`: the direction is read in lowercase.
    pub fn cmd_go(&mut self, dir: Option<&str>) -> (r: Reply)
        requires
            old(self).wf(),
        ensures
            final(self).wf(),
            (final(self)@, r@) == go_step(old(self)@, word_of(dir)),
    {
        match dir {
            None => Reply::GoUsage,
            Some(d) => {
                let direction = to_lower(d);
                self.go_toward(direction.as_str())
            },
        }
    }

    /// Takes the item under `key` from the room into the inventory, if it
    /// lies there and can be carried.
    pub fn take_item(&mut self, key: &str) -> (r: Reply)
        requires
            old(self).wf(),
        ensures
            final(self).wf(),
            (final(self)@, r@) == take_key(old(self)@, key@),
    {
        let here = self.here();
        let at = match position(&self.world.room_at(here).items, key) {
            Some(i) => i,
            None => {
                return Reply::NotHere;
            },
        };
        let (portable, name) = match self.world.item(key) {
            Some(item) => (item.portable, item.name.clone()),
            None => {
                return Reply::NotHere;
            },
        };
        if !portable {
            return Reply::NotPortable;
        }
        proof {
            let room = self@.room();
            lemma_with_room(self@, RoomView { items: room.items.remove_value(key@), ..room });
        }
        let taken = self.world.remove_room_item(here, at);
        let ghost carried = texts(self.player.inventory@);
        self.player.inventory.push(taken);
        proof {
            assert(texts(self.player.inventory@) =~= carried.push(key@));
        }
        Reply::Taken { name }
    }

    /// `take`: the first item of the room that answers to the word is
    /// taken.
    pub fn cmd_take(&mut self, tok: Option<&str>) -> (r: Reply)
        requires
            old(self).wf(),
        ensures
            final(self).wf(),
            (final(self)@, r@) == take_step(old(self)@, word_of(tok)),
    {
        match tok {
            None => Reply::TakeUsage,
            Some(word) => match self.find_item_here(word) {
                None => Reply::NotHere,
                Some(key) => self.take_item(key.as_str()),
            },
        }
    }

    /// Drops the item under `key` from the inventory into the room, if the
    /// player carries it.
    pub fn drop_item(&mut self, key: &str) -> (r: Reply)
        requires
            old(self).wf(),
        ensures
            final(self).wf(),
            (final(self)@, r@) == drop_key(old(self)@, key@),
    {
        let here = self.here();
        let at = match position(&self.player.inventory, key) {
            Some(i) => i,
            None => {
                return Reply::NotCarried;
            },
        };
        let name = match self.world.item(key) {
            Some(item) => item.name.clone(),
            None => {
                return Reply::NotCarried;
            },
        };
        proof {
            let room = self@.room();
            lemma_with_room(self@, RoomView { items: room.items.push(key@), ..room });
        }
        let ghost carried = texts(self.player.inventory@);
        let dropped = self.player.inventory.remove(at);
        assert(texts(self.player.inventory@) =~= carried.remove(at as int));
        self.world.push_room_item(here, dropped);
        Reply::Dropped { name }
    }

    /// `drop`: the first item of the inventory that answers to the word is
    /// dropped.
    pub fn cmd_drop(&mut self, tok: Option<&str>) -> (r: Reply)
        requires
            old(self).wf(),
        ensures
            final(self).wf(),
            (final(self)@, r@) == drop_step(old(self)@, word_of(tok)),
    {
        match tok {
            None => Reply::DropUsage,
            Some(word) => match self.find_item_inventory(word) {
                None => Reply::NotCarried,
                Some(key) => self.drop_item(key.as_str()),
            },
        }
    }

    /// Uses the item under `key`, if the player carries it.
    pub fn use_item(&mut self, key: &str) -> (r: Reply)
        requires
            old(self).wf(),
        ensures
            final(self).wf(),
            (final(self)@, r@) == use_key(old(self)@, key@),
    {
        let here = self.here();
        if position(&self.player.inventory, key).is_none() {
            return Reply::NotCarried;
        }
        let item = match self.world.item(key) {
            Some(item) => item,
            None => {
                return Reply::NotCarried;
            },
        };
        let name = item.name.clone();
        if item.lights() {
            return Reply::Lit { name, scene: self.sight() };
        }
        let value = match item.effects.get("unlocks") {
            Some(v) => v.clone(),
            None => {
                return Reply::NothingHappens;
            },
        };
        let (target, direction) = match split_pair(value.as_str()) {
            Some(parts) => parts,
            None => {
                return Reply::Misconfigured;
            },
        };
        let room = self.world.room_at(here);
        if !str_eq(target.as_str(), room.key.as_str()) {
            return Reply::WrongPlace;
        }
        let flag = String::from_str("locked_").concat(direction.as_str());
        if !room.flag(flag.as_str()) {
            return Reply::NothingToUnlock;
        }
        proof {
            lemma_with_room(self@, cleared(self@.room(), flag@));
        }
        self.world.set_room_flag(here, flag, false);
        Reply::Unlocked { name, direction }
    }

    /// `use`: the first item of the inventory that answers to the word is
    /// used.
    pub fn cmd_use(&mut self, tok: Option<&str>) -> (r: Reply)
        requires
            old(self).wf(),
        ensures
            final(self).wf(),
            (final(self)@, r@) == use_step(old(self)@, word_of(tok)),
    {
        match tok {
            None => Reply::UseUsage,
            Some(word) => match self.find_item_inventory(word) {
                None => Reply::NotCarried,
                Some(key) => self.use_item(key.as_str()),
            },
        }
    }

    /// `quit`: play ends.
    pub fn terminate(&mut self) -> (r: Reply)
        requires
            old(self).wf(),
        ensures
            final(self).wf(),
            (final(self)@, r@) == quit_step(old(self)@),
    {
        self.running = false;
        Reply::Farewell
    }

    /// Puts a snapshot back, if it fits: the player becomes the snapshot's,
    /// and every room of the world gets the items and flags saved under its
    /// key. A snapshot whose player stands in no room of this world is not
    /// put back, not even in part. The result says whether it was.
    pub fn restore(&mut self, data: &SaveData) -> (done: bool)
        requires
            old(self).wf(),
        ensures
            final(self).wf(),
            done == fits(old(self)@, data@),
            final(self)@ == restore_step(old(self)@, data@),
    {
        if !self.accepts(data) {
            return false;
        }
        let n = self.world.room_count();
        let ghost before = self@.world.rooms;
        let ghost goal = restored_rooms(before, data@.rooms);
        let mut i: usize = 0;
        while i < n
            invariant
                self.world.wf(),
                i <= n,
                n == before.len(),
                before == old(self)@.world.rooms,
                goal == restored_rooms(before, data@.rooms),
                self.world@.items == old(self)@.world.items,
                self.world@.rooms.len() == n,
                forall|j: int| 0 <= j < i ==> self.world@.rooms[j] == goal[j],
                forall|j: int| i <= j < n ==> self.world@.rooms[j] == before[j],
                self.running == old(self).running,
            decreases n - i,
        {
            let key = self.world.room_at(i).key.clone();
            match data.rooms.get(key.as_str()) {
                Some(state) => {
                    let items = copy_texts(&state.items);
                    let flags = state.flags.duplicate();
                    self.world.set_room_state(i, items, flags);
                },
                None => {},
            }
            i += 1;
        }
        self.player = Player {
            name: data.player.name.clone(),
            location: data.player.location.clone(),
            inventory: copy_texts(&data.player.inventory),
        };
        proof {
            assert(self@.world.rooms =~= goal);
            lemma_restore_wf(old(self)@, data@);
        }
        true
    }

    /// `load`: puts back the snapshot that was read from `path` and shows
    /// the room again. Where none was read, or the one that was read does
    /// not fit this world, the game stays as it is.
    pub fn load(&mut self, path: &str, reading: Reading) -> (r: Reply)
        requires
            old(self).wf(),
        ensures
            final(self).wf(),
            (final(self)@, r@) == load_step(old(self)@, path@, reading@),
            !(r is Loaded) ==> final(self)@ == old(self)@,
    {
        match reading {
            Reading::Missing => Reply::LoadMissing { path: path.to_owned() },
            Reading::Unreadable { detail } => Reply::LoadUnreadable { detail },
            Reading::Malformed { detail } => Reply::LoadMalformed { detail },
            Reading::Parsed { data } => {
                if self.restore(&data) {
                    Reply::Loaded { path: path.to_owned(), scene: self.sight() }
                } else {
                    Reply::LoadMalformed {
                        detail: String::from_str(
                            "La partida guardada nombra una sala que no existe: ",
                        ).concat(data.player.location.as_str()),
                    }
                }
            },
        }
    }
}

} // verus!
