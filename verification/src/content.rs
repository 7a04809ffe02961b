//! The world that a new game starts in: a cave of three rooms and the four
//! things that lie in it.

use vstd::prelude::*;
use vstd::string::*;
use crate::engine::Game;
use crate::laws::{copies, count_in_rooms, placed};
use crate::model::{Item, ItemView, PlayerView, Room, RoomView};
use crate::rules::GameView;
use crate::table::{assign, has_key, lemma_absent, lemma_occurs, Table};
use crate::text::texts;
use crate::world::{World, WorldView};

verus! {

/// The torch: it can be carried and gives light.
pub open spec fn torch() -> ItemView {
    ItemView {
        key: "torch"@,
        name: "antorcha"@,
        desc: "Una antorcha de madera. Aporta luz."@,
        portable: true,
        effects: assign(Seq::empty(), "lights"@, "true"@),
    }
}

/// The old key: it can be carried and unlocks the way north out of the narrow
/// passage.
pub open spec fn key_gate() -> ItemView {
    ItemView {
        key: "key_gate"@,
        name: "llave vieja"@,
        desc: "Una llave oxidada con una runa."@,
        portable: true,
        effects: assign(Seq::empty(), "unlocks"@, "narrow_passage:north"@),
    }
}

/// The crumpled note: it can be carried and does nothing.
pub open spec fn note() -> ItemView {
    ItemView {
        key: "note"@,
        name: "nota arrugada"@,
        desc: "Dice: 'La luz revela lo que temes.'"@,
        portable: true,
        effects: Seq::empty(),
    }
}

/// The stone altar: it cannot be carried.
pub open spec fn altar() -> ItemView {
    ItemView {
        key: "altar"@,
        name: "altar de piedra"@,
        desc: "Un altar frío y pesado. No puedes cargarlo."@,
        portable: false,
        effects: Seq::empty(),
    }
}

/// The cave entrance, where the note and the torch lie.
pub open spec fn cave_entrance() -> RoomView {
    RoomView {
        key: "cave_entrance"@,
        name: "Entrada de la Cueva"@,
        desc: "El viento helado sopla tras de ti. Un pasaje oscuro se interna hacia el norte."@,
        exits: assign(Seq::empty(), "north"@, "narrow_passage"@),
        items: seq!["note"@, "torch"@],
        flags: Seq::empty(),
    }
}

/// The narrow passage: dark, its northern exit locked, the old key on the
/// ground.
pub open spec fn narrow_passage() -> RoomView {
    RoomView {
        key: "narrow_passage"@,
        name: "Pasadizo Estrecho"@,
        desc: "Las paredes se cierran a tu alrededor. Al norte ves una reja; al sur, la salida."@,
        exits: assign(
            assign(Seq::empty(), "south"@, "cave_entrance"@),
            "north"@,
            "ancient_chamber"@,
        ),
        items: seq!["key_gate"@],
        flags: assign(assign(Seq::empty(), "dark"@, true), "locked_north"@, true),
    }
}

/// The ancient chamber, with the altar in it.
pub open spec fn ancient_chamber() -> RoomView {
    RoomView {
        key: "ancient_chamber"@,
        name: "Cámara Ancestral"@,
        desc: "Una sala amplia con grabados antiguos. Un altar domina el centro."@,
        exits: assign(Seq::empty(), "south"@, "narrow_passage"@),
        items: seq!["altar"@],
        flags: Seq::empty(),
    }
}

/// The starting world: the three rooms and the four items, each written
/// under its key, in this order.
pub open spec fn starting_world() -> WorldView {
    WorldView {
        rooms: assign(
            assign(
                assign(Seq::empty(), "cave_entrance"@, cave_entrance()),
                "narrow_passage"@,
                narrow_passage(),
            ),
            "ancient_chamber"@,
            ancient_chamber(),
        ),
        items: assign(
            assign(
                assign(assign(Seq::empty(), "torch"@, torch()), "key_gate"@, key_gate()),
                "note"@,
                note(),
            ),
            "altar"@,
            altar(),
        ),
    }
}

/// The rooms of the starting world stand one after the other, and every
/// exit among them leads to one of them.
proof fn lemma_starting_rooms()
    ensures
        starting_world().rooms == seq![
            ("cave_entrance"@, cave_entrance()),
            ("narrow_passage"@, narrow_passage()),
            ("ancient_chamber"@, ancient_chamber()),
        ],
        starting_world().exits_closed(),
{
    reveal_strlit("cave_entrance");
    reveal_strlit("narrow_passage");
    reveal_strlit("ancient_chamber");
    reveal_strlit("north");
    reveal_strlit("south");
    assert("cave_entrance"@.len() == 13);
    assert("narrow_passage"@.len() == 14);
    assert("ancient_chamber"@.len() == 15);
    let none = Seq::<(Seq<char>, RoomView)>::empty();
    let one = assign(none, "cave_entrance"@, cave_entrance());
    let two = assign(one, "narrow_passage"@, narrow_passage());
    let three = assign(two, "ancient_chamber"@, ancient_chamber());
    lemma_absent(none, "cave_entrance"@);
    assert(one =~= seq![("cave_entrance"@, cave_entrance())]);
    lemma_absent(one, "narrow_passage"@);
    assert(two =~= seq![
        ("cave_entrance"@, cave_entrance()),
        ("narrow_passage"@, narrow_passage()),
    ]);
    lemma_absent(two, "ancient_chamber"@);
    assert(three =~= seq![
        ("cave_entrance"@, cave_entrance()),
        ("narrow_passage"@, narrow_passage()),
        ("ancient_chamber"@, ancient_chamber()),
    ]);
    let rooms = starting_world().rooms;
    assert(rooms == three);
    let links = Seq::<(Seq<char>, Seq<char>)>::empty();
    lemma_absent(links, "north"@);
    lemma_absent(links, "south"@);
    assert("south"@[0] != "north"@[0]);
    let south = assign(links, "south"@, "cave_entrance"@);
    assert(south =~= seq![("south"@, "cave_entrance"@)]);
    lemma_absent(south, "north"@);
    assert(cave_entrance().exits =~= seq![("north"@, "narrow_passage"@)]);
    assert(narrow_passage().exits =~= seq![
        ("south"@, "cave_entrance"@),
        ("north"@, "ancient_chamber"@),
    ]);
    assert(ancient_chamber().exits =~= seq![("south"@, "narrow_passage"@)]);
    lemma_occurs(rooms, "cave_entrance"@, 0);
    lemma_occurs(rooms, "narrow_passage"@, 1);
    lemma_occurs(rooms, "ancient_chamber"@, 2);
    assert forall|i: int, j: int|
        0 <= i < rooms.len() && 0 <= j < rooms[i].1.exits.len() implies has_key(
        rooms,
        (#[trigger] rooms[i].1.exits[j]).1,
    ) by {
        if i == 0 {
            assert(rooms[i].1 == cave_entrance());
        } else if i == 1 {
            assert(rooms[i].1 == narrow_passage());
        } else {
            assert(rooms[i].1 == ancient_chamber());
        }
    }
}

/// The game as it starts: the starting world, and the player, named Hero,
/// at the cave entrance with empty hands.
pub open spec fn starting_game() -> GameView {
    GameView {
        world: starting_world(),
        player: PlayerView {
            name: "Hero"@,
            location: "cave_entrance"@,
            inventory: Seq::empty(),
        },
        running: true,
    }
}

proof fn lemma_count_one(a: Seq<char>, k: Seq<char>)
    ensures
        seq![a].to_multiset().count(k) == if k == a {
            1nat
        } else {
            0nat
        },
{
    let none = Seq::<Seq<char>>::empty();
    none.to_multiset_ensures();
    assert(seq![a] =~= none.push(a));
    assert(none.to_multiset().len() == 0);
    assert(none.to_multiset().count(k) == 0);
}

proof fn lemma_count_two(a: Seq<char>, b: Seq<char>, k: Seq<char>)
    ensures
        seq![a, b].to_multiset().count(k) == if k == a {
            1nat
        } else {
            0nat
        } + if k == b {
            1nat
        } else {
            0nat
        },
{
    lemma_count_one(a, k);
    seq![a].to_multiset_ensures();
    assert(seq![a, b] =~= seq![a].push(b));
}

/// As the game starts, every item of the world is in exactly one
/// container, and the game is well formed.
pub proof fn law_start_in_order()
    ensures
        starting_game().wf(),
        placed(starting_game()),
{
    let g = starting_game();
    lemma_starting_rooms();
    let rooms = g.world.rooms;
    lemma_occurs(rooms, "cave_entrance"@, 0);
    reveal_strlit("torch");
    reveal_strlit("key_gate");
    reveal_strlit("note");
    reveal_strlit("altar");
    reveal_strlit("cave_entrance");
    reveal_strlit("narrow_passage");
    reveal_strlit("ancient_chamber");
    assert("cave_entrance"@.len() == 13);
    assert("narrow_passage"@.len() == 14);
    assert("ancient_chamber"@.len() == 15);
    assert("torch"@.len() == 5);
    assert("key_gate"@.len() == 8);
    assert("note"@.len() == 4);
    assert("altar"@.len() == 5);
    assert("altar"@[0] != "torch"@[0]);
    let none = Seq::<(Seq<char>, ItemView)>::empty();
    let one = assign(none, "torch"@, torch());
    let two = assign(one, "key_gate"@, key_gate());
    let three = assign(two, "note"@, note());
    let items = assign(three, "altar"@, altar());
    lemma_absent(none, "torch"@);
    assert(one =~= seq![("torch"@, torch())]);
    lemma_absent(one, "key_gate"@);
    assert(two =~= seq![("torch"@, torch()), ("key_gate"@, key_gate())]);
    lemma_absent(two, "note"@);
    assert(three =~= seq![("torch"@, torch()), ("key_gate"@, key_gate()), ("note"@, note())]);
    lemma_absent(three, "altar"@);
    assert(items =~= seq![
        ("torch"@, torch()),
        ("key_gate"@, key_gate()),
        ("note"@, note()),
        ("altar"@, altar()),
    ]);
    assert(g.world.items == items);
    assert(g.world.wf());
    assert forall|key: Seq<char>|
        #[trigger] copies(g, key) == if has_key(g.world.items, key) {
            1nat
        } else {
            0nat
        } by {
        lemma_count_two("note"@, "torch"@, key);
        lemma_count_one("key_gate"@, key);
        lemma_count_one("altar"@, key);
        Seq::<Seq<char>>::empty().to_multiset_ensures();
        assert(g.player.inventory.to_multiset().len() == 0);
        assert(g.player.inventory.to_multiset().count(key) == 0);
        let r2 = rooms.drop_last();
        let r1 = r2.drop_last();
        let r0 = r1.drop_last();
        assert(r0.len() == 0);
        assert(count_in_rooms(r0, key) == 0);
        assert(count_in_rooms(r1, key) == count_in_rooms(r0, key)
            + r1.last().1.items.to_multiset().count(key));
        assert(count_in_rooms(r2, key) == count_in_rooms(r1, key)
            + r2.last().1.items.to_multiset().count(key));
        assert(count_in_rooms(rooms, key) == count_in_rooms(r2, key)
            + rooms.last().1.items.to_multiset().count(key));
        assert(r1.last().1 == cave_entrance());
        assert(r2.last().1 == narrow_passage());
        assert(rooms.last().1 == ancient_chamber());
        if key == "torch"@ {
            lemma_occurs(items, key, 0);
        } else if key == "key_gate"@ {
            lemma_occurs(items, key, 1);
        } else if key == "note"@ {
            lemma_occurs(items, key, 2);
        } else if key == "altar"@ {
            lemma_occurs(items, key, 3);
        } else {
            lemma_absent(items, key);
        }
    }
}

fn item(key: &str, name: &str, desc: &str, portable: bool, effects: Table<String>) -> (r: Item)
    ensures
        r@ == (ItemView {
            key: key@,
            name: name@,
            desc: desc@,
            portable: portable,
            effects: effects@,
        }),
{
    Item {
        key: String::from_str(key),
        name: String::from_str(name),
        desc: String::from_str(desc),
        portable,
        effects,
    }
}

/// Builds the starting world.
pub fn build_world() -> (w: World)
    ensures
        w.wf(),
        w@ == starting_world(),
        w@.exits_closed(),
        has_key(w@.rooms, "cave_entrance"@),
{
    let mut w = World::new();
    assert(w@.rooms =~= Seq::empty());
    assert(w@.items =~= Seq::empty());

    let mut lights: Table<String> = Table::new();
    lights.insert(String::from_str("lights"), String::from_str("true"));
    w.add_item(item("torch", "antorcha", "Una antorcha de madera. Aporta luz.", true, lights));
    let mut unlocks: Table<String> = Table::new();
    unlocks.insert(String::from_str("unlocks"), String::from_str("narrow_passage:north"));
    w.add_item(item("key_gate", "llave vieja", "Una llave oxidada con una runa.", true, unlocks));
    w.add_item(
        item("note", "nota arrugada", "Dice: 'La luz revela lo que temes.'", true, Table::new()),
    );
    w.add_item(
        item(
            "altar",
            "altar de piedra",
            "Un altar frío y pesado. No puedes cargarlo.",
            false,
            Table::new(),
        ),
    );

    let mut exits: Table<String> = Table::new();
    exits.insert(String::from_str("north"), String::from_str("narrow_passage"));
    let mut items: Vec<String> = Vec::new();
    items.push(String::from_str("note"));
    items.push(String::from_str("torch"));
    assert(texts(items@) =~= seq!["note"@, "torch"@]);
    w.add_room(
        Room {
            key: String::from_str("cave_entrance"),
            name: String::from_str("Entrada de la Cueva"),
            desc: String::from_str(
                "El viento helado sopla tras de ti. Un pasaje oscuro se interna hacia el norte.",
            ),
            exits,
            items,
            flags: Table::new(),
        },
    );

    let mut exits: Table<String> = Table::new();
    exits.insert(String::from_str("south"), String::from_str("cave_entrance"));
    exits.insert(String::from_str("north"), String::from_str("ancient_chamber"));
    let mut items: Vec<String> = Vec::new();
    items.push(String::from_str("key_gate"));
    assert(texts(items@) =~= seq!["key_gate"@]);
    let mut flags: Table<bool> = Table::new();
    flags.insert(String::from_str("dark"), true);
    flags.insert(String::from_str("locked_north"), true);
    w.add_room(
        Room {
            key: String::from_str("narrow_passage"),
            name: String::from_str("Pasadizo Estrecho"),
            desc: String::from_str(
                "Las paredes se cierran a tu alrededor. Al norte ves una reja; al sur, la salida.",
            ),
            exits,
            items,
            flags,
        },
    );

    let mut exits: Table<String> = Table::new();
    exits.insert(String::from_str("south"), String::from_str("narrow_passage"));
    let mut items: Vec<String> = Vec::new();
    items.push(String::from_str("altar"));
    assert(texts(items@) =~= seq!["altar"@]);
    w.add_room(
        Room {
            key: String::from_str("ancient_chamber"),
            name: String::from_str("Cámara Ancestral"),
            desc: String::from_str(
                "Una sala amplia con grabados antiguos. Un altar domina el centro.",
            ),
            exits,
            items,
            flags: Table::new(),
        },
    );
    proof {
        lemma_starting_rooms();
        lemma_occurs(w@.rooms, "cave_entrance"@, 0);
    }
    w
}

/// A new game in the starting world.
pub fn new_game() -> (g: Game)
    ensures
        g.wf(),
        g@ == starting_game(),
{
    let g = Game::new(build_world());
    assert(g@.player.inventory =~= starting_game().player.inventory);
    g
}

} // verus!
