use mini_mud::content::build_world;
use mini_mud::model::{Item, Room};
use mini_mud::table::Table;
use mini_mud::world::World;

fn room(key: &str, name: &str, exits: &[(&str, &str)]) -> Room {
    let mut table = Table::new();
    for (d, to) in exits {
        table.insert(d.to_string(), to.to_string());
    }
    Room {
        key: key.to_string(),
        name: name.to_string(),
        desc: String::new(),
        exits: table,
        items: Vec::new(),
        flags: Table::new(),
    }
}

fn item(key: &str, name: &str) -> Item {
    Item {
        key: key.to_string(),
        name: name.to_string(),
        desc: String::new(),
        portable: true,
        effects: Table::new(),
    }
}

#[test]
fn new_world_is_empty() {
    let w = World::new();
    assert_eq!(w.room_count(), 0);
    assert_eq!(w.item_count(), 0);
    assert!(w.room("cave_entrance").is_none());
    assert!(w.item("torch").is_none());
    assert!(!w.has_room(""));
    assert!(w.is_closed());
}

#[test]
fn rooms_are_found_by_key_and_kept_in_order() {
    let mut w = World::new();
    w.add_room(room("a", "A", &[]));
    w.add_room(room("b", "B", &[]));
    w.add_room(room("c", "C", &[]));
    assert_eq!(w.room_count(), 3);
    assert_eq!(w.room_place("a"), Some(0));
    assert_eq!(w.room_place("b"), Some(1));
    assert_eq!(w.room_place("c"), Some(2));
    assert_eq!(w.room_place("d"), None);
    assert_eq!(w.room("b").unwrap().name, "B");
    assert_eq!(w.room_at(2).key, "c");
    assert!(w.has_room("c"));
    assert!(!w.has_room("C"));
}

#[test]
fn adding_under_a_known_key_replaces_in_place() {
    let mut w = World::new();
    w.add_room(room("a", "A", &[]));
    w.add_room(room("b", "B", &[]));
    w.add_room(room("a", "A again", &[]));
    assert_eq!(w.room_count(), 2);
    assert_eq!(w.room_place("a"), Some(0));
    assert_eq!(w.room("a").unwrap().name, "A again");
    assert_eq!(w.room_at(1).key, "b");

    w.add_item(item("x", "X"));
    w.add_item(item("y", "Y"));
    w.add_item(item("x", "X again"));
    assert_eq!(w.item_count(), 2);
    assert_eq!(w.item_place("x"), Some(0));
    assert_eq!(w.item_place("y"), Some(1));
    assert_eq!(w.item_place("z"), None);
    assert_eq!(w.item("x").unwrap().name, "X again");
    assert_eq!(w.item_at(1).key, "y");
}

#[test]
fn exits_must_lead_to_rooms_of_the_world() {
    let mut w = World::new();
    w.add_room(room("a", "A", &[("north", "b")]));
    assert!(!w.is_closed());
    w.add_room(room("b", "B", &[("south", "a"), ("up", "attic")]));
    assert!(!w.is_closed());
    w.add_room(room("attic", "Attic", &[]));
    assert!(w.is_closed());
}

#[test]
fn starting_world_holds_three_rooms_and_four_items() {
    let w = build_world();
    assert_eq!(w.room_count(), 3);
    assert_eq!(w.item_count(), 4);
    assert!(w.is_closed());
    assert_eq!(w.room_at(0).key, "cave_entrance");
    assert_eq!(w.room_at(1).key, "narrow_passage");
    assert_eq!(w.room_at(2).key, "ancient_chamber");
    assert_eq!(w.item_at(0).key, "torch");
    assert_eq!(w.item_at(1).key, "key_gate");
    assert_eq!(w.item_at(2).key, "note");
    assert_eq!(w.item_at(3).key, "altar");
    let torch = w.item("torch").unwrap();
    assert!(torch.lights());
    assert!(torch.portable);
    assert_eq!(torch.effects.get("lights"), Some(&"true".to_string()));
    let key = w.item("key_gate").unwrap();
    assert!(!key.lights());
    assert_eq!(key.effects.get("unlocks"), Some(&"narrow_passage:north".to_string()));
    assert!(!w.item("altar").unwrap().portable);
    let passage = w.room("narrow_passage").unwrap();
    assert!(passage.flag("dark"));
    assert!(passage.flag("locked_north"));
    assert!(!passage.flag("locked_south"));
    assert_eq!(passage.exits.get("north"), Some(&"ancient_chamber".to_string()));
    assert_eq!(passage.exits.get("south"), Some(&"cave_entrance".to_string()));
    assert_eq!(passage.exits.keys(), vec!["south".to_string(), "north".to_string()]);
    assert_eq!(passage.items, vec!["key_gate".to_string()]);
}
