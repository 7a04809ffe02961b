use mini_mud::command::{first_two, parse_lowered, parse_verb, tokenize, Action, Command};
use mini_mud::content::build_world;
use mini_mud::engine::{find_among, first_answering, names_among, Game};
use mini_mud::model::{Item, Room};
use mini_mud::reply::{ErrorKind, Reply, Scene};
use mini_mud::table::Table;
use mini_mud::world::World;

fn strings(words: &[&str]) -> Vec<String> {
    words.iter().map(|w| w.to_string()).collect()
}

fn effects(pairs: &[(&str, &str)]) -> Table<String> {
    let mut t = Table::new();
    for (k, v) in pairs {
        t.insert(k.to_string(), v.to_string());
    }
    t
}

fn thing(key: &str, name: &str, portable: bool, pairs: &[(&str, &str)]) -> Item {
    Item {
        key: key.to_string(),
        name: name.to_string(),
        desc: String::new(),
        portable,
        effects: effects(pairs),
    }
}

fn cell(items: &[&str], locked: &[&str]) -> Room {
    let mut flags = Table::new();
    for d in locked {
        flags.insert(format!("locked_{d}"), true);
    }
    let mut exits = Table::new();
    exits.insert("east".to_string(), "cave_entrance".to_string());
    Room {
        key: "cave_entrance".to_string(),
        name: "Celda".to_string(),
        desc: "Una celda.".to_string(),
        exits,
        items: strings(items),
        flags,
    }
}

fn game_with(items: Vec<Item>, room: Room) -> Game {
    let mut world = World::new();
    for it in items {
        world.add_item(it);
    }
    world.add_room(room);
    assert!(world.is_closed());
    assert!(world.has_room("cave_entrance"));
    Game::new(world)
}

#[test]
fn take_without_a_word_is_a_usage_error() {
    let mut game = Game::new(build_world());
    let reply = game.cmd_take(None);
    assert_eq!(reply, Reply::TakeUsage);
    assert_eq!(reply.text(), "Uso: take <objeto>");
    assert_eq!(reply.error(), Some(ErrorKind::Usage));
}

#[test]
fn take_what_is_not_here() {
    let mut game = Game::new(build_world());
    let reply = game.cmd_take(Some("key_gate"));
    assert_eq!(reply, Reply::NotHere);
    assert_eq!(reply.text(), "No ves eso aquí.");
    assert_eq!(reply.error(), Some(ErrorKind::NotFound));
    assert!(game.player().inventory.is_empty());
}

#[test]
fn take_what_cannot_be_carried_changes_nothing() {
    let mut game = game_with(vec![thing("altar", "altar de piedra", false, &[])], cell(&["altar"], &[]));
    let reply = game.cmd_take(Some("altar"));
    assert_eq!(reply, Reply::NotPortable);
    assert_eq!(reply.text(), "No puedes cargar eso.");
    assert_eq!(reply.error(), Some(ErrorKind::Permission));
    assert_eq!(game.current_room().items, strings(&["altar"]));
    assert!(game.player().inventory.is_empty());
}

#[test]
fn take_sets_case_aside_for_key_and_name() {
    let mut game = Game::new(build_world());
    assert_eq!(game.find_item_here("TORCH"), Some("torch".to_string()));
    assert_eq!(game.find_item_here("Antorcha"), Some("torch".to_string()));
    assert_eq!(game.find_item_here("antorch"), None);
    assert_eq!(game.cmd_take(Some("ANTORCHA")), Reply::Taken { name: "antorcha".to_string() });
    assert_eq!(game.find_item_inventory("Torch"), Some("torch".to_string()));
    assert_eq!(game.find_item_here("torch"), None);
}

#[test]
fn lowercase_is_unicode_lowercase() {
    let mut game = game_with(
        vec![thing("Ñandú", "ÁRBOL Viejo", true, &[])],
        cell(&["Ñandú"], &[]),
    );
    assert_eq!(game.find_item_here("ñandú"), Some("Ñandú".to_string()));
    assert_eq!(game.find_item_here("árbol viejo"), Some("Ñandú".to_string()));
    assert_eq!(game.cmd_take(Some("ÑANDÚ")), Reply::Taken { name: "ÁRBOL Viejo".to_string() });
}

#[test]
fn the_first_match_in_room_order_is_taken() {
    let mut game = game_with(
        vec![thing("a", "piedra", true, &[]), thing("b", "Piedra", true, &[])],
        cell(&["b", "a"], &[]),
    );
    assert_eq!(game.find_item_here("piedra"), Some("b".to_string()));
    game.cmd_take(Some("piedra"));
    assert_eq!(game.current_room().items, strings(&["a"]));
    assert_eq!(game.player().inventory, strings(&["b"]));
}

#[test]
fn keys_that_the_world_does_not_know_are_passed_over() {
    let mut game = game_with(vec![thing("a", "piedra", true, &[])], cell(&["ghost", "a"], &[]));
    assert_eq!(game.find_item_here("ghost"), None);
    assert_eq!(game.cmd_take(Some("ghost")), Reply::NotHere);
    assert_eq!(game.take_item("ghost"), Reply::NotHere);
    assert_eq!(
        game.cmd_look(),
        Reply::Look {
            scene: Scene::Lit {
                name: "Celda".to_string(),
                desc: "Una celda.".to_string(),
                listed: true,
                items: strings(&["piedra"]),
                exits: strings(&["east"]),
            }
        }
    );
}

#[test]
fn take_item_by_key_only_from_the_room() {
    let mut game = Game::new(build_world());
    assert_eq!(game.take_item("altar"), Reply::NotHere);
    assert_eq!(game.take_item("torch"), Reply::Taken { name: "antorcha".to_string() });
    assert_eq!(game.take_item("torch"), Reply::NotHere);
    assert_eq!(game.player().inventory, strings(&["torch"]));
}

#[test]
fn take_removes_the_first_occurrence_only() {
    let mut game = game_with(vec![thing("a", "piedra", true, &[])], cell(&["a", "x", "a"], &[]));
    game.take_item("a");
    assert_eq!(game.current_room().items, strings(&["x", "a"]));
    assert_eq!(game.player().inventory, strings(&["a"]));
}

#[test]
fn drop_without_a_word_and_drop_what_is_not_carried() {
    let mut game = Game::new(build_world());
    let reply = game.cmd_drop(None);
    assert_eq!(reply, Reply::DropUsage);
    assert_eq!(reply.text(), "Uso: drop <objeto>");
    assert_eq!(reply.error(), Some(ErrorKind::Usage));
    let reply = game.cmd_drop(Some("torch"));
    assert_eq!(reply, Reply::NotCarried);
    assert_eq!(reply.text(), "No llevas eso.");
    assert_eq!(reply.error(), Some(ErrorKind::NotFound));
    assert_eq!(game.drop_item("torch"), Reply::NotCarried);
}

#[test]
fn take_then_drop_puts_the_item_back_at_the_end() {
    let mut game = Game::new(build_world());
    assert_eq!(game.current_room().items, strings(&["note", "torch"]));
    game.cmd_take(Some("note"));
    assert_eq!(game.current_room().items, strings(&["torch"]));
    let reply = game.cmd_drop(Some("note"));
    assert_eq!(reply, Reply::Dropped { name: "nota arrugada".to_string() });
    assert_eq!(reply.text(), "Dejaste nota arrugada.");
    assert_eq!(game.current_room().items, strings(&["torch", "note"]));
    assert!(game.player().inventory.is_empty());
}

#[test]
fn what_cannot_be_taken_can_still_be_dropped() {
    let mut world = World::new();
    world.add_item(thing("altar", "altar de piedra", false, &[]));
    world.add_room(cell(&[], &[]));
    let mut game = Game::new(world);
    let mut data = game.save();
    data.player.inventory.push("altar".to_string());
    assert!(game.restore(&data));
    assert_eq!(game.cmd_drop(Some("altar")), Reply::Dropped { name: "altar de piedra".to_string() });
    assert_eq!(game.current_room().items, strings(&["altar"]));
}

#[test]
fn inventory_lists_names_in_order() {
    let mut game = Game::new(build_world());
    let reply = game.cmd_inventory();
    assert_eq!(reply, Reply::EmptyHanded);
    assert_eq!(reply.text(), "No llevas nada.");
    game.cmd_take(Some("torch"));
    game.cmd_take(Some("note"));
    let reply = game.cmd_inventory();
    assert_eq!(reply, Reply::Carrying { names: strings(&["antorcha", "nota arrugada"]) });
    assert_eq!(reply.text(), "Llevas: antorcha, nota arrugada");
}

#[test]
fn go_without_a_direction_and_where_no_exit_is() {
    let mut game = Game::new(build_world());
    let reply = game.cmd_go(None);
    assert_eq!(reply, Reply::GoUsage);
    assert_eq!(reply.text(), "Uso: go <north|south|east|west|up|down>");
    assert_eq!(reply.error(), Some(ErrorKind::Usage));
    let reply = game.cmd_go(Some("west"));
    assert_eq!(reply, Reply::NoExit);
    assert_eq!(reply.text(), "No hay salida en esa dirección.");
    assert_eq!(reply.error(), Some(ErrorKind::NotFound));
    assert_eq!(game.player().location, "cave_entrance");
}

#[test]
fn go_reads_the_direction_in_lowercase() {
    let mut game = Game::new(build_world());
    assert!(matches!(game.cmd_go(Some("NORTH")), Reply::Moved { .. }));
    assert_eq!(game.player().location, "narrow_passage");
    assert_eq!(game.go_toward("SOUTH"), Reply::NoExit);
    assert!(matches!(game.go_toward("south"), Reply::Moved { .. }));
    assert_eq!(game.player().location, "cave_entrance");
}

#[test]
fn locked_exit_without_the_key_is_refused() {
    let mut game = Game::new(build_world());
    game.cmd_take(Some("torch"));
    game.cmd_go(Some("north"));
    let reply = game.cmd_go(Some("north"));
    assert_eq!(reply, Reply::ExitBlocked);
    assert_eq!(reply.error(), Some(ErrorKind::Permission));
    assert_eq!(game.player().location, "narrow_passage");
    assert!(game.current_room().flag("locked_north"));
}

#[test]
fn a_key_for_another_exit_does_not_open_this_one() {
    let mut game = game_with(
        vec![thing("k", "llave", true, &[("unlocks", "cave_entrance:west")])],
        cell(&["k"], &["east"]),
    );
    game.cmd_take(Some("k"));
    assert_eq!(game.cmd_go(Some("east")), Reply::ExitBlocked);
    assert_eq!(game.cmd_use(Some("k")), Reply::NothingToUnlock);
}

#[test]
fn use_without_a_word_and_use_what_is_not_carried() {
    let mut game = Game::new(build_world());
    let reply = game.cmd_use(None);
    assert_eq!(reply, Reply::UseUsage);
    assert_eq!(reply.text(), "Uso: use <objeto>");
    assert_eq!(reply.error(), Some(ErrorKind::Usage));
    let reply = game.cmd_use(Some("torch"));
    assert_eq!(reply, Reply::NotCarried);
    assert_eq!(reply.error(), Some(ErrorKind::NotFound));
    assert_eq!(game.use_item("torch"), Reply::NotCarried);
}

#[test]
fn use_a_light_shows_the_room() {
    let mut game = Game::new(build_world());
    game.cmd_take(Some("torch"));
    let reply = game.cmd_use(Some("torch"));
    assert!(matches!(&reply, Reply::Lit { name, scene: Scene::Lit { .. } } if name == "antorcha"));
    assert_eq!(
        reply.text(),
        "Alzas antorcha. La luz revela tu entorno.\n\nEntrada de la Cueva\n-------------------\nEl viento helado sopla tras de ti. Un pasaje oscuro se interna hacia el norte.\n\nVes aquí: nota arrugada\nSalidas: north"
    );
}

#[test]
fn light_comes_before_unlock() {
    let mut game = game_with(
        vec![thing("k", "llave", true, &[("unlocks", "cave_entrance:east"), ("lights", "")])],
        cell(&["k"], &["east"]),
    );
    game.cmd_take(Some("k"));
    assert!(matches!(game.cmd_use(Some("k")), Reply::Lit { .. }));
    assert!(game.current_room().flag("locked_east"));
}

#[test]
fn use_an_item_without_effects() {
    let mut game = Game::new(build_world());
    game.cmd_take(Some("note"));
    let reply = game.cmd_use(Some("note"));
    assert_eq!(reply, Reply::NothingHappens);
    assert_eq!(reply.text(), "No pasa nada.");
}

#[test]
fn unknown_effects_do_nothing() {
    let mut game = game_with(
        vec![thing("k", "llave", true, &[("sings", "loud")])],
        cell(&["k"], &["east"]),
    );
    game.cmd_take(Some("k"));
    assert_eq!(game.cmd_use(Some("k")), Reply::NothingHappens);
}

#[test]
fn unlock_value_must_have_two_parts() {
    for bad in ["", "cave_entrance", "cave_entrance:east:again", "::"] {
        let mut game = game_with(
            vec![thing("k", "llave", true, &[("unlocks", bad)])],
            cell(&["k"], &["east"]),
        );
        game.cmd_take(Some("k"));
        let reply = game.cmd_use(Some("k"));
        assert_eq!(reply, Reply::Misconfigured);
        assert_eq!(reply.text(), "La llave no está bien configurada.");
        assert_eq!(reply.error(), Some(ErrorKind::Configuration));
        assert!(game.current_room().flag("locked_east"));
    }
}

#[test]
fn unlock_value_with_empty_parts_is_read_as_it_stands() {
    let mut game = game_with(
        vec![thing("k", "llave", true, &[("unlocks", ":east")])],
        cell(&["k"], &["east"]),
    );
    game.cmd_take(Some("k"));
    assert_eq!(game.cmd_use(Some("k")), Reply::WrongPlace);
}

#[test]
fn verbs_and_their_synonyms() {
    assert_eq!(parse_verb("look"), Command::Look);
    assert_eq!(parse_verb("L"), Command::Look);
    assert_eq!(parse_verb("g"), Command::Go);
    assert_eq!(parse_verb("Go"), Command::Go);
    assert_eq!(parse_verb("take"), Command::Take);
    assert_eq!(parse_verb("GET"), Command::Take);
    assert_eq!(parse_verb("drop"), Command::Drop);
    assert_eq!(parse_verb("use"), Command::Use);
    assert_eq!(parse_verb("inv"), Command::Inventory);
    assert_eq!(parse_verb("Inventory"), Command::Inventory);
    assert_eq!(parse_verb("save"), Command::Save);
    assert_eq!(parse_verb("load"), Command::Load);
    assert_eq!(parse_verb("help"), Command::Help);
    assert_eq!(parse_verb("quit"), Command::Quit);
    assert_eq!(parse_verb("EXIT"), Command::Quit);
    assert_eq!(parse_verb("dance"), Command::Unknown);
    assert_eq!(parse_verb(""), Command::Unknown);
    assert_eq!(parse_lowered("LOOK"), Command::Unknown);
    assert_eq!(parse_lowered("look"), Command::Look);
}

#[test]
fn unknown_verb_changes_nothing() {
    let mut game = Game::new(build_world());
    match game.dispatch("dance", Some("torch")) {
        Action::Say { reply } => {
            assert_eq!(reply, Reply::Unknown);
            assert_eq!(reply.text(), "No entiendo ese comando. Escribe 'help'.");
            assert_eq!(reply.error(), None);
        }
        other => panic!("unexpected action {other:?}"),
    }
    assert!(game.running());
    assert_eq!(game.player().location, "cave_entrance");
    assert!(game.player().inventory.is_empty());
}

#[test]
fn dispatch_carries_out_the_command() {
    let mut game = Game::new(build_world());
    assert!(matches!(
        game.dispatch("GET", Some("Torch")),
        Action::Say { reply: Reply::Taken { .. } }
    ));
    assert!(matches!(
        game.dispatch("inv", None),
        Action::Say { reply: Reply::Carrying { .. } }
    ));
    assert!(matches!(game.dispatch("g", Some("north")), Action::Say { reply: Reply::Moved { .. } }));
    assert!(matches!(game.dispatch("l", None), Action::Say { reply: Reply::Look { .. } }));
    assert!(matches!(
        game.dispatch("drop", Some("torch")),
        Action::Say { reply: Reply::Dropped { .. } }
    ));
    assert!(matches!(
        game.dispatch("use", Some("torch")),
        Action::Say { reply: Reply::NotCarried }
    ));
    assert!(matches!(game.dispatch("help", None), Action::Help));
    assert!(matches!(game.dispatch("load", None), Action::Read));
    match game.dispatch("save", None) {
        Action::Write { data } => {
            assert_eq!(data.player.location, "narrow_passage");
            assert_eq!(data.rooms.len(), 3);
        }
        other => panic!("unexpected action {other:?}"),
    }
}

#[test]
fn quit_stops_the_game() {
    let mut game = Game::new(build_world());
    match game.dispatch("quit", None) {
        Action::Say { reply } => {
            assert_eq!(reply, Reply::Farewell);
            assert_eq!(reply.text(), "¡Hasta la próxima!");
        }
        other => panic!("unexpected action {other:?}"),
    }
    assert!(!game.running());
    let mut game = Game::new(build_world());
    assert_eq!(game.terminate(), Reply::Farewell);
    assert!(!game.running());
    assert!(matches!(game.perform(Command::Quit, None), Action::Say { reply: Reply::Farewell }));
}

#[test]
fn first_answer_among_lowered_keys_and_names() {
    let keys = strings(&["note", "torch", "lamp"]);
    let names = strings(&["nota arrugada", "antorcha", "torch"]);
    assert_eq!(first_answering(&keys, &names, "torch"), Some(1));
    assert_eq!(first_answering(&keys, &names, "antorcha"), Some(1));
    assert_eq!(first_answering(&keys, &names, "nota arrugada"), Some(0));
    assert_eq!(first_answering(&keys, &names, "lamp"), Some(2));
    assert_eq!(first_answering(&keys, &names, "Torch"), None);
    assert_eq!(first_answering(&keys, &names, ""), None);
    assert_eq!(first_answering(&Vec::new(), &Vec::new(), "torch"), None);
    assert_eq!(first_answering(&keys, &strings(&["x"]), "torch"), None);
    assert_eq!(first_answering(&keys, &strings(&["x"]), "note"), Some(0));
}

#[test]
fn finding_and_naming_among_keys() {
    let world = build_world();
    let keys = strings(&["ghost", "altar", "torch"]);
    assert_eq!(find_among(&world, &keys, "ALTAR DE PIEDRA"), Some("altar".to_string()));
    assert_eq!(find_among(&world, &keys, "note"), None);
    assert_eq!(names_among(&world, &keys), strings(&["altar de piedra", "antorcha"]));
    assert_eq!(names_among(&world, &Vec::new()), Vec::<String>::new());
}

#[test]
fn verb_and_argument_of_a_line() {
    assert_eq!(tokenize("take torch"), Some(("take".to_string(), Some("torch".to_string()))));
    assert_eq!(
        tokenize("  TAKE \t Torch   now\n"),
        Some(("TAKE".to_string(), Some("Torch".to_string())))
    );
    assert_eq!(tokenize("look\n"), Some(("look".to_string(), None)));
    assert_eq!(tokenize("go\u{3000}north"), Some(("go".to_string(), Some("north".to_string()))));
    assert_eq!(tokenize(""), None);
    assert_eq!(tokenize(" \t\r\n"), None);
    assert_eq!(first_two(&Vec::new()), None);
    assert_eq!(first_two(&strings(&["inv"])), Some(("inv".to_string(), None)));
    assert_eq!(
        first_two(&strings(&["use", "llave", "vieja"])),
        Some(("use".to_string(), Some("llave".to_string())))
    );
}

#[test]
fn lines_are_carried_out() {
    let mut game = Game::new(build_world());
    assert!(game.enter("\n").is_none());
    assert!(game.enter("   ").is_none());
    assert!(matches!(
        game.enter("Get TORCH\n"),
        Some(Action::Say { reply: Reply::Taken { .. } })
    ));
    assert_eq!(game.player().inventory, strings(&["torch"]));
    assert!(matches!(game.enter("take"), Some(Action::Say { reply: Reply::TakeUsage })));
    assert!(matches!(
        game.enter("take nota arrugada"),
        Some(Action::Say { reply: Reply::NotHere })
    ));
    assert!(matches!(game.enter("jump north"), Some(Action::Say { reply: Reply::Unknown })));
    assert!(matches!(game.enter("help me"), Some(Action::Help)));
    assert!(matches!(game.enter("save"), Some(Action::Write { .. })));
    assert!(matches!(game.enter("load"), Some(Action::Read)));
    assert!(matches!(game.enter("  exit  "), Some(Action::Say { reply: Reply::Farewell })));
    assert!(!game.running());
}
