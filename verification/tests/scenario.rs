use mini_mud::content::build_world;
use mini_mud::engine::Game;
use mini_mud::reply::{Reply, Scene};

fn strings(words: &[&str]) -> Vec<String> {
    words.iter().map(|w| w.to_string()).collect()
}

#[test]
fn new_game_starts_at_the_cave_entrance() {
    let game = Game::new(build_world());
    assert_eq!(game.player().name, "Hero");
    assert_eq!(game.player().location, "cave_entrance");
    assert!(game.player().inventory.is_empty());
    assert!(game.running());
    assert_eq!(game.current_room().key, "cave_entrance");
}

#[test]
fn torch_key_and_gate() {
    let mut game = Game::new(build_world());

    let reply = game.cmd_take(Some("torch"));
    assert_eq!(reply, Reply::Taken { name: "antorcha".to_string() });
    assert_eq!(reply.text(), "Tomaste antorcha.");
    assert_eq!(game.current_room().items, strings(&["note"]));
    assert_eq!(game.player().inventory, strings(&["torch"]));

    let reply = game.cmd_go(Some("north"));
    assert_eq!(
        reply,
        Reply::Moved {
            unlocked: false,
            scene: Scene::Lit {
                name: "Pasadizo Estrecho".to_string(),
                desc: "Las paredes se cierran a tu alrededor. Al norte ves una reja; al sur, la salida."
                    .to_string(),
                listed: true,
                items: strings(&["llave vieja"]),
                exits: strings(&["south", "north"]),
            },
        }
    );
    assert_eq!(game.player().location, "narrow_passage");

    let reply = game.cmd_go(Some("north"));
    assert_eq!(reply, Reply::ExitBlocked);
    assert_eq!(reply.text(), "La salida está bloqueada.");
    assert_eq!(game.player().location, "narrow_passage");
    assert!(game.current_room().flag("locked_north"));

    let reply = game.cmd_take(Some("key_gate"));
    assert_eq!(reply, Reply::Taken { name: "llave vieja".to_string() });
    assert_eq!(game.player().inventory, strings(&["torch", "key_gate"]));

    let reply = game.cmd_use(Some("key_gate"));
    assert_eq!(
        reply,
        Reply::Unlocked { name: "llave vieja".to_string(), direction: "north".to_string() }
    );
    assert_eq!(reply.text(), "Usas llave vieja y desbloqueas la salida north.");
    assert!(!game.current_room().flag("locked_north"));
    assert_eq!(game.current_room().flags.get("locked_north"), Some(&false));

    let reply = game.cmd_go(Some("north"));
    assert_eq!(
        reply,
        Reply::Moved {
            unlocked: false,
            scene: Scene::Lit {
                name: "Cámara Ancestral".to_string(),
                desc: "Una sala amplia con grabados antiguos. Un altar domina el centro."
                    .to_string(),
                listed: true,
                items: strings(&["altar de piedra"]),
                exits: strings(&["south"]),
            },
        }
    );
    assert_eq!(game.player().location, "ancient_chamber");
}

#[test]
fn dark_room_without_light_shows_exits_only() {
    let mut game = Game::new(build_world());
    let reply = game.cmd_go(Some("north"));
    assert_eq!(
        reply,
        Reply::Moved { unlocked: false, scene: Scene::Dark { exits: strings(&["south", "north"]) } }
    );
    assert_eq!(
        reply.text(),
        "Está muy oscuro. Apenas distingues siluetas.\nSalidas: south, north"
    );
    assert!(!game.has_light());
}

#[test]
fn same_dark_room_with_and_without_light() {
    let mut game = Game::new(build_world());
    game.cmd_take(Some("torch"));
    game.cmd_go(Some("north"));
    assert!(game.has_light());
    assert!(matches!(game.cmd_look(), Reply::Look { scene: Scene::Lit { .. } }));
    assert_eq!(game.cmd_drop(Some("torch")), Reply::Dropped { name: "antorcha".to_string() });
    assert!(!game.has_light());
    assert_eq!(
        game.cmd_look(),
        Reply::Look { scene: Scene::Dark { exits: strings(&["south", "north"]) } }
    );
    game.cmd_take(Some("torch"));
    assert!(matches!(game.cmd_look(), Reply::Look { scene: Scene::Lit { .. } }));
}

#[test]
fn going_with_the_key_unlocks_for_good() {
    let mut game = Game::new(build_world());
    game.cmd_go(Some("north"));
    assert_eq!(game.cmd_take(Some("llave vieja")), Reply::Taken { name: "llave vieja".to_string() });
    let reply = game.cmd_go(Some("north"));
    assert!(matches!(reply, Reply::Moved { unlocked: true, scene: Scene::Lit { .. } }));
    assert!(reply.text().starts_with("Usas la llave y desbloqueas la salida.\n\nCámara Ancestral\n"));
    assert_eq!(game.player().location, "ancient_chamber");

    assert!(matches!(game.cmd_go(Some("south")), Reply::Moved { unlocked: false, .. }));
    assert!(!game.current_room().flag("locked_north"));
    assert_eq!(game.cmd_use(Some("key_gate")), Reply::NothingToUnlock);
    assert_eq!(game.cmd_drop(Some("key_gate")), Reply::Dropped { name: "llave vieja".to_string() });
    assert!(matches!(game.cmd_go(Some("north")), Reply::Moved { unlocked: false, .. }));
    assert_eq!(game.player().location, "ancient_chamber");
}

#[test]
fn second_unlock_finds_nothing_to_unlock() {
    let mut game = Game::new(build_world());
    game.cmd_go(Some("north"));
    game.cmd_take(Some("key_gate"));
    assert!(matches!(game.cmd_use(Some("key_gate")), Reply::Unlocked { .. }));
    let reply = game.cmd_use(Some("key_gate"));
    assert_eq!(reply, Reply::NothingToUnlock);
    assert_eq!(reply.text(), "Aquí no hay nada que desbloquear.");
    assert_eq!(reply.error(), None);
}

#[test]
fn key_does_not_work_in_another_room() {
    let mut game = Game::new(build_world());
    game.cmd_go(Some("north"));
    game.cmd_take(Some("key_gate"));
    game.cmd_go(Some("south"));
    let reply = game.cmd_use(Some("key_gate"));
    assert_eq!(reply, Reply::WrongPlace);
    assert_eq!(reply.text(), "No parece servir aquí.");
}

#[test]
fn new_game_is_a_game_in_the_starting_world() {
    let game = mini_mud::content::new_game();
    assert_eq!(game.player().name, "Hero");
    assert_eq!(game.player().location, "cave_entrance");
    assert!(game.player().inventory.is_empty());
    assert!(game.running());
    assert_eq!(game.world().room_count(), 3);
    assert_eq!(game.world().item_count(), 4);
    assert_eq!(game.current_room().items, strings(&["note", "torch"]));
}

fn places_of(game: &Game, key: &str) -> usize {
    let mut n = game.player().inventory.iter().filter(|k| k.as_str() == key).count();
    for i in 0..game.world().room_count() {
        n += game.world().room_at(i).items.iter().filter(|k| k.as_str() == key).count();
    }
    n
}

#[test]
fn every_item_stays_in_exactly_one_container() {
    let mut game = Game::new(build_world());
    let moves: [(&str, Option<&str>); 14] = [
        ("take", Some("torch")),
        ("take", Some("altar")),
        ("take", None),
        ("drop", Some("note")),
        ("take", Some("NOTA ARRUGADA")),
        ("go", Some("north")),
        ("drop", Some("torch")),
        ("take", Some("llave vieja")),
        ("take", Some("torch")),
        ("go", Some("north")),
        ("take", Some("altar")),
        ("drop", Some("key_gate")),
        ("drop", Some("key_gate")),
        ("drop", None),
    ];
    for (verb, word) in moves {
        game.dispatch(verb, word);
        for key in ["torch", "key_gate", "note", "altar"] {
            assert_eq!(places_of(&game, key), 1, "{key} after {verb} {word:?}");
        }
        assert_eq!(places_of(&game, "unheard_of"), 0);
    }
    assert_eq!(game.player().location, "ancient_chamber");
    assert_eq!(game.player().inventory, strings(&["note", "torch"]));
    assert_eq!(game.current_room().items, strings(&["altar", "key_gate"]));
}
