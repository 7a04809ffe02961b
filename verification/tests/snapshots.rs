use mini_mud::content::build_world;
use mini_mud::engine::Game;
use mini_mud::model::Player;
use mini_mud::reply::{ErrorKind, Reply, Scene};
use mini_mud::snapshot::{save_reply, Reading, RoomState, SaveData};
use mini_mud::table::Table;

fn strings(words: &[&str]) -> Vec<String> {
    words.iter().map(|w| w.to_string()).collect()
}

fn played() -> Game {
    let mut game = Game::new(build_world());
    game.cmd_take(Some("torch"));
    game.cmd_go(Some("north"));
    game.cmd_take(Some("key_gate"));
    game.cmd_use(Some("key_gate"));
    game.cmd_drop(Some("torch"));
    game
}

#[test]
fn snapshot_holds_player_and_every_room() {
    let game = played();
    let data = game.save();
    assert_eq!(data.player.name, "Hero");
    assert_eq!(data.player.location, "narrow_passage");
    assert_eq!(data.player.inventory, strings(&["key_gate"]));
    assert_eq!(data.rooms.len(), 3);
    assert_eq!(data.rooms.key_at(0), "cave_entrance");
    assert_eq!(data.rooms.key_at(1), "narrow_passage");
    assert_eq!(data.rooms.key_at(2), "ancient_chamber");
    let passage = data.rooms.get("narrow_passage").unwrap();
    assert_eq!(passage.items, strings(&["torch"]));
    assert_eq!(passage.flags.get("dark"), Some(&true));
    assert_eq!(passage.flags.get("locked_north"), Some(&false));
    assert_eq!(data.rooms.get("cave_entrance").unwrap().items, strings(&["note"]));
    assert!(data.rooms.get("cave_entrance").unwrap().flags.is_empty());
}

#[test]
fn save_then_load_gives_the_same_game() {
    let game = played();
    let data = game.save();
    let mut fresh = Game::new(build_world());
    assert!(fresh.accepts(&data));
    let reply = fresh.load("save.json", Reading::Parsed { data });
    assert!(matches!(&reply, Reply::Loaded { path, scene: Scene::Dark { .. } } if path == "save.json"));
    assert_eq!(
        reply.text(),
        "Juego cargado desde save.json\nEstá muy oscuro. Apenas distingues siluetas.\nSalidas: south, north"
    );
    assert_eq!(fresh.player().name, game.player().name);
    assert_eq!(fresh.player().location, game.player().location);
    assert_eq!(fresh.player().inventory, game.player().inventory);
    for i in 0..game.world().room_count() {
        let (a, b) = (game.world().room_at(i), fresh.world().room_at(i));
        assert_eq!(a.key, b.key);
        assert_eq!(a.items, b.items);
        assert_eq!(a.flags.len(), b.flags.len());
        for j in 0..a.flags.len() {
            assert_eq!(a.flags.key_at(j), b.flags.key_at(j));
            assert_eq!(a.flags.value_at(j), b.flags.value_at(j));
        }
    }
    let again = fresh.save();
    assert_eq!(again.player.inventory, strings(&["key_gate"]));
    assert_eq!(again.rooms.get("narrow_passage").unwrap().items, strings(&["torch"]));
}

#[test]
fn save_then_load_on_the_same_game_changes_nothing() {
    let mut game = played();
    let data = game.save();
    assert!(game.restore(&data));
    assert_eq!(game.player().location, "narrow_passage");
    assert_eq!(game.player().inventory, strings(&["key_gate"]));
    assert_eq!(game.current_room().items, strings(&["torch"]));
    assert!(!game.current_room().flag("locked_north"));
    assert!(game.current_room().flag("dark"));
}

#[test]
fn load_of_a_missing_snapshot_changes_nothing() {
    let mut game = played();
    let reply = game.load("save.json", Reading::Missing);
    assert_eq!(reply, Reply::LoadMissing { path: "save.json".to_string() });
    assert_eq!(reply.text(), "No existe el archivo save.json");
    assert_eq!(reply.error(), Some(ErrorKind::NotFound));
    assert_eq!(game.player().location, "narrow_passage");
    assert_eq!(game.player().inventory, strings(&["key_gate"]));
    assert_eq!(game.current_room().items, strings(&["torch"]));
    assert!(!game.current_room().flag("locked_north"));
}

#[test]
fn load_of_an_unreadable_or_malformed_snapshot_changes_nothing() {
    let mut game = played();
    let reply = game.load("save.json", Reading::Unreadable { detail: "permission denied".to_string() });
    assert_eq!(reply, Reply::LoadUnreadable { detail: "permission denied".to_string() });
    assert_eq!(reply.text(), "permission denied");
    assert_eq!(reply.error(), Some(ErrorKind::Io));
    let reply = game.load(
        "save.json",
        Reading::Malformed { detail: "missing field `player` at line 1 column 2".to_string() },
    );
    assert_eq!(reply.text(), "missing field `player` at line 1 column 2");
    assert_eq!(reply.error(), Some(ErrorKind::Parse));
    assert_eq!(game.player().location, "narrow_passage");
    assert_eq!(game.player().inventory, strings(&["key_gate"]));
}

#[test]
fn load_passes_over_rooms_that_the_world_does_not_have() {
    let mut game = Game::new(build_world());
    let mut rooms: Table<RoomState> = Table::new();
    let mut flags = Table::new();
    flags.insert("dark".to_string(), true);
    rooms.insert("attic".to_string(), RoomState { items: strings(&["torch"]), flags });
    rooms.insert(
        "cave_entrance".to_string(),
        RoomState { items: strings(&["altar", "unheard_of"]), flags: Table::new() },
    );
    let data = SaveData {
        player: Player {
            name: "Ana".to_string(),
            location: "ancient_chamber".to_string(),
            inventory: strings(&["note"]),
        },
        rooms,
    };
    assert!(game.accepts(&data));
    let reply = game.load("old.json", Reading::Parsed { data });
    assert!(matches!(reply, Reply::Loaded { scene: Scene::Lit { .. }, .. }));
    assert_eq!(game.player().name, "Ana");
    assert_eq!(game.player().location, "ancient_chamber");
    assert_eq!(game.player().inventory, strings(&["note"]));
    assert_eq!(game.world().room_count(), 3);
    assert!(!game.world().has_room("attic"));
    assert_eq!(game.world().room("cave_entrance").unwrap().items, strings(&["altar", "unheard_of"]));
    let passage = game.world().room("narrow_passage").unwrap();
    assert_eq!(passage.items, strings(&["key_gate"]));
    assert!(passage.flag("dark"));
    assert!(passage.flag("locked_north"));
    assert_eq!(passage.name, "Pasadizo Estrecho");
    assert_eq!(game.current_room().items, strings(&["altar"]));
}

fn stray_snapshot() -> SaveData {
    let mut data = Game::new(build_world()).save();
    data.player.name = "Ana".to_string();
    data.player.location = "attic".to_string();
    data.player.inventory = strings(&["altar"]);
    let mut rooms: Table<RoomState> = Table::new();
    rooms.insert(
        "narrow_passage".to_string(),
        RoomState { items: strings(&["note"]), flags: Table::new() },
    );
    data.rooms = rooms;
    data
}

fn assert_as_played(game: &Game) {
    assert_eq!(game.player().name, "Hero");
    assert_eq!(game.player().location, "narrow_passage");
    assert_eq!(game.player().inventory, strings(&["key_gate"]));
    assert_eq!(game.current_room().items, strings(&["torch"]));
    assert!(game.current_room().flag("dark"));
    assert!(!game.current_room().flag("locked_north"));
    assert_eq!(game.world().room("cave_entrance").unwrap().items, strings(&["note"]));
    assert!(game.running());
}

#[test]
fn snapshot_of_a_player_in_an_unknown_room_is_not_accepted() {
    let mut game = played();
    let data = stray_snapshot();
    assert!(!game.accepts(&data));
    assert!(!game.restore(&data));
    assert_as_played(&game);
}

#[test]
fn load_of_a_snapshot_that_does_not_fit_changes_nothing() {
    let mut game = played();
    let reply = game.load("save.json", Reading::Parsed { data: stray_snapshot() });
    assert_eq!(
        reply,
        Reply::LoadMalformed {
            detail: "La partida guardada nombra una sala que no existe: attic".to_string()
        }
    );
    assert_eq!(reply.text(), "La partida guardada nombra una sala que no existe: attic");
    assert_eq!(reply.error(), Some(ErrorKind::Parse));
    assert_as_played(&game);
    assert!(matches!(game.cmd_look(), Reply::Look { scene: Scene::Dark { .. } }));
    assert!(matches!(game.cmd_go(Some("north")), Reply::Moved { .. }));
}

#[test]
fn reply_to_save() {
    let reply = save_reply("save.json", Ok(()));
    assert_eq!(reply, Reply::Saved { path: "save.json".to_string() });
    assert_eq!(reply.text(), "Juego guardado en save.json");
    assert_eq!(reply.error(), None);
    let reply = save_reply("save.json", Err("disk full".to_string()));
    assert_eq!(reply, Reply::SaveFailed { detail: "disk full".to_string() });
    assert_eq!(reply.text(), "disk full");
    assert_eq!(reply.error(), Some(ErrorKind::Io));
}
