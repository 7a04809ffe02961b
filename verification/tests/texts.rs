use mini_mud::content::build_world;
use mini_mud::engine::Game;
use mini_mud::reply::{Reply, Scene};
use mini_mud::text::{copy_texts, dashes, join, position, split_pair, str_eq};

fn strings(words: &[&str]) -> Vec<String> {
    words.iter().map(|w| w.to_string()).collect()
}

#[test]
fn equal_texts() {
    assert!(str_eq("", ""));
    assert!(str_eq("cámara", "cámara"));
    assert!(!str_eq("camara", "cámara"));
    assert!(!str_eq("north", "south"));
    assert!(!str_eq("north", "northern"));
}

#[test]
fn dashes_by_count() {
    assert_eq!(dashes(0), "");
    assert_eq!(dashes(1), "-");
    assert_eq!(dashes(5), "-----");
}

#[test]
fn join_with_separator() {
    assert_eq!(join(&Vec::new(), ", "), "");
    assert_eq!(join(&strings(&["north"]), ", "), "north");
    assert_eq!(join(&strings(&["south", "north", "up"]), ", "), "south, north, up");
    assert_eq!(join(&strings(&["", ""]), "-"), "-");
}

#[test]
fn split_at_the_one_colon() {
    assert_eq!(
        split_pair("narrow_passage:north"),
        Some(("narrow_passage".to_string(), "north".to_string()))
    );
    assert_eq!(split_pair(":"), Some((String::new(), String::new())));
    assert_eq!(split_pair("a:"), Some(("a".to_string(), String::new())));
    assert_eq!(split_pair("cámara:ñ"), Some(("cámara".to_string(), "ñ".to_string())));
    assert_eq!(split_pair(""), None);
    assert_eq!(split_pair("north"), None);
    assert_eq!(split_pair("a:b:c"), None);
    assert_eq!(split_pair("::"), None);
}

#[test]
fn first_position_of_a_key() {
    let keys = strings(&["note", "torch", "note"]);
    assert_eq!(position(&keys, "note"), Some(0));
    assert_eq!(position(&keys, "torch"), Some(1));
    assert_eq!(position(&keys, "altar"), None);
    assert_eq!(position(&Vec::new(), "note"), None);
}

#[test]
fn copies_of_lists() {
    let keys = strings(&["note", "torch"]);
    assert_eq!(copy_texts(&keys), keys);
    assert_eq!(copy_texts(&Vec::new()), Vec::<String>::new());
}

#[test]
fn full_sight_of_the_cave_entrance() {
    let game = Game::new(build_world());
    let reply = game.cmd_look();
    assert_eq!(
        reply,
        Reply::Look {
            scene: Scene::Lit {
                name: "Entrada de la Cueva".to_string(),
                desc: "El viento helado sopla tras de ti. Un pasaje oscuro se interna hacia el norte."
                    .to_string(),
                listed: true,
                items: strings(&["nota arrugada", "antorcha"]),
                exits: strings(&["north"]),
            }
        }
    );
    assert_eq!(
        reply.text(),
        "\nEntrada de la Cueva\n-------------------\nEl viento helado sopla tras de ti. Un pasaje oscuro se interna hacia el norte.\n\nVes aquí: nota arrugada, antorcha\nSalidas: north"
    );
}

#[test]
fn underline_counts_characters_of_the_name() {
    let scene = Scene::Lit {
        name: "Cámara Ancestral".to_string(),
        desc: "Una sala.".to_string(),
        listed: false,
        items: Vec::new(),
        exits: Vec::new(),
    };
    assert_eq!(
        scene.text(),
        "\nCámara Ancestral\n----------------\nUna sala.\nSalidas: ninguna"
    );
}

#[test]
fn room_without_items_has_no_items_line() {
    let mut game = Game::new(build_world());
    game.cmd_take(Some("note"));
    game.cmd_take(Some("torch"));
    let reply = game.cmd_look();
    assert_eq!(
        reply.text(),
        "\nEntrada de la Cueva\n-------------------\nEl viento helado sopla tras de ti. Un pasaje oscuro se interna hacia el norte.\nSalidas: north"
    );
}

#[test]
fn dark_sight_without_exits() {
    let scene = Scene::Dark { exits: Vec::new() };
    assert_eq!(scene.text(), "Está muy oscuro. Apenas distingues siluetas.\nSalidas: ninguna");
}

#[test]
fn items_line_with_no_known_item() {
    let scene = Scene::Lit {
        name: "X".to_string(),
        desc: "Y".to_string(),
        listed: true,
        items: Vec::new(),
        exits: strings(&["up", "down"]),
    };
    assert_eq!(scene.text(), "\nX\n-\nY\n\nVes aquí: \nSalidas: up, down");
}
