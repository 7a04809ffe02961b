//! What the engine answers: the sight of a room, and one reply for each way
//! a command can end, with the words that the player reads.

use vstd::prelude::*;
use vstd::string::*;
use crate::text::{dashes, join, joined, run_of, texts};

verus! {

/// The sight of a room as a value.
pub enum SceneView {
    /// Too dark to see: only the exits can be made out.
    Dark { exits: Seq<Seq<char>> },
    /// The room in full. `listed` says whether the line of visible items is
    /// there at all; `items` holds the names on it.
    Lit { name: Seq<char>, desc: Seq<char>, listed: bool, items: Seq<Seq<char>>, exits: Seq<Seq<char>> },
}

/// The sight of a room.
#[derive(Debug, Clone, PartialEq, Eq)]
pub enum Scene {
    /// Too dark to see: only the exits can be made out.
    Dark { exits: Vec<String> },
    /// The room in full. `listed` says whether the line of visible items is
    /// there at all; `items` holds the names on it.
    Lit { name: String, desc: String, listed: bool, items: Vec<String>, exits: Vec<String> },
}

impl View for Scene {
    type V = SceneView;

    open spec fn view(&self) -> SceneView {
        match self {
            Scene::Dark { exits } => SceneView::Dark { exits: texts(exits@) },
            Scene::Lit { name, desc, listed, items, exits } => SceneView::Lit {
                name: name@,
                desc: desc@,
                listed: *listed,
                items: texts(items@),
                exits: texts(exits@),
            },
        }
    }
}

/// The line that names the exits.
pub open spec fn exits_line(exits: Seq<Seq<char>>) -> Seq<char> {
    if exits.len() == 0 {
        "Salidas: ninguna"@
    } else {
        "Salidas: "@ + joined(exits, ", "@)
    }
}

/// The lines that name the visible items: none where the room holds none.
pub open spec fn items_lines(listed: bool, items: Seq<Seq<char>>) -> Seq<char> {
    if listed {
        "\nVes aquí: "@ + joined(items, ", "@) + "\n"@
    } else {
        Seq::empty()
    }
}

impl SceneView {
    /// The words of the sight. The name is underlined with as many dashes as
    /// it has characters.
    pub open spec fn text(self) -> Seq<char> {
        match self {
            SceneView::Dark { exits } => "Está muy oscuro. Apenas distingues siluetas.\n"@
                + exits_line(exits),
            SceneView::Lit { name, desc, listed, items, exits } => "\n"@ + name + "\n"@ + run_of(
                '-',
                name.len(),
            ) + "\n"@ + desc + "\n"@ + items_lines(listed, items) + exits_line(exits),
        }
    }
}

fn exits_text(exits: &Vec<String>) -> (r: String)
    ensures
        r@ == exits_line(texts(exits@)),
{
    if exits.len() == 0 {
        String::from_str("Salidas: ninguna")
    } else {
        let mut out = String::from_str("Salidas: ");
        let list = join(exits, ", ");
        out.append(list.as_str());
        out
    }
}

fn items_text(listed: bool, items: &Vec<String>) -> (r: String)
    ensures
        r@ == items_lines(listed, texts(items@)),
{
    if listed {
        let mut out = String::from_str("\nVes aquí: ");
        let list = join(items, ", ");
        out.append(list.as_str());
        out.append("\n");
        out
    } else {
        String::new()
    }
}

impl Scene {
    /// The words of the sight.
    pub fn text(&self) -> (r: String)
        ensures
            r@ == self@.text(),
    {
        match self {
            Scene::Dark { exits } => {
                let mut out = String::from_str("Está muy oscuro. Apenas distingues siluetas.\n");
                let line = exits_text(exits);
                out.append(line.as_str());
                out
            },
            Scene::Lit { name, desc, listed, items, exits } => {
                let mut out = String::from_str("\n");
                out.append(name.as_str());
                out.append("\n");
                let rule = dashes(name.as_str().unicode_len());
                out.append(rule.as_str());
                out.append("\n");
                out.append(desc.as_str());
                out.append("\n");
                let seen = items_text(*listed, items);
                out.append(seen.as_str());
                let line = exits_text(exits);
                out.append(line.as_str());
                out
            },
        }
    }
}

/// The ways in which a command can fail.
#[derive(Debug, Clone, Copy, PartialEq, Eq)]
pub enum ErrorKind {
    /// A verb that needs an argument came without one.
    Usage,
    /// The exit, item or file that was named is not there.
    NotFound,
    /// A rule forbids the action.
    Permission,
    /// The world's own data is malformed.
    Configuration,
    /// A snapshot could not be written or read.
    Io,
    /// A snapshot was read and made no sense, in itself or in this world.
    Parse,
}

/// A reply as a value.
pub enum ReplyView {
    Look { scene: SceneView },
    GoUsage,
    NoExit,
    ExitBlocked,
    Moved { unlocked: bool, scene: SceneView },
    TakeUsage,
    NotHere,
    NotPortable,
    Taken { name: Seq<char> },
    DropUsage,
    NotCarried,
    Dropped { name: Seq<char> },
    EmptyHanded,
    Carrying { names: Seq<Seq<char>> },
    UseUsage,
    Lit { name: Seq<char>, scene: SceneView },
    Unlocked { name: Seq<char>, direction: Seq<char> },
    NothingToUnlock,
    WrongPlace,
    Misconfigured,
    NothingHappens,
    Saved { path: Seq<char> },
    SaveFailed { detail: Seq<char> },
    Loaded { path: Seq<char>, scene: SceneView },
    LoadMissing { path: Seq<char> },
    LoadUnreadable { detail: Seq<char> },
    LoadMalformed { detail: Seq<char> },
    Farewell,
    Unknown,
}

/// How a command ended.
#[derive(Debug, Clone, PartialEq, Eq)]
pub enum Reply {
    /// The room as the player sees it.
    Look { scene: Scene },
    /// `go` came without a direction.
    GoUsage,
    /// The room has no exit in that direction.
    NoExit,
    /// The exit is locked and the player holds nothing that opens it.
    ExitBlocked,
    /// The player went through the exit, after unlocking it where
    /// `unlocked` is set, and sees the next room.
    Moved { unlocked: bool, scene: Scene },
    /// `take` came without an item.
    TakeUsage,
    /// No item in the room answers to the word.
    NotHere,
    /// The item cannot be carried.
    NotPortable,
    /// The item went from the room into the inventory.
    Taken { name: String },
    /// `drop` came without an item.
    DropUsage,
    /// No item in the inventory answers to the word.
    NotCarried,
    /// The item went from the inventory into the room.
    Dropped { name: String },
    /// The inventory is empty.
    EmptyHanded,
    /// The names of what the player carries.
    Carrying { names: Vec<String> },
    /// `use` came without an item.
    UseUsage,
    /// A light was raised, and the room is seen by it.
    Lit { name: String, scene: Scene },
    /// The item unlocked the exit in `direction`.
    Unlocked { name: String, direction: String },
    /// The item belongs to this room, where its exit is not locked.
    NothingToUnlock,
    /// The item unlocks an exit of another room.
    WrongPlace,
    /// The item's unlock value is not of the form `room:direction`.
    Misconfigured,
    /// The item has no effect that the engine knows.
    NothingHappens,
    /// The snapshot was written to `path`.
    Saved { path: String },
    /// The snapshot could not be written.
    SaveFailed { detail: String },
    /// The snapshot at `path` was applied, and the room is seen again.
    Loaded { path: String, scene: Scene },
    /// There is no snapshot at `path`.
    LoadMissing { path: String },
    /// The snapshot could not be read.
    LoadUnreadable { detail: String },
    /// The snapshot was read and is not well formed, or its player stands
    /// in a room that the world does not have.
    LoadMalformed { detail: String },
    /// The player left.
    Farewell,
    /// The verb is none that the engine knows.
    Unknown,
}

impl View for Reply {
    type V = ReplyView;

    open spec fn view(&self) -> ReplyView {
        match self {
            Reply::Look { scene } => ReplyView::Look { scene: scene@ },
            Reply::GoUsage => ReplyView::GoUsage,
            Reply::NoExit => ReplyView::NoExit,
            Reply::ExitBlocked => ReplyView::ExitBlocked,
            Reply::Moved { unlocked, scene } => ReplyView::Moved {
                unlocked: *unlocked,
                scene: scene@,
            },
            Reply::TakeUsage => ReplyView::TakeUsage,
            Reply::NotHere => ReplyView::NotHere,
            Reply::NotPortable => ReplyView::NotPortable,
            Reply::Taken { name } => ReplyView::Taken { name: name@ },
            Reply::DropUsage => ReplyView::DropUsage,
            Reply::NotCarried => ReplyView::NotCarried,
            Reply::Dropped { name } => ReplyView::Dropped { name: name@ },
            Reply::EmptyHanded => ReplyView::EmptyHanded,
            Reply::Carrying { names } => ReplyView::Carrying { names: texts(names@) },
            Reply::UseUsage => ReplyView::UseUsage,
            Reply::Lit { name, scene } => ReplyView::Lit { name: name@, scene: scene@ },
            Reply::Unlocked { name, direction } => ReplyView::Unlocked {
                name: name@,
                direction: direction@,
            },
            Reply::NothingToUnlock => ReplyView::NothingToUnlock,
            Reply::WrongPlace => ReplyView::WrongPlace,
            Reply::Misconfigured => ReplyView::Misconfigured,
            Reply::NothingHappens => ReplyView::NothingHappens,
            Reply::Saved { path } => ReplyView::Saved { path: path@ },
            Reply::SaveFailed { detail } => ReplyView::SaveFailed { detail: detail@ },
            Reply::Loaded { path, scene } => ReplyView::Loaded { path: path@, scene: scene@ },
            Reply::LoadMissing { path } => ReplyView::LoadMissing { path: path@ },
            Reply::LoadUnreadable { detail } => ReplyView::LoadUnreadable { detail: detail@ },
            Reply::LoadMalformed { detail } => ReplyView::LoadMalformed { detail: detail@ },
            Reply::Farewell => ReplyView::Farewell,
            Reply::Unknown => ReplyView::Unknown,
        }
    }
}

impl ReplyView {
    /// The words of the reply, without a line end after the last line.
    pub open spec fn text(self) -> Seq<char> {
        match self {
            ReplyView::Look { scene } => scene.text(),
            ReplyView::GoUsage => "Uso: go <north|south|east|west|up|down>"@,
            ReplyView::NoExit => "No hay salida en esa dirección."@,
            ReplyView::ExitBlocked => "La salida está bloqueada."@,
            ReplyView::Moved { unlocked, scene } => if unlocked {
                "Usas la llave y desbloqueas la salida.\n"@ + scene.text()
            } else {
                scene.text()
            },
            ReplyView::TakeUsage => "Uso: take <objeto>"@,
            ReplyView::NotHere => "No ves eso aquí."@,
            ReplyView::NotPortable => "No puedes cargar eso."@,
            ReplyView::Taken { name } => "Tomaste "@ + name + "."@,
            ReplyView::DropUsage => "Uso: drop <objeto>"@,
            ReplyView::NotCarried => "No llevas eso."@,
            ReplyView::Dropped { name } => "Dejaste "@ + name + "."@,
            ReplyView::EmptyHanded => "No llevas nada."@,
            ReplyView::Carrying { names } => "Llevas: "@ + joined(names, ", "@),
            ReplyView::UseUsage => "Uso: use <objeto>"@,
            ReplyView::Lit { name, scene } => "Alzas "@ + name
                + ". La luz revela tu entorno.\n"@ + scene.text(),
            ReplyView::Unlocked { name, direction } => "Usas "@ + name
                + " y desbloqueas la salida "@ + direction + "."@,
            ReplyView::NothingToUnlock => "Aquí no hay nada que desbloquear."@,
            ReplyView::WrongPlace => "No parece servir aquí."@,
            ReplyView::Misconfigured => "La llave no está bien configurada."@,
            ReplyView::NothingHappens => "No pasa nada."@,
            ReplyView::Saved { path } => "Juego guardado en "@ + path,
            ReplyView::SaveFailed { detail } => detail,
            ReplyView::Loaded { path, scene } => "Juego cargado desde "@ + path + "\n"@
                + scene.text(),
            ReplyView::LoadMissing { path } => "No existe el archivo "@ + path,
            ReplyView::LoadUnreadable { detail } => detail,
            ReplyView::LoadMalformed { detail } => detail,
            ReplyView::Farewell => "¡Hasta la próxima!"@,
            ReplyView::Unknown => "No entiendo ese comando. Escribe 'help'."@,
        }
    }

    /// The kind of failure that the reply reports, if it reports one.
    pub open spec fn error(self) -> Option<ErrorKind> {
        match self {
            ReplyView::GoUsage | ReplyView::TakeUsage | ReplyView::DropUsage | ReplyView::UseUsage => Some(
                ErrorKind::Usage,
            ),
            ReplyView::NoExit | ReplyView::NotHere | ReplyView::NotCarried | ReplyView::LoadMissing {
                ..
            } => Some(ErrorKind::NotFound),
            ReplyView::ExitBlocked | ReplyView::NotPortable => Some(ErrorKind::Permission),
            ReplyView::Misconfigured => Some(ErrorKind::Configuration),
            ReplyView::SaveFailed { .. } | ReplyView::LoadUnreadable { .. } => Some(ErrorKind::Io),
            ReplyView::LoadMalformed { .. } => Some(ErrorKind::Parse),
            _ => None,
        }
    }
}

impl Reply {
    /// The words of the reply, without a line end after the last line.
    pub fn text(&self) -> (r: String)
        ensures
            r@ == self@.text(),
    {
        match self {
            Reply::Look { scene } => scene.text(),
            Reply::GoUsage => String::from_str("Uso: go <north|south|east|west|up|down>"),
            Reply::NoExit => String::from_str("No hay salida en esa dirección."),
            Reply::ExitBlocked => String::from_str("La salida está bloqueada."),
            Reply::Moved { unlocked, scene } => {
                let seen = scene.text();
                if *unlocked {
                    String::from_str("Usas la llave y desbloqueas la salida.\n").concat(
                        seen.as_str(),
                    )
                } else {
                    seen
                }
            },
            Reply::TakeUsage => String::from_str("Uso: take <objeto>"),
            Reply::NotHere => String::from_str("No ves eso aquí."),
            Reply::NotPortable => String::from_str("No puedes cargar eso."),
            Reply::Taken { name } => String::from_str("Tomaste ").concat(name.as_str()).concat("."),
            Reply::DropUsage => String::from_str("Uso: drop <objeto>"),
            Reply::NotCarried => String::from_str("No llevas eso."),
            Reply::Dropped { name } => String::from_str("Dejaste ").concat(name.as_str()).concat(
                ".",
            ),
            Reply::EmptyHanded => String::from_str("No llevas nada."),
            Reply::Carrying { names } => {
                let list = join(names, ", ");
                String::from_str("Llevas: ").concat(list.as_str())
            },
            Reply::UseUsage => String::from_str("Uso: use <objeto>"),
            Reply::Lit { name, scene } => {
                let seen = scene.text();
                String::from_str("Alzas ").concat(name.as_str()).concat(
                    ". La luz revela tu entorno.\n",
                ).concat(seen.as_str())
            },
            Reply::Unlocked { name, direction } => String::from_str("Usas ").concat(
                name.as_str(),
            ).concat(" y desbloqueas la salida ").concat(direction.as_str()).concat("."),
            Reply::NothingToUnlock => String::from_str("Aquí no hay nada que desbloquear."),
            Reply::WrongPlace => String::from_str("No parece servir aquí."),
            Reply::Misconfigured => String::from_str("La llave no está bien configurada."),
            Reply::NothingHappens => String::from_str("No pasa nada."),
            Reply::Saved { path } => String::from_str("Juego guardado en ").concat(path.as_str()),
            Reply::SaveFailed { detail } => detail.clone(),
            Reply::Loaded { path, scene } => {
                let seen = scene.text();
                String::from_str("Juego cargado desde ").concat(path.as_str()).concat("\n").concat(
                    seen.as_str(),
                )
            },
            Reply::LoadMissing { path } => String::from_str("No existe el archivo ").concat(
                path.as_str(),
            ),
            Reply::LoadUnreadable { detail } => detail.clone(),
            Reply::LoadMalformed { detail } => detail.clone(),
            Reply::Farewell => String::from_str("¡Hasta la próxima!"),
            Reply::Unknown => String::from_str("No entiendo ese comando. Escribe 'help'."),
        }
    }

    /// The kind of failure that the reply reports, if it reports one.
    pub fn error(&self) -> (r: Option<ErrorKind>)
        ensures
            r == self@.error(),
    {
        match self {
            Reply::GoUsage | Reply::TakeUsage | Reply::DropUsage | Reply::UseUsage => Some(
                ErrorKind::Usage,
            ),
            Reply::NoExit | Reply::NotHere | Reply::NotCarried | Reply::LoadMissing { .. } => Some(
                ErrorKind::NotFound,
            ),
            Reply::ExitBlocked | Reply::NotPortable => Some(ErrorKind::Permission),
            Reply::Misconfigured => Some(ErrorKind::Configuration),
            Reply::SaveFailed { .. } | Reply::LoadUnreadable { .. } => Some(ErrorKind::Io),
            Reply::LoadMalformed { .. } => Some(ErrorKind::Parse),
            _ => None,
        }
    }
}

} // verus!
