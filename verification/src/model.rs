//! What the world is made of: items, rooms and the player, each with the
//! mathematical value that the contracts speak of.

use vstd::prelude::*;
use crate::table::{lookup, Table};
use crate::text::texts;

verus! {

/// An item as a value: its texts, whether it can be carried, its effects.
pub struct ItemView {
    pub key: Seq<char>,
    pub name: Seq<char>,
    pub desc: Seq<char>,
    pub portable: bool,
    pub effects: Seq<(Seq<char>, Seq<char>)>,
}

/// A room as a value: its texts, its exits by direction, the keys of the
/// items that lie in it, in the order in which they came, and its flags.
pub struct RoomView {
    pub key: Seq<char>,
    pub name: Seq<char>,
    pub desc: Seq<char>,
    pub exits: Seq<(Seq<char>, Seq<char>)>,
    pub items: Seq<Seq<char>>,
    pub flags: Seq<(Seq<char>, bool)>,
}

/// The player as a value: name, the key of the room they stand in, and the
/// keys of the items they carry, in the order in which they were picked up.
pub struct PlayerView {
    pub name: Seq<char>,
    pub location: Seq<char>,
    pub inventory: Seq<Seq<char>>,
}

/// A thing that can lie in a room or be carried. Where it is, is not written
/// on it: a room's item list or the player's inventory holds its key.
#[derive(Debug, Clone)]
pub struct Item {
    pub key: String,
    pub name: String,
    pub desc: String,
    pub portable: bool,
    /// Effect names with their values. `"lights"` makes the item a light;
    /// `"unlocks"` names, as `room:direction`, the one exit that it opens.
    pub effects: Table<String>,
}

/// A place. Exits lead by direction to other rooms' keys. The flag `"dark"`
/// asks for a light; `"locked_"` followed by a direction bars that exit.
#[derive(Debug, Clone)]
pub struct Room {
    pub key: String,
    pub name: String,
    pub desc: String,
    pub exits: Table<String>,
    pub items: Vec<String>,
    pub flags: Table<bool>,
}

/// Who plays, where they are and what they carry.
#[derive(Debug, Clone)]
pub struct Player {
    pub name: String,
    pub location: String,
    pub inventory: Vec<String>,
}

impl View for Item {
    type V = ItemView;

    open spec fn view(&self) -> ItemView {
        ItemView {
            key: self.key@,
            name: self.name@,
            desc: self.desc@,
            portable: self.portable,
            effects: self.effects@,
        }
    }
}

impl View for Room {
    type V = RoomView;

    open spec fn view(&self) -> RoomView {
        RoomView {
            key: self.key@,
            name: self.name@,
            desc: self.desc@,
            exits: self.exits@,
            items: texts(self.items@),
            flags: self.flags@,
        }
    }
}

impl View for Player {
    type V = PlayerView;

    open spec fn view(&self) -> PlayerView {
        PlayerView {
            name: self.name@,
            location: self.location@,
            inventory: texts(self.inventory@),
        }
    }
}

impl ItemView {
    /// The item gives light: it has an effect named `"lights"`, whatever
    /// the effect's value.
    pub open spec fn lights(self) -> bool {
        lookup(self.effects, "lights"@) is Some
    }

    /// The value of the item's `"unlocks"` effect, if it has one.
    pub open spec fn unlocks(self) -> Option<Seq<char>> {
        lookup(self.effects, "unlocks"@)
    }
}

impl RoomView {
    /// The flag `name` is set: present, and true.
    pub open spec fn flag(self, name: Seq<char>) -> bool {
        lookup(self.flags, name) == Some(true)
    }

    /// The room asks for a light.
    pub open spec fn dark(self) -> bool {
        self.flag("dark"@)
    }
}

impl Item {
    /// Whether the item gives light.
    pub fn lights(&self) -> (b: bool)
        ensures
            b == self@.lights(),
    {
        self.effects.get("lights").is_some()
    }
}

impl Room {
    /// Whether the flag `name` is set. A flag that the room does not have
    /// counts as not set.
    pub fn flag(&self, name: &str) -> (b: bool)
        ensures
            b == self@.flag(name@),
    {
        match self.flags.get(name) {
            Some(v) => *v,
            None => false,
        }
    }
}

} // verus!
