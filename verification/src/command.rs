//! Commands: the verbs that the engine knows, and what the engine does with
//! one of them and its argument.

use vstd::prelude::*;
use crate::engine::Game;
use crate::reply::{Reply, ReplyView};
use crate::rules::{
    drop_step, go_step, inventory_step, look_step, quit_step, take_step, use_step, word_of,
    GameView,
};
use crate::snapshot::{snapshot, SaveData, SaveDataView};
use crate::text::{lowercase_of, split_words, str_eq, texts, to_lower, words_of};

verus! {

/// What a verb asks for.
#[derive(Debug, Clone, Copy, PartialEq, Eq)]
pub enum Command {
    Look,
    Go,
    Take,
    Drop,
    Use,
    Inventory,
    Save,
    Load,
    Help,
    Quit,
    /// A verb that the engine does not know.
    Unknown,
}

/// The command that a verb, given in lowercase, stands for.
pub open spec fn command_of(lowered: Seq<char>) -> Command {
    if lowered == "l"@ || lowered == "look"@ {
        Command::Look
    } else if lowered == "g"@ || lowered == "go"@ {
        Command::Go
    } else if lowered == "take"@ || lowered == "get"@ {
        Command::Take
    } else if lowered == "drop"@ {
        Command::Drop
    } else if lowered == "use"@ {
        Command::Use
    } else if lowered == "inv"@ || lowered == "inventory"@ {
        Command::Inventory
    } else if lowered == "save"@ {
        Command::Save
    } else if lowered == "load"@ {
        Command::Load
    } else if lowered == "help"@ {
        Command::Help
    } else if lowered == "quit"@ || lowered == "exit"@ {
        Command::Quit
    } else {
        Command::Unknown
    }
}

/// What is to be done about a command, as a value.
pub enum ActionView {
    Say { reply: ReplyView },
    Write { data: SaveDataView },
    Read,
    Help,
}

/// What is to be done about a command. The engine changes the game and
/// words the reply; writing and reading a snapshot, and the help text, are
/// the caller's part.
#[derive(Debug, Clone)]
pub enum Action {
    /// The command is done: show the reply.
    Say { reply: Reply },
    /// Write this snapshot, then show the reply that `save_reply` gives.
    Write { data: SaveData },
    /// Read the snapshot, then hand what came of it to `Game::load`.
    Read,
    /// Show the help text.
    Help,
}

impl View for Action {
    type V = ActionView;

    open spec fn view(&self) -> ActionView {
        match self {
            Action::Say { reply } => ActionView::Say { reply: reply@ },
            Action::Write { data } => ActionView::Write { data: data@ },
            Action::Read => ActionView::Read,
            Action::Help => ActionView::Help,
        }
    }
}

/// A reply as the action that shows it.
pub open spec fn said(done: (GameView, ReplyView)) -> (GameView, ActionView) {
    (done.0, ActionView::Say { reply: done.1 })
}

/// What a command with its argument makes of a game, and what is to be
/// done about it. A verb that the engine does not know changes nothing.
pub open spec fn step(g: GameView, command: Command, word: Option<Seq<char>>) -> (
    GameView,
    ActionView,
) {
    match command {
        Command::Look => said((g, look_step(g))),
        Command::Go => said(go_step(g, word)),
        Command::Take => said(take_step(g, word)),
        Command::Drop => said(drop_step(g, word)),
        Command::Use => said(use_step(g, word)),
        Command::Inventory => said((g, inventory_step(g))),
        Command::Save => (g, ActionView::Write { data: snapshot(g) }),
        Command::Load => (g, ActionView::Read),
        Command::Help => (g, ActionView::Help),
        Command::Quit => said(quit_step(g)),
        Command::Unknown => said((g, ReplyView::Unknown)),
    }
}

/// Verb and argument among the words of a line: the first word and, where
/// there is one, the second. Further words are passed over, and a line
/// without words holds no command.
pub open spec fn tokens(words: Seq<Seq<char>>) -> Option<(Seq<char>, Option<Seq<char>>)> {
    if words.len() == 0 {
        None
    } else if words.len() == 1 {
        Some((words[0], None))
    } else {
        Some((words[0], Some(words[1])))
    }
}

/// What a line makes of a game: nothing where it holds no word, else what
/// its verb, read in lowercase, and its argument make of it.
pub open spec fn line_step(g: GameView, line: Seq<char>) -> (GameView, Option<ActionView>) {
    match tokens(words_of(line)) {
        None => (g, None),
        Some((verb, word)) => {
            let done = step(g, command_of(lowercase_of(verb)), word);
            (done.0, Some(done.1))
        },
    }
}

/// Verb and argument among `words`.
pub fn first_two(words: &Vec<String>) -> (r: Option<(String, Option<String>)>)
    ensures
        match r {
            Some((verb, Some(arg))) => tokens(texts(words@)) == Some((verb@, Some(arg@))),
            Some((verb, None)) => tokens(texts(words@)) == Some((verb@, None::<Seq<char>>)),
            None => tokens(texts(words@)) is None,
        },
{
    if words.len() == 0 {
        None
    } else if words.len() == 1 {
        Some((words[0].clone(), None))
    } else {
        Some((words[0].clone(), Some(words[1].clone())))
    }
}

/// Verb and argument of a command line.
pub fn tokenize(line: &str) -> (r: Option<(String, Option<String>)>)
    ensures
        match r {
            Some((verb, Some(arg))) => tokens(words_of(line@)) == Some((verb@, Some(arg@))),
            Some((verb, None)) => tokens(words_of(line@)) == Some((verb@, None::<Seq<char>>)),
            None => tokens(words_of(line@)) is None,
        },
{
    let words = split_words(line);
    first_two(&words)
}

/// The command that a verb, given in lowercase, stands for.
pub fn parse_lowered(lowered: &str) -> (c: Command)
    ensures
        c == command_of(lowered@),
{
    if str_eq(lowered, "l") || str_eq(lowered, "look") {
        Command::Look
    } else if str_eq(lowered, "g") || str_eq(lowered, "go") {
        Command::Go
    } else if str_eq(lowered, "take") || str_eq(lowered, "get") {
        Command::Take
    } else if str_eq(lowered, "drop") {
        Command::Drop
    } else if str_eq(lowered, "use") {
        Command::Use
    } else if str_eq(lowered, "inv") || str_eq(lowered, "inventory") {
        Command::Inventory
    } else if str_eq(lowered, "save") {
        Command::Save
    } else if str_eq(lowered, "load") {
        Command::Load
    } else if str_eq(lowered, "help") {
        Command::Help
    } else if str_eq(lowered, "quit") || str_eq(lowered, "exit") {
        Command::Quit
    } else {
        Command::Unknown
    }
}

/// The command that a verb stands for, case set aside.
pub fn parse_verb(verb: &str) -> (c: Command)
    ensures
        c == command_of(lowercase_of(verb@)),
{
    let lowered = to_lower(verb);
    parse_lowered(lowered.as_str())
}

impl Game {
    /// Carries out `command` with its argument, as far as the engine can,
    /// and says what is left to do.
    pub fn perform(&mut self, command: Command, arg: Option<&str>) -> (a: Action)
        requires
            old(self).wf(),
        ensures
            final(self).wf(),
            (final(self)@, a@) == step(old(self)@, command, word_of(arg)),
    {
        match command {
            Command::Look => Action::Say { reply: self.cmd_look() },
            Command::Go => Action::Say { reply: self.cmd_go(arg) },
            Command::Take => Action::Say { reply: self.cmd_take(arg) },
            Command::Drop => Action::Say { reply: self.cmd_drop(arg) },
            Command::Use => Action::Say { reply: self.cmd_use(arg) },
            Command::Inventory => Action::Say { reply: self.cmd_inventory() },
            Command::Save => Action::Write { data: self.save() },
            Command::Load => Action::Read,
            Command::Help => Action::Help,
            Command::Quit => Action::Say { reply: self.terminate() },
            Command::Unknown => Action::Say { reply: Reply::Unknown },
        }
    }

    /// Carries out the command that a line holds. A line without words
    /// holds none, and nothing is done about it.
    pub fn enter(&mut self, line: &str) -> (a: Option<Action>)
        requires
            old(self).wf(),
        ensures
            final(self).wf(),
            match a {
                Some(action) => (final(self)@, Some(action@)) == line_step(old(self)@, line@),
                None => (final(self)@, None::<ActionView>) == line_step(old(self)@, line@),
            },
    {
        match tokenize(line) {
            None => None,
            Some((verb, None)) => Some(self.dispatch(verb.as_str(), None)),
            Some((verb, Some(arg))) => Some(self.dispatch(verb.as_str(), Some(arg.as_str()))),
        }
    }

    /// Reads the verb, case set aside, and carries out its command.
    pub fn dispatch(&mut self, verb: &str, arg: Option<&str>) -> (a: Action)
        requires
            old(self).wf(),
        ensures
            final(self).wf(),
            (final(self)@, a@) == step(old(self)@, command_of(lowercase_of(verb@)), word_of(arg)),
    {
        let command = parse_verb(verb);
        self.perform(command, arg)
    }
}

} // verus!
