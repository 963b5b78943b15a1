//! The actions of the interactive menu.
use vstd::prelude::*;

verus! {

/// An action that the menu offers.
#[derive(Clone, Copy, Debug, PartialEq, Eq, Structural)]
pub enum Command {
    TracksInfo,
    Duplicates,
    Decades,
    Genres,
    Exit,
}

/// Every action, in the order in which the menu lists them.
pub open spec fn menu_order() -> Seq<Command> {
    seq![
        Command::TracksInfo,
        Command::Duplicates,
        Command::Decades,
        Command::Genres,
        Command::Exit,
    ]
}

impl Command {
    /// The label under which the menu shows this action.
    pub open spec fn label(self) -> Seq<char> {
        match self {
            Command::TracksInfo => "Show information about top artists from your library"@,
            Command::Duplicates => "Remove duplicates from liked songs or from a playlist"@,
            Command::Decades => "Categorize your liked songs based on their release decade"@,
            Command::Genres => "Categorize your liked songs based on their artist's genre"@,
            Command::Exit => "Exit"@,
        }
    }

    /// All actions, in menu order; the last one leaves the menu.
    pub fn commands() -> (r: Vec<Command>)
        ensures
            r@ == menu_order(),
    {
        vec![
            Command::TracksInfo,
            Command::Duplicates,
            Command::Decades,
            Command::Genres,
            Command::Exit,
        ]
    }

    /// The label shown for this action.
    pub fn to_string(&self) -> (r: String)
        ensures
            r@ == self.label(),
    {
        let label = match self {
            Command::TracksInfo => "Show information about top artists from your library",
            Command::Duplicates => "Remove duplicates from liked songs or from a playlist",
            Command::Decades => "Categorize your liked songs based on their release decade",
            Command::Genres => "Categorize your liked songs based on their artist's genre",
            Command::Exit => "Exit",
        };
        String::from_str(label)
    }

    /// Whether choosing this action leaves the menu.
    pub fn is_exit(&self) -> (r: bool)
        ensures
            r == (*self == Command::Exit),
    {
        match self {
            Command::Exit => true,
            _ => false,
        }
    }
}

} // verus!
