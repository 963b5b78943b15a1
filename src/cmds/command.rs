//! A reduced menu: information about the saved tracks, and exit.
use vstd::prelude::*;

verus! {

/// An action of the reduced menu.
#[derive(Clone, Copy, Debug, PartialEq, Eq, Structural)]
pub enum Command {
    TracksInfo,
    Exit,
}

impl Command {
    /// The label under which the reduced menu shows this action.
    pub open spec fn label(self) -> Seq<char> {
        match self {
            Command::TracksInfo => "Show information about saved tracks"@,
            Command::Exit => "Exit"@,
        }
    }

    /// Both actions, the one that leaves the menu last.
    pub fn commands() -> (r: Vec<Command>)
        ensures
            r@ == seq![Command::TracksInfo, Command::Exit],
    {
        vec![Command::TracksInfo, Command::Exit]
    }

    /// The label shown for this action.
    pub fn to_string(&self) -> (r: String)
        ensures
            r@ == self.label(),
    {
        let label = match self {
            Command::TracksInfo => "Show information about saved tracks",
            Command::Exit => "Exit",
        };
        String::from_str(label)
    }
}

} // verus!
