//! The commands of the line and how a line of input spells them.

use crate::text::{fields, parsed_index, trimmed};
use vstd::prelude::*;

verus! {

/// What a line of input can ask of the line.
#[derive(Clone, Copy, Debug, PartialEq, Eq, Structural)]
pub enum Command {
    /// `p <origin> <destination>`: a passenger arrives at `origin`, bound for
    /// `destination`.
    Board { origin: usize, destination: usize },
    /// `m m`: the train moves on by one station.
    Advance,
    /// `m f`: the simulation ends.
    Finish,
}

/// The boarding that the fields behind `p` spell: exactly two station
/// indices, the origin and the destination.
pub open spec fn boarding_of(stations: Seq<Seq<char>>) -> Option<(usize, usize)> {
    if stations.len() == 2 && parsed_index(stations[0]) is Some && parsed_index(stations[1])
        is Some {
        Some((parsed_index(stations[0])->Some_0, parsed_index(stations[1])->Some_0))
    } else {
        None
    }
}

/// The command that a line of input spells, if it spells one. White space
/// around the line does not count; the fields are separated by single
/// blanks; and the line is `p` with two station indices, `m m` or `m f`,
/// with nothing missing and nothing more.
pub open spec fn command_of(line: Seq<char>) -> Option<Command> {
    let words = fields(trimmed(line));
    if words[0] == "p"@ {
        match boarding_of(words.skip(1)) {
            Some((origin, destination)) => Some(Command::Board { origin, destination }),
            None => None,
        }
    } else if words.len() == 2 && words[0] == "m"@ && words[1] == "m"@ {
        Some(Command::Advance)
    } else if words.len() == 2 && words[0] == "m"@ && words[1] == "f"@ {
        Some(Command::Finish)
    } else {
        None
    }
}

} // verus!
