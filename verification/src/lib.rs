//! A circular single-train transit line: passengers wait at stations, board the
//! train when it stops, ride in the car of their destination and leave when the
//! train reaches it.

pub mod command;
pub mod error;
pub mod laws;
pub mod line;
pub mod passenger;
pub mod passenger_queue;
pub mod state;
pub mod text;

use crate::command::{boarding_of, command_of, Command};
use crate::error::SimError;
use crate::line::report_text;
use crate::state::State;
use crate::text::{
    chars_of, fields, parse_index, push_decimal, split_fields, str_texts, texts, trim, trimmed,
};
use vstd::prelude::*;
use vstd::string::StringExecFns;

verus! {

/// Where a run of the simulation finds its input and puts its output.
pub struct Config {
    /// The file of station names, one on each line.
    pub stations_file: String,
    /// The file that receives what is reported of each move of the train.
    pub output_file: String,
    /// The file of commands, where there is one.
    pub commands_file: String,
    /// Whether the commands come from `commands_file`.
    pub commands_file_incl: bool,
}

impl Config {
    /// Reads the configuration off the program's arguments: the program's own
    /// name, the stations file, the output file and, where the commands are
    /// not typed in, the commands file. Further arguments do not count.
    pub fn new(args: Vec<String>) -> (r: Result<Config, &'static str>)
        ensures
            args@.len() <= 1 ==> r is Err && r->Err_0@ == "No stations file provided"@,
            args@.len() == 2 ==> r is Err && r->Err_0@ == "No outfile provided"@,
            args@.len() >= 3 ==> {
                &&& r is Ok
                &&& r->Ok_0.stations_file@ == args@[1]@
                &&& r->Ok_0.output_file@ == args@[2]@
                &&& r->Ok_0.commands_file_incl == (args@.len() >= 4)
                &&& r->Ok_0.commands_file@ == if args@.len() >= 4 {
                    args@[3]@
                } else {
                    Seq::<char>::empty()
                }
            },
    {
        if args.len() < 2 {
            return Err("No stations file provided");
        }
        if args.len() < 3 {
            return Err("No outfile provided");
        }
        let stations_file = args[1].clone();
        let output_file = args[2].clone();
        if args.len() >= 4 {
            let commands_file = args[3].clone();
            Ok(Config { stations_file, output_file, commands_file, commands_file_incl: true })
        } else {
            let commands_file = String::new();
            Ok(Config { stations_file, output_file, commands_file, commands_file_incl: false })
        }
    }
}

/// What a command did.
#[derive(Debug, PartialEq, Eq)]
pub enum Outcome {
    /// A passenger was registered and waits at its station.
    Boarded,
    /// The train moved on; the text is what is reported of that move.
    Moved(String),
    /// The simulation is over.
    Finished,
}

/// Registers the passenger that the fields behind `p` spell: its origin and
/// its destination, two station indices and nothing more. Fields that spell
/// no boarding are refused as malformed, stations that the line does not
/// have as unknown; either way the line stays as it was.
pub fn add_passenger(state: &mut State, stations: Vec<&str>) -> (r: Result<(), SimError>)
    requires
        old(state).wf(),
        match boarding_of(str_texts(stations@)) {
            Some((origin, destination)) => old(state)@.has_id_for(
                Command::Board { origin, destination },
            ),
            None => true,
        },
    ensures
        final(state).wf(),
        match boarding_of(str_texts(stations@)) {
            None => {
                &&& r == Err::<(), SimError>(SimError::MalformedCommand)
                &&& *final(state) == *old(state)
            },
            Some((origin, destination)) => if old(state)@.serves(origin, destination) {
                &&& r == Ok::<(), SimError>(())
                &&& final(state)@ == old(state)@.board(origin, destination)
            } else {
                &&& r == Err::<(), SimError>(SimError::UnknownStation)
                &&& *final(state) == *old(state)
            },
        },
{
    if stations.len() != 2 {
        return Err(SimError::MalformedCommand);
    }
    let start = match parse_index(stations[0]) {
        Some(i) => i,
        None => {
            return Err(SimError::MalformedCommand);
        },
    };
    let end = match parse_index(stations[1]) {
        Some(i) => i,
        None => {
            return Err(SimError::MalformedCommand);
        },
    };
    state.add_passenger(start, end)
}

/// Moves the train on by one station and returns the report of that move:
/// one report, naming the station reached, for each passenger who left the
/// train there, in the order in which they left. A line without stations has
/// nowhere to move to.
pub fn move_train(state: &mut State) -> (r: Result<String, SimError>)
    requires
        old(state).wf(),
    ensures
        final(state).wf(),
        old(state).num_stations > 0 ==> {
            &&& r is Ok
            &&& r->Ok_0@ == old(state)@.leaving_report()
            &&& final(state)@ == old(state)@.advance()
        },
        old(state).num_stations == 0 ==> {
            &&& r == Err::<String, SimError>(SimError::UnknownStation)
            &&& *final(state) == *old(state)
        },
{
    let left = match state.advance() {
        Ok(left) => left,
        Err(e) => {
            return Err(e);
        },
    };
    let ghost station = old(state)@.names[old(state)@.next_stop() as int];
    let mut report = String::new();
    let mut k: usize = 0;
    while k < left.len()
        invariant
            k <= left@.len(),
            state.wf(),
            state.num_stations > 0,
            state@.names == old(state)@.names,
            state.train_loc == old(state)@.next_stop(),
            station == old(state)@.names[old(state)@.next_stop() as int],
            forall|j: int|
                0 <= j < left@.len() ==> (#[trigger] left@[j]).departure == state.train_loc,
            report@ == report_text(left@.take(k as int), station),
        decreases left@.len() - k,
    {
        let p = left[k];
        assert(p.departure == state.train_loc);
        report.append("Passenger ");
        push_decimal(&mut report, p.id as u64);
        report.append(" left train at station ");
        match state.station_map.get(&p.departure) {
            Some(name) => {
                assert(name@ == state@.names[p.departure as int]);
                report.append(name.as_str());
            },
            None => {
                assert(false);
            },
        }
        proof {
            let next = left@.take(k + 1);
            assert(next.drop_last() =~= left@.take(k as int));
            assert(next.last() == p);
        }
        k += 1;
    }
    assert(left@.take(k as int) =~= left@);
    Ok(report)
}

/// Carries out one line of input.
///
/// The line is read as [`command_of`] says. A line that spells no command is
/// refused as malformed; a boarding between stations that the line does not
/// have, and a move on a line without stations, are refused as unknown
/// stations. A refused line changes nothing. Otherwise the line of stations
/// goes from `old` to `old.step(command)`, and the outcome says which
/// command it was; for a move it carries the report of that move.
pub fn parse_and_execute(state: &mut State, command: String) -> (r: Result<Outcome, SimError>)
    requires
        old(state).wf(),
        match command_of(command@) {
            Some(c) => old(state)@.has_id_for(c),
            None => true,
        },
    ensures
        final(state).wf(),
        match command_of(command@) {
            None => {
                &&& r == Err::<Outcome, SimError>(SimError::MalformedCommand)
                &&& *final(state) == *old(state)
            },
            Some(c) => if old(state)@.accepts(c) {
                &&& final(state)@ == old(state)@.step(c)
                &&& match c {
                    Command::Board { origin, destination } => r == Ok::<Outcome, SimError>(
                        Outcome::Boarded,
                    ),
                    Command::Advance => {
                        &&& r matches Ok(Outcome::Moved(report))
                        &&& report@ == old(state)@.leaving_report()
                    },
                    Command::Finish => {
                        &&& r == Ok::<Outcome, SimError>(Outcome::Finished)
                        &&& *final(state) == *old(state)
                    },
                }
            } else {
                &&& r == Err::<Outcome, SimError>(SimError::UnknownStation)
                &&& *final(state) == *old(state)
            },
        },
{
    let chars = chars_of(command.as_str());
    let line = trim(&chars);
    let words = split_fields(&line);
    let p = String::from_str("p");
    let m = String::from_str("m");
    let f = String::from_str("f");
    assert(texts(words@) == fields(trimmed(command@)));
    assert(words@.len() > 0) by {
        assert(texts(words@).len() == words@.len());
    }
    assert(texts(words@)[0] == words@[0]@);
    if words[0] == p {
        let mut stations: Vec<&str> = Vec::new();
        let mut k: usize = 1;
        while k < words.len()
            invariant
                1 <= k <= words@.len(),
                stations@.len() == k - 1,
                forall|j: int| 0 <= j < k - 1 ==> (#[trigger] stations@[j])@ == words@[j + 1]@,
            decreases words@.len() - k,
        {
            stations.push(words[k].as_str());
            k += 1;
        }
        assert(str_texts(stations@) =~= texts(words@).skip(1));
        match add_passenger(state, stations) {
            Ok(()) => Ok(Outcome::Boarded),
            Err(e) => Err(e),
        }
    } else if words.len() == 2 && words[0] == m && words[1] == m {
        assert(texts(words@)[1] == words@[1]@);
        match move_train(state) {
            Ok(report) => Ok(Outcome::Moved(report)),
            Err(e) => Err(e),
        }
    } else if words.len() == 2 && words[0] == m && words[1] == f {
        assert(texts(words@)[1] == words@[1]@);
        Ok(Outcome::Finished)
    } else {
        proof {
            if words@.len() == 2 {
                assert(texts(words@)[1] == words@[1]@);
            }
        }
        Err(SimError::MalformedCommand)
    }
}

} // verus!
