//! The line as a mathematical value, and the two steps that change it.
//!
//! Everything the executable state promises is stated over [`LineView`]: a
//! boarding is [`LineView::board`], a move of the train is
//! [`LineView::advance`], and the passengers who leave the train at that move
//! are [`LineView::leaving`].

use crate::command::Command;
use crate::passenger::Passenger;
use crate::passenger_queue::queue_text;
use crate::text::decimal;
use vstd::multiset::Multiset;
use vstd::prelude::*;

verus! {

/// The passengers held by a row of queues, each counted as often as it occurs.
pub open spec fn riders(queues: Seq<Seq<Passenger>>) -> Multiset<Passenger>
    decreases queues.len(),
{
    if queues.len() == 0 {
        Multiset::empty()
    } else {
        riders(queues.drop_last()).add(queues.last().to_multiset())
    }
}

/// How many passengers a row of queues holds: the lengths of its queues, added
/// up.
pub open spec fn headcount(queues: Seq<Seq<Passenger>>) -> nat
    decreases queues.len(),
{
    if queues.len() == 0 {
        0
    } else {
        headcount(queues.drop_last()) + queues.last().len()
    }
}

/// The cars after everyone in `waiting` has stepped in, front first: each car
/// keeps what it held and receives, in their order of waiting, the passengers
/// whose destination it serves.
pub open spec fn board_all(cars: Seq<Seq<Passenger>>, waiting: Seq<Passenger>) -> Seq<
    Seq<Passenger>,
> {
    Seq::new(cars.len(), |d: int| cars[d] + waiting.filter(|p: Passenger| p.departure == d))
}

/// How the riders of a train are written in a snapshot: car after car, each
/// car as its queue.
pub open spec fn cars_text(cars: Seq<Seq<Passenger>>) -> Seq<char>
    decreases cars.len(),
{
    if cars.len() == 0 {
        Seq::empty()
    } else {
        cars_text(cars.drop_last()) + queue_text(cars.last())
    }
}

/// What is reported of one passenger who leaves the train at `station`.
pub open spec fn report_line(p: Passenger, station: Seq<char>) -> Seq<char> {
    "Passenger "@ + decimal(p.id as nat) + " left train at station "@ + station
}

/// What is reported of the passengers who leave the train at `station`, in
/// the order in which they leave: one report each, with nothing between
/// them.
pub open spec fn report_text(leaving: Seq<Passenger>, station: Seq<char>) -> Seq<char>
    decreases leaving.len(),
{
    if leaving.len() == 0 {
        Seq::empty()
    } else {
        report_text(leaving.drop_last(), station) + report_line(leaving.last(), station)
    }
}

/// A line at one moment.
#[verifier::ext_equal]
pub struct LineView {
    /// The display name of each station, by station index.
    pub names: Seq<Seq<char>>,
    /// The waiting queue of each station, front first.
    pub stations: Seq<Seq<Passenger>>,
    /// The cars of the train, front first; car `d` carries to station `d`.
    pub train: Seq<Seq<Passenger>>,
    /// The station at which the train stands.
    pub train_loc: nat,
    /// How many passengers have been registered so far; the next id.
    pub issued: nat,
}

impl LineView {
    /// The line on its first day: the stations carry `names`, in that order;
    /// nobody waits, nobody rides, nobody has been registered; the train
    /// stands at the first station.
    pub open spec fn opening(names: Seq<Seq<char>>) -> LineView {
        LineView {
            names,
            stations: Seq::new(names.len(), |i: int| Seq::empty()),
            train: Seq::new(names.len(), |i: int| Seq::empty()),
            train_loc: 0,
            issued: 0,
        }
    }

    /// The number of stations, which is also the number of cars.
    pub open spec fn num_stations(self) -> nat {
        self.names.len()
    }

    /// Everyone in the system: on a platform or in a car.
    pub open spec fn population(self) -> Multiset<Passenger> {
        riders(self.stations).add(riders(self.train))
    }

    /// The invariant of a line. One queue and one car per station; the train
    /// stands at a station (at index 0 while the line has none); whoever waits
    /// at a station arrived there and is bound for a station of the line;
    /// whoever rides in a car is bound for that car's station; every passenger
    /// is in the system once, under an id of its own that was already issued.
    pub open spec fn wf(self) -> bool {
        &&& self.stations.len() == self.names.len()
        &&& self.train.len() == self.names.len()
        &&& self.train_loc < self.names.len() || (self.names.len() == 0 && self.train_loc == 0)
        &&& self.issued <= u32::MAX
        &&& forall|i: int, j: int|
            0 <= i < self.stations.len() && 0 <= j < self.stations[i].len() ==> {
                &&& (#[trigger] self.stations[i][j]).arrival == i
                &&& self.stations[i][j].departure < self.names.len()
            }
        &&& forall|d: int, j: int|
            0 <= d < self.train.len() && 0 <= j < self.train[d].len() ==> {
                &&& (#[trigger] self.train[d][j]).departure == d
                &&& self.train[d][j].arrival < self.names.len()
            }
        &&& forall|p: Passenger| #[trigger] self.population().count(p) <= 1
        &&& forall|p: Passenger| #[trigger] self.population().count(p) > 0 ==> p.id < self.issued
        &&& forall|p: Passenger, q: Passenger|
            #[trigger] self.population().count(p) > 0 && #[trigger] self.population().count(q) > 0
                && p.id == q.id ==> p == q
    }

    /// The passenger that the next boarding at `origin` for `destination` registers.
    pub open spec fn newcomer(self, origin: usize, destination: usize) -> Passenger {
        Passenger { id: self.issued as u32, arrival: origin, departure: destination }
    }

    /// Whether a passenger can board at `origin` for `destination`: both are
    /// stations of the line.
    pub open spec fn serves(self, origin: usize, destination: usize) -> bool {
        origin < self.num_stations() && destination < self.num_stations()
    }

    /// The line after a passenger has arrived at `origin`, bound for
    /// `destination`: it stands at the back of that station's queue, under the
    /// next id.
    pub open spec fn board(self, origin: usize, destination: usize) -> LineView {
        LineView {
            stations: self.stations.update(
                origin as int,
                self.stations[origin as int].push(self.newcomer(origin, destination)),
            ),
            issued: self.issued + 1,
            ..self
        }
    }

    /// The station after the one at which the train stands; after the last
    /// comes the first.
    pub open spec fn next_stop(self) -> nat {
        ((self.train_loc + 1) % self.num_stations()) as nat
    }

    /// The cars once everyone waiting where the train stands has stepped in.
    pub open spec fn loaded_train(self) -> Seq<Seq<Passenger>> {
        board_all(self.train, self.stations[self.train_loc as int])
    }

    /// The passengers who leave the train at its next move, in the order in
    /// which they leave: the whole car of the next stop, front first.
    pub open spec fn leaving(self) -> Seq<Passenger> {
        self.loaded_train()[self.next_stop() as int]
    }

    /// What is reported of the train's next move: a report for each passenger
    /// who leaves, naming the station that the train reaches.
    pub open spec fn leaving_report(self) -> Seq<char> {
        report_text(self.leaving(), self.names[self.next_stop() as int])
    }

    /// The line after the train has moved on by one station: the platform it
    /// left is empty, its passengers sit in the cars of their destinations,
    /// and the car of the station it reached is empty.
    pub open spec fn advance(self) -> LineView {
        LineView {
            stations: self.stations.update(self.train_loc as int, Seq::empty()),
            train: self.loaded_train().update(self.next_stop() as int, Seq::empty()),
            train_loc: self.next_stop(),
            ..self
        }
    }
}

impl LineView {
    /// Whether the line can carry out `c`: a boarding needs two stations of
    /// the line, a move needs a line with stations, and the end of the
    /// simulation needs nothing.
    pub open spec fn accepts(self, c: Command) -> bool {
        match c {
            Command::Board { origin, destination } => self.serves(origin, destination),
            Command::Advance => self.num_stations() > 0,
            Command::Finish => true,
        }
    }

    /// Whether the line has an id left for the passenger that `c` registers,
    /// where `c` registers one: ids are 32-bit numbers, and none is used
    /// twice.
    pub open spec fn has_id_for(self, c: Command) -> bool {
        c is Board && self.accepts(c) ==> self.issued < u32::MAX
    }

    /// The line after `c`. A command that the line cannot carry out, and the
    /// end of the simulation, leave it as it is.
    pub open spec fn step(self, c: Command) -> LineView {
        match c {
            Command::Board { origin, destination } => if self.serves(origin, destination) {
                self.board(origin, destination)
            } else {
                self
            },
            Command::Advance => if self.num_stations() > 0 {
                self.advance()
            } else {
                self
            },
            Command::Finish => self,
        }
    }

    /// The line after the commands `cs`, carried out from first to last.
    pub open spec fn run(self, cs: Seq<Command>) -> LineView
        decreases cs.len(),
    {
        if cs.len() == 0 {
            self
        } else {
            self.run(cs.drop_last()).step(cs.last())
        }
    }
}

impl LineView {
    /// How many passengers the commands `cs`, carried out from this line on,
    /// registered: one for each boarding that the line could carry out when
    /// its turn came.
    pub open spec fn boarded_during(self, cs: Seq<Command>) -> nat
        decreases cs.len(),
    {
        if cs.len() == 0 {
            0
        } else {
            let before = self.run(cs.drop_last());
            self.boarded_during(cs.drop_last()) + if cs.last() is Board && before.accepts(
                cs.last(),
            ) {
                1nat
            } else {
                0nat
            }
        }
    }

    /// How many passengers left the train while the commands `cs` were
    /// carried out from this line on.
    pub open spec fn left_during(self, cs: Seq<Command>) -> nat
        decreases cs.len(),
    {
        if cs.len() == 0 {
            0
        } else {
            let before = self.run(cs.drop_last());
            self.left_during(cs.drop_last()) + if cs.last() is Advance && before.accepts(
                cs.last(),
            ) {
                before.leaving().len()
            } else {
                0nat
            }
        }
    }
}

impl LineView {
    /// How station `i` is written in a snapshot: a mark if the train stands
    /// there, the index in brackets, the name, and the waiting queue in
    /// braces.
    pub open spec fn station_text(self, i: int) -> Seq<char> {
        (if i == self.train_loc {
            "TRAIN: "@
        } else {
            "       "@
        }) + "["@ + decimal(i as nat) + "] "@ + self.names[i] + " {"@ + queue_text(
            self.stations[i],
        ) + "}\n"@
    }

    /// The first `upto` stations as a snapshot writes them, in index order.
    pub open spec fn stations_text(self, upto: nat) -> Seq<char>
        decreases upto,
    {
        if upto == 0 {
            Seq::empty()
        } else {
            self.stations_text((upto - 1) as nat) + self.station_text(upto - 1)
        }
    }

    /// The snapshot of the line: who is on the train, then every station with
    /// its queue.
    pub open spec fn snapshot_text(self) -> Seq<char> {
        "Passengers on the train: {"@ + cars_text(self.train) + "}\n"@ + self.stations_text(
            self.num_stations(),
        )
    }
}

} // verus!
