//! The line as it runs: the stations' queues, the train's cars, where the train
//! stands, and the table of station names.

use crate::error::SimError;
use crate::laws::{
    lemma_advance_keeps_wf, lemma_board_all_push, lemma_board_keeps_wf, lemma_opening_wf,
};
use crate::line::{board_all, cars_text, LineView};
use crate::passenger::Passenger;
use crate::passenger_queue::PassengerQueue;
use crate::text::{lines, lines_of, push_decimal, texts};
use std::collections::HashMap;
use vstd::prelude::*;
use vstd::string::StringExecFns;

verus! {

/// The passengers of each queue of a row, queue by queue.
pub open spec fn queues_view(queues: Seq<PassengerQueue>) -> Seq<Seq<Passenger>> {
    Seq::new(queues.len(), |i: int| queues[i]@)
}

/// A line and its train.
pub struct State {
    /// The display name of each station, keyed by station index.
    pub station_map: HashMap<usize, String>,
    /// The number of stations; the train has as many cars.
    pub num_stations: usize,
    /// How many passengers have been registered so far; the next one's id.
    pub curr_passenger_num: u32,
    /// The cars; car `d` carries the passengers bound for station `d`.
    pub train: Vec<PassengerQueue>,
    /// The station at which the train stands.
    pub train_loc: usize,
    /// The waiting queue of each station.
    pub stations: Vec<PassengerQueue>,
}

impl View for State {
    type V = LineView;

    open spec fn view(&self) -> LineView {
        LineView {
            names: Seq::new(self.num_stations as nat, |i: int| self.station_map@[i as usize]@),
            stations: queues_view(self.stations@),
            train: queues_view(self.train@),
            train_loc: self.train_loc as nat,
            issued: self.curr_passenger_num as nat,
        }
    }
}

impl State {
    /// The invariant of the running line: every station index below
    /// `num_stations`, and no other, has a name; and the line is well formed.
    pub open spec fn wf(&self) -> bool {
        &&& forall|i: usize| self.station_map@.contains_key(i) <==> i < self.num_stations
        &&& self@.wf()
    }

    /// A line without stations: nothing waits, nothing rides, no passenger
    /// has been registered.
    pub fn new() -> (s: State)
        ensures
            s.wf(),
            s@ == LineView::opening(Seq::empty()),
    {
        let s = State {
            station_map: HashMap::new(),
            num_stations: 0,
            curr_passenger_num: 0,
            train: Vec::new(),
            train_loc: 0,
            stations: Vec::new(),
        };
        proof {
            assert(s@.names =~= Seq::empty());
            assert(s@.stations =~= Seq::empty());
            assert(s@.train =~= Seq::empty());
            assert(s@ =~= LineView::opening(Seq::empty()));
            lemma_opening_wf(Seq::empty());
        }
        s
    }

    /// A line whose stations are named by the lines of `station_names`, the
    /// first line naming station 0: nobody waits, nobody rides, and the train
    /// stands at station 0. The line on which this is called stays as it is.
    pub fn initialize_stations(&mut self, station_names: &str) -> (s: State)
        ensures
            *final(self) == *old(self),
            s.wf(),
            s@ == LineView::opening(lines_of(station_names@)),
    {
        let names = lines(station_names);
        let mut state = State::new();
        let mut i: usize = 0;
        while i < names.len()
            invariant
                i <= names@.len(),
                state.num_stations == 0,
                state.train_loc == 0,
                state.curr_passenger_num == 0,
                state.stations@.len() == i,
                state.train@.len() == i,
                forall|k: usize| state.station_map@.contains_key(k) <==> k < i,
                forall|k: int|
                    0 <= k < i ==> (#[trigger] state.station_map@[k as usize])@ == names@[k]@,
                forall|k: int|
                    0 <= k < i ==> (#[trigger] state.stations@[k])@ == Seq::<Passenger>::empty(),
                forall|k: int|
                    0 <= k < i ==> (#[trigger] state.train@[k])@ == Seq::<Passenger>::empty(),
            decreases names@.len() - i,
        {
            state.station_map.insert(i, names[i].clone());
            state.stations.push(PassengerQueue::new());
            state.train.push(PassengerQueue::new());
            i += 1;
        }
        state.num_stations = names.len();
        proof {
            let opening = LineView::opening(lines_of(station_names@));
            assert(texts(names@) == lines_of(station_names@));
            assert forall|k: int| 0 <= k < names@.len() implies #[trigger] state@.names[k]
                == opening.names[k] by {
                assert(state.station_map@[k as usize]@ == names@[k]@);
                assert(texts(names@)[k] == names@[k]@);
            }
            assert(state@.names =~= opening.names);
            assert(state@.stations =~= opening.stations);
            assert(state@.train =~= opening.train);
            assert(state@ =~= opening);
            lemma_opening_wf(lines_of(station_names@));
        }
        state
    }

    /// Registers a passenger who arrives at station `start`, bound for
    /// station `end`, and puts it at the back of that station's queue, under
    /// the next id. Where `start` or `end` is no station of the line, the
    /// boarding is refused and nothing changes.
    pub fn add_passenger(&mut self, start: usize, end: usize) -> (r: Result<(), SimError>)
        requires
            old(self).wf(),
            old(self)@.serves(start, end) ==> old(self)@.issued < u32::MAX,
        ensures
            final(self).wf(),
            old(self)@.serves(start, end) ==> {
                &&& r == Ok::<(), SimError>(())
                &&& final(self)@ == old(self)@.board(start, end)
                &&& final(self)@.population() == old(self)@.population().insert(
                    old(self)@.newcomer(start, end),
                )
            },
            !old(self)@.serves(start, end) ==> {
                &&& r == Err::<(), SimError>(SimError::UnknownStation)
                &&& *final(self) == *old(self)
            },
    {
        if start >= self.num_stations || end >= self.num_stations {
            return Err(SimError::UnknownStation);
        }
        let p = Passenger { id: self.curr_passenger_num, arrival: start, departure: end };
        self.stations[start].enqueue(p);
        self.curr_passenger_num += 1;
        proof {
            assert(self@.stations =~= old(self)@.board(start, end).stations);
            assert(self@.train =~= old(self)@.train);
            assert(self@.names =~= old(self)@.names);
            assert(self@ =~= old(self)@.board(start, end));
            lemma_board_keeps_wf(old(self)@, start, end);
        }
        Ok(())
    }

    /// Moves the train on by one station. Everyone who waits where the train
    /// stands steps in, front first, each into the car of its destination;
    /// the train moves to the next station, the first after the last; there
    /// the car of that station empties, front first. Returns those who left,
    /// in the order in which they left. A line without stations has nowhere
    /// to move to.
    pub fn advance(&mut self) -> (r: Result<Vec<Passenger>, SimError>)
        requires
            old(self).wf(),
        ensures
            final(self).wf(),
            old(self).num_stations > 0 ==> {
                &&& r is Ok
                &&& r->Ok_0@ == old(self)@.leaving()
                &&& final(self)@ == old(self)@.advance()
                &&& forall|k: int|
                    0 <= k < r->Ok_0@.len() ==> (#[trigger] r->Ok_0@[k]).departure
                        == final(self).train_loc
                &&& old(self)@.population() == final(self)@.population().add(
                    r->Ok_0@.to_multiset(),
                )
            },
            old(self).num_stations == 0 ==> {
                &&& r == Err::<Vec<Passenger>, SimError>(SimError::UnknownStation)
                &&& *final(self) == *old(self)
            },
    {
        if self.num_stations == 0 {
            return Err(SimError::UnknownStation);
        }
        let here = self.train_loc;
        let ghost before = self@;
        let ghost waiting = before.stations[here as int];
        let ghost boarded: int = 0;
        loop
            invariant_except_break
                self.stations@[here as int]@ == waiting.skip(boarded),
            invariant
                0 <= boarded <= waiting.len(),
                before == old(self)@,
                before.wf(),
                waiting == before.stations[here as int],
                here == before.train_loc,
                here < self.num_stations,
                self.num_stations == old(self).num_stations,
                self.station_map == old(self).station_map,
                self.train_loc == old(self).train_loc,
                self.curr_passenger_num == old(self).curr_passenger_num,
                self.stations@.len() == self.num_stations,
                self.train@.len() == self.num_stations,
                forall|i: int|
                    0 <= i < self.stations@.len() && i != here ==> self.stations@[i]@
                        == before.stations[i],
                queues_view(self.train@) == board_all(before.train, waiting.take(boarded)),
            ensures
                self.stations@[here as int]@.len() == 0,
                boarded == waiting.len(),
            decreases waiting.len() - boarded,
        {
            match self.stations[here].front() {
                Err(_) => {
                    break ;
                },
                Ok(p) => {
                    proof {
                        assert(p == waiting[boarded]);
                        assert(p.departure < self.num_stations);
                        lemma_board_all_push(before.train, waiting.take(boarded), p);
                        assert(waiting.take(boarded).push(p) =~= waiting.take(boarded + 1));
                    }
                    let ghost cars = queues_view(self.train@);
                    self.train[p.departure].enqueue(p);
                    let _ = self.stations[here].dequeue();
                    proof {
                        assert(queues_view(self.train@) =~= cars.update(
                            p.departure as int,
                            cars[p.departure as int].push(p),
                        ));
                        assert(waiting.skip(boarded).drop_first() =~= waiting.skip(boarded + 1));
                        boarded = boarded + 1;
                    }
                },
            }
        }
        proof {
            assert(waiting.take(boarded) =~= waiting);
            assert(self.stations@[here as int]@ =~= Seq::empty());
            assert(queues_view(self.stations@) =~= before.advance().stations);
        }
        self.train_loc = (self.train_loc + 1) % self.num_stations;
        let there = self.train_loc;
        let ghost car = before.leaving();
        let ghost left_count: int = 0;
        let mut left: Vec<Passenger> = Vec::new();
        loop
            invariant_except_break
                self.train@[there as int]@ == car.skip(left_count),
            invariant
                0 <= left_count <= car.len(),
                left@ == car.take(left_count),
                before == old(self)@,
                before.wf(),
                car == before.leaving(),
                there == before.next_stop(),
                there < self.num_stations,
                self.train_loc == there,
                self.num_stations == old(self).num_stations,
                self.station_map == old(self).station_map,
                self.curr_passenger_num == old(self).curr_passenger_num,
                self.stations@.len() == self.num_stations,
                self.train@.len() == self.num_stations,
                queues_view(self.stations@) == before.advance().stations,
                forall|d: int|
                    0 <= d < self.train@.len() && d != there ==> self.train@[d]@
                        == before.loaded_train()[d],
            ensures
                self.train@[there as int]@.len() == 0,
                left_count == car.len(),
            decreases car.len() - left_count,
        {
            match self.train[there].front() {
                Err(_) => {
                    break ;
                },
                Ok(p) => {
                    left.push(p);
                    let _ = self.train[there].dequeue();
                    proof {
                        assert(car.take(left_count).push(p) =~= car.take(left_count + 1));
                        assert(car.skip(left_count).drop_first() =~= car.skip(left_count + 1));
                        left_count = left_count + 1;
                    }
                },
            }
        }
        proof {
            assert(car.take(left_count) =~= car);
            assert(self.train@[there as int]@ =~= Seq::empty());
            assert(self@.train =~= before.advance().train);
            assert(self@.names =~= before.names);
            assert(self@ =~= before.advance());
            lemma_advance_keeps_wf(before);
        }
        Ok(left)
    }

    /// The row of station `i` in a snapshot.
    fn station_row(&self, i: usize) -> (s: String)
        requires
            i < self.num_stations,
            self.stations@.len() == self.num_stations,
            forall|k: usize| self.station_map@.contains_key(k) <==> k < self.num_stations,
        ensures
            s@ == self@.station_text(i as int),
    {
        let mut s = if i == self.train_loc {
            String::from_str("TRAIN: ")
        } else {
            String::from_str("       ")
        };
        s.append("[");
        push_decimal(&mut s, i as u64);
        s.append("] ");
        match self.station_map.get(&i) {
            Some(name) => {
                s.append(name.as_str());
            },
            None => {
                assert(false);
            },
        }
        s.append(" {");
        let queue = self.stations[i].to_string();
        s.append(queue.as_str());
        s.append("}\n");
        s
    }

    /// The snapshot of the line: first who is on the train, car after car,
    /// then one row for each station in index order, with a mark where the
    /// train stands, the station's name and its waiting queue.
    pub fn snapshot(&self) -> (s: String)
        requires
            self.wf(),
        ensures
            s@ == self@.snapshot_text(),
    {
        let mut s = String::from_str("Passengers on the train: {");
        let ghost opening = s@;
        let mut d: usize = 0;
        while d < self.train.len()
            invariant
                d <= self.train@.len(),
                s@ == opening + cars_text(self@.train.take(d as int)),
            decreases self.train@.len() - d,
        {
            let car = self.train[d].to_string();
            s.append(car.as_str());
            proof {
                let next = self@.train.take(d + 1);
                assert(next.drop_last() =~= self@.train.take(d as int));
                assert(next.last() == self.train@[d as int]@);
            }
            d += 1;
        }
        assert(self@.train.take(d as int) =~= self@.train);
        s.append("}\n");
        let ghost head = s@;
        let mut i: usize = 0;
        while i < self.num_stations
            invariant
                i <= self.num_stations,
                self.stations@.len() == self.num_stations,
                forall|k: usize| self.station_map@.contains_key(k) <==> k < self.num_stations,
                s@ == head + self@.stations_text(i as nat),
            decreases self.num_stations - i,
        {
            let row = self.station_row(i);
            s.append(row.as_str());
            assert(s@ =~= head + (self@.stations_text(i as nat) + self@.station_text(i as int)));
            i += 1;
        }
        s
    }
}

} // verus!
