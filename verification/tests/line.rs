use metrosim::error::SimError;
use metrosim::move_train;
use metrosim::passenger::Passenger;
use metrosim::state::State;

fn rider(id: u32, arrival: usize, departure: usize) -> Passenger {
    Passenger { id, arrival, departure }
}

fn line_abc() -> State {
    State::new().initialize_stations("A\nB\nC\n")
}

fn waiting(state: &State, station: usize) -> Vec<Passenger> {
    state.stations[station].passenger_list.clone()
}

fn riding(state: &State, car: usize) -> Vec<Passenger> {
    state.train[car].passenger_list.clone()
}

fn headcount(state: &State) -> usize {
    let on_platforms: usize = state.stations.iter().map(|q| q.passenger_list.len()).sum();
    let on_train: usize = state.train.iter().map(|q| q.passenger_list.len()).sum();
    on_platforms + on_train
}

#[test]
fn blank_state_has_nothing() {
    let state = State::new();
    assert_eq!(state.num_stations, 0);
    assert_eq!(state.train_loc, 0);
    assert_eq!(state.curr_passenger_num, 0);
    assert!(state.station_map.is_empty());
    assert!(state.stations.is_empty());
    assert!(state.train.is_empty());
}

#[test]
fn stations_are_numbered_in_file_order() {
    let state = line_abc();
    assert_eq!(state.num_stations, 3);
    assert_eq!(state.stations.len(), 3);
    assert_eq!(state.train.len(), 3);
    assert_eq!(state.train_loc, 0);
    assert_eq!(state.curr_passenger_num, 0);
    assert_eq!(state.station_map.len(), 3);
    assert_eq!(state.station_map[&0], "A");
    assert_eq!(state.station_map[&1], "B");
    assert_eq!(state.station_map[&2], "C");
    assert_eq!(headcount(&state), 0);
}

#[test]
fn initialize_leaves_the_receiver_alone() {
    let mut first = line_abc();
    assert_eq!(first.add_passenger(0, 1), Ok(()));
    let second = first.initialize_stations("X\nY");
    assert_eq!(first.num_stations, 3);
    assert_eq!(waiting(&first, 0), vec![rider(0, 0, 1)]);
    assert_eq!(second.num_stations, 2);
    assert_eq!(second.station_map[&1], "Y");
    assert_eq!(headcount(&second), 0);
}

#[test]
fn boarding_then_one_move() {
    let mut state = line_abc();
    assert_eq!(state.add_passenger(0, 2), Ok(()));
    assert_eq!(waiting(&state, 0), vec![rider(0, 0, 2)]);
    let report = move_train(&mut state);
    assert_eq!(report, Ok(String::new()));
    assert_eq!(state.train_loc, 1);
    assert!(waiting(&state, 0).is_empty());
    assert_eq!(riding(&state, 2), vec![rider(0, 0, 2)]);
}

#[test]
fn second_move_reaches_the_destination() {
    let mut state = line_abc();
    assert_eq!(state.add_passenger(0, 2), Ok(()));
    assert_eq!(move_train(&mut state), Ok(String::new()));
    let report = move_train(&mut state);
    assert_eq!(report, Ok(String::from("Passenger 0 left train at station C")));
    assert_eq!(state.train_loc, 2);
    assert!(riding(&state, 2).is_empty());
    assert_eq!(headcount(&state), 0);
}

#[test]
fn passenger_elsewhere_keeps_waiting() {
    let mut state = line_abc();
    assert_eq!(state.add_passenger(1, 1), Ok(()));
    assert_eq!(move_train(&mut state), Ok(String::new()));
    assert_eq!(state.train_loc, 1);
    assert_eq!(waiting(&state, 1), vec![rider(0, 1, 1)]);
    assert_eq!(headcount(&state), 1);
    // It boards when the train leaves station 1 and rides the whole circle.
    assert_eq!(move_train(&mut state), Ok(String::new()));
    assert_eq!(riding(&state, 1), vec![rider(0, 1, 1)]);
    assert_eq!(move_train(&mut state), Ok(String::new()));
    assert_eq!(
        move_train(&mut state),
        Ok(String::from("Passenger 0 left train at station B"))
    );
    assert_eq!(state.train_loc, 1);
    assert_eq!(headcount(&state), 0);
}

#[test]
fn ids_count_up_and_are_not_reused() {
    let mut state = line_abc();
    assert_eq!(state.add_passenger(0, 1), Ok(()));
    assert_eq!(state.add_passenger(2, 0), Ok(()));
    assert_eq!(move_train(&mut state), Ok(String::from("Passenger 0 left train at station B")));
    assert_eq!(state.add_passenger(0, 1), Ok(()));
    assert_eq!(state.curr_passenger_num, 3);
    assert_eq!(waiting(&state, 0), vec![rider(2, 0, 1)]);
    assert_eq!(waiting(&state, 2), vec![rider(1, 2, 0)]);
}

#[test]
fn unknown_origin_is_refused() {
    let mut state = line_abc();
    assert_eq!(state.add_passenger(3, 0), Err(SimError::UnknownStation));
    assert_eq!(state.curr_passenger_num, 0);
    assert_eq!(headcount(&state), 0);
}

#[test]
fn unknown_destination_is_refused() {
    let mut state = line_abc();
    assert_eq!(state.add_passenger(0, 3), Err(SimError::UnknownStation));
    assert_eq!(state.add_passenger(0, usize::MAX), Err(SimError::UnknownStation));
    assert_eq!(state.curr_passenger_num, 0);
    assert_eq!(headcount(&state), 0);
}

#[test]
fn line_without_stations_refuses_everything() {
    let mut state = State::new().initialize_stations("");
    assert_eq!(state.num_stations, 0);
    assert_eq!(state.add_passenger(0, 0), Err(SimError::UnknownStation));
    assert_eq!(state.advance(), Err(SimError::UnknownStation));
    assert_eq!(move_train(&mut state), Err(SimError::UnknownStation));
    assert_eq!(state.train_loc, 0);
    assert_eq!(state.snapshot(), "Passengers on the train: {}\n");
}

#[test]
fn advance_returns_who_left_in_order() {
    let mut state = line_abc();
    assert_eq!(state.add_passenger(0, 1), Ok(()));
    assert_eq!(state.add_passenger(0, 2), Ok(()));
    assert_eq!(state.add_passenger(0, 1), Ok(()));
    assert_eq!(state.advance(), Ok(vec![rider(0, 0, 1), rider(2, 0, 1)]));
    assert_eq!(state.train_loc, 1);
    assert!(riding(&state, 1).is_empty());
    assert_eq!(riding(&state, 2), vec![rider(1, 0, 2)]);
}

#[test]
fn report_lines_follow_each_other_without_separator() {
    let mut state = line_abc();
    assert_eq!(state.add_passenger(0, 1), Ok(()));
    assert_eq!(state.add_passenger(0, 1), Ok(()));
    assert_eq!(
        move_train(&mut state),
        Ok(String::from(
            "Passenger 0 left train at station BPassenger 1 left train at station B"
        ))
    );
}

#[test]
fn first_in_first_out_through_the_train() {
    let mut state = line_abc();
    // Three for station 2 and one for station 1 between them.
    assert_eq!(state.add_passenger(0, 2), Ok(()));
    assert_eq!(state.add_passenger(0, 2), Ok(()));
    assert_eq!(state.add_passenger(0, 1), Ok(()));
    assert_eq!(state.add_passenger(0, 2), Ok(()));
    assert_eq!(state.advance(), Ok(vec![rider(2, 0, 1)]));
    assert_eq!(
        riding(&state, 2),
        vec![rider(0, 0, 2), rider(1, 0, 2), rider(3, 0, 2)]
    );
    // One more joins at station 1, behind those who ride already.
    assert_eq!(state.add_passenger(1, 2), Ok(()));
    assert_eq!(
        state.advance(),
        Ok(vec![rider(0, 0, 2), rider(1, 0, 2), rider(3, 0, 2), rider(4, 1, 2)])
    );
}

#[test]
fn train_comes_back_after_one_round() {
    for names in ["A", "A\nB", "A\nB\nC", "A\nB\nC\nD\nE\nF\nG"] {
        let mut state = State::new().initialize_stations(names);
        assert_eq!(state.add_passenger(0, 0), Ok(()));
        for start in 0..state.num_stations {
            assert_eq!(state.train_loc, start);
            for _ in 0..state.num_stations {
                assert!(state.advance().is_ok());
            }
            assert_eq!(state.train_loc, start);
            assert!(state.advance().is_ok());
        }
    }
}

#[test]
fn train_moves_one_station_forward_each_time() {
    let mut state = line_abc();
    let mut seen = Vec::new();
    for _ in 0..7 {
        assert!(state.advance().is_ok());
        seen.push(state.train_loc);
    }
    assert_eq!(seen, vec![1, 2, 0, 1, 2, 0, 1]);
}

#[test]
fn single_station_line_carries_round_in_one_move() {
    let mut state = State::new().initialize_stations("Only");
    assert_eq!(state.add_passenger(0, 0), Ok(()));
    assert_eq!(
        move_train(&mut state),
        Ok(String::from("Passenger 0 left train at station Only"))
    );
    assert_eq!(state.train_loc, 0);
    assert_eq!(headcount(&state), 0);
}

#[test]
fn everyone_is_on_a_platform_in_a_car_or_gone() {
    let mut state = State::new().initialize_stations("A\nB\nC\nD");
    let mut boarded = 0;
    let mut gone = 0;
    let plan: [(usize, usize); 9] =
        [(0, 3), (1, 0), (2, 2), (3, 1), (0, 1), (1, 3), (2, 0), (3, 3), (0, 0)];
    for round in 0..5 {
        for (k, (origin, destination)) in plan.iter().enumerate() {
            if (k + round) % 2 == 0 {
                assert_eq!(state.add_passenger(*origin, *destination), Ok(()));
                boarded += 1;
                assert_eq!(headcount(&state) + gone, boarded);
            }
            let left = state.advance().unwrap();
            gone += left.len();
            assert_eq!(headcount(&state) + gone, boarded);
            assert_eq!(state.curr_passenger_num as usize, boarded);
        }
    }
    assert!(gone > 0);
}

#[test]
fn headcount_equals_boardings_while_nobody_has_left() {
    let mut state = line_abc();
    assert_eq!(state.add_passenger(1, 0), Ok(()));
    assert_eq!(headcount(&state), 1);
    assert_eq!(state.add_passenger(2, 1), Ok(()));
    assert_eq!(headcount(&state), 2);
    assert_eq!(state.advance(), Ok(vec![]));
    assert_eq!(headcount(&state), 2);
    assert_eq!(state.add_passenger(2, 2), Ok(()));
    assert_eq!(headcount(&state), 3);
}

#[test]
fn nobody_leaves_before_the_destination() {
    let mut state = State::new().initialize_stations("A\nB\nC\nD");
    assert_eq!(state.add_passenger(0, 3), Ok(()));
    assert_eq!(state.add_passenger(0, 1), Ok(()));
    assert_eq!(state.add_passenger(1, 0), Ok(()));
    assert_eq!(state.add_passenger(2, 3), Ok(()));
    for _ in 0..8 {
        let left = state.advance().unwrap();
        for p in left {
            assert_eq!(p.departure, state.train_loc);
        }
    }
    assert_eq!(headcount(&state), 0);
}

#[test]
fn passengers_sit_in_the_car_of_their_destination() {
    let mut state = State::new().initialize_stations("A\nB\nC\nD");
    assert_eq!(state.add_passenger(0, 2), Ok(()));
    assert_eq!(state.add_passenger(0, 3), Ok(()));
    assert_eq!(state.add_passenger(0, 0), Ok(()));
    assert_eq!(state.advance(), Ok(vec![]));
    for (d, car) in state.train.iter().enumerate() {
        for p in &car.passenger_list {
            assert_eq!(p.departure, d);
        }
    }
    assert_eq!(riding(&state, 0), vec![rider(2, 0, 0)]);
    assert_eq!(riding(&state, 2), vec![rider(0, 0, 2)]);
    assert_eq!(riding(&state, 3), vec![rider(1, 0, 3)]);
}

#[test]
fn snapshot_shows_train_and_stations() {
    let mut state = line_abc();
    assert_eq!(
        state.snapshot(),
        "Passengers on the train: {}\n\
         TRAIN: [0] A {}\n       [1] B {}\n       [2] C {}\n"
    );
    assert_eq!(state.add_passenger(0, 2), Ok(()));
    assert_eq!(state.add_passenger(1, 0), Ok(()));
    assert_eq!(state.add_passenger(0, 1), Ok(()));
    assert_eq!(
        state.snapshot(),
        "Passengers on the train: {}\n\
         TRAIN: [0] A {[0, 0->2][2, 0->1]}\n       [1] B {[1, 1->0]}\n       [2] C {}\n"
    );
    assert_eq!(state.advance(), Ok(vec![rider(2, 0, 1)]));
    assert_eq!(
        state.snapshot(),
        "Passengers on the train: {[0, 0->2]}\n       \
         [0] A {}\nTRAIN: [1] B {[1, 1->0]}\n       [2] C {}\n"
    );
    assert_eq!(state.advance(), Ok(vec![rider(0, 0, 2)]));
    assert_eq!(
        state.snapshot(),
        "Passengers on the train: {[1, 1->0]}\n       \
         [0] A {}\n       [1] B {}\nTRAIN: [2] C {}\n"
    );
}

#[test]
fn snapshot_lists_cars_in_order() {
    let mut state = line_abc();
    assert_eq!(state.add_passenger(0, 2), Ok(()));
    assert_eq!(state.add_passenger(0, 0), Ok(()));
    assert_eq!(state.add_passenger(0, 2), Ok(()));
    assert_eq!(state.advance(), Ok(vec![]));
    assert_eq!(
        state.snapshot(),
        "Passengers on the train: {[1, 0->0][0, 0->2][2, 0->2]}\n       \
         [0] A {}\nTRAIN: [1] B {}\n       [2] C {}\n"
    );
}

#[test]
fn snapshot_twice_is_the_same() {
    let mut state = line_abc();
    assert_eq!(state.add_passenger(2, 1), Ok(()));
    assert_eq!(state.add_passenger(0, 1), Ok(()));
    assert!(state.advance().is_ok());
    let first = state.snapshot();
    let second = state.snapshot();
    assert_eq!(first, second);
    assert_eq!(state.train_loc, 1);
    assert_eq!(headcount(&state), 1);
}

#[test]
fn station_names_may_hold_blanks() {
    let mut state = State::new().initialize_stations("Park Street\r\nSouth Station\r\n");
    assert_eq!(state.num_stations, 2);
    assert_eq!(state.station_map[&0], "Park Street");
    assert_eq!(state.add_passenger(0, 1), Ok(()));
    assert_eq!(
        move_train(&mut state),
        Ok(String::from("Passenger 0 left train at station South Station"))
    );
}
