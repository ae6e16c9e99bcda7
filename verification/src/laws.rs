//! What holds of every line, whatever commands it has seen.

use crate::command::Command;
use crate::line::{board_all, headcount, riders, LineView};
use crate::passenger::Passenger;
use crate::state::State;
use crate::text::{decimal, digit_char, digits_value, is_digit, parsed_index};
use vstd::multiset::Multiset;
use vstd::prelude::*;

verus! {

/// The riders of a row are as many as its queues are long.
pub proof fn lemma_riders_len(queues: Seq<Seq<Passenger>>)
    ensures
        riders(queues).len() == headcount(queues),
    decreases queues.len(),
{
    broadcast use vstd::seq_lib::group_to_multiset_ensures;

    if queues.len() > 0 {
        lemma_riders_len(queues.drop_last());
    }
}

/// The population of a line is counted by the lengths of its platform queues
/// and of its cars.
pub proof fn lemma_population_len(line: LineView)
    ensures
        line.population().len() == headcount(line.stations) + headcount(line.train),
{
    lemma_riders_len(line.stations);
    lemma_riders_len(line.train);
}

/// Replacing one queue of a row changes the row's riders by exactly the
/// difference between the two queues.
pub proof fn lemma_riders_update(queues: Seq<Seq<Passenger>>, i: int, q: Seq<Passenger>)
    requires
        0 <= i < queues.len(),
    ensures
        riders(queues.update(i, q)).add(queues[i].to_multiset()) =~= riders(queues).add(
            q.to_multiset(),
        ),
    decreases queues.len(),
{
    let updated = queues.update(i, q);
    let rest = queues.drop_last();
    if i == queues.len() - 1 {
        assert(updated.drop_last() =~= rest);
        assert(riders(updated) == riders(rest).add(q.to_multiset()));
        assert(riders(queues) == riders(rest).add(queues[i].to_multiset()));
        assert(riders(updated).add(queues[i].to_multiset()) =~= riders(queues).add(
            q.to_multiset(),
        ));
    } else {
        assert(updated.drop_last() =~= rest.update(i, q));
        assert(updated.last() == queues.last());
        lemma_riders_update(rest, i, q);
        assert(riders(updated) == riders(rest.update(i, q)).add(queues.last().to_multiset()));
        assert(riders(queues) == riders(rest).add(queues.last().to_multiset()));
        assert(rest[i] == queues[i]);
        assert forall|p: Passenger|
            riders(updated).add(queues[i].to_multiset()).count(p) == riders(queues).add(
                q.to_multiset(),
            ).count(p) by {
            assert(riders(rest.update(i, q)).add(rest[i].to_multiset()).count(p) == riders(
                rest,
            ).add(q.to_multiset()).count(p));
        }
    }
}

/// One more passenger at the back of the waiting row steps into the car of
/// its destination and leaves the other cars as they are.
pub proof fn lemma_board_all_push(cars: Seq<Seq<Passenger>>, waiting: Seq<Passenger>, p: Passenger)
    ensures
        board_all(cars, waiting.push(p)) == if p.departure < cars.len() {
            board_all(cars, waiting).update(
                p.departure as int,
                board_all(cars, waiting)[p.departure as int].push(p),
            )
        } else {
            board_all(cars, waiting)
        },
{
    let longer = waiting.push(p);
    assert(longer.drop_last() =~= waiting);
    assert forall|d: int| 0 <= d < cars.len() implies #[trigger] board_all(cars, longer)[d] == if d
        == p.departure {
        board_all(cars, waiting)[d].push(p)
    } else {
        board_all(cars, waiting)[d]
    } by {
        let bound = |q: Passenger| q.departure == d;
        reveal_with_fuel(Seq::filter, 2);
        assert(longer.filter(bound) == if bound(p) {
            waiting.filter(bound).push(p)
        } else {
            waiting.filter(bound)
        });
        assert(cars[d] + waiting.filter(bound).push(p) =~= (cars[d] + waiting.filter(bound)).push(
            p,
        ));
    }
    if p.departure < cars.len() {
        assert(board_all(cars, longer) =~= board_all(cars, waiting).update(
            p.departure as int,
            board_all(cars, waiting)[p.departure as int].push(p),
        ));
    } else {
        assert(board_all(cars, longer) =~= board_all(cars, waiting));
    }
}

/// One more passenger at the back of a queue is one more rider of the row.
pub proof fn lemma_riders_push(queues: Seq<Seq<Passenger>>, i: int, p: Passenger)
    requires
        0 <= i < queues.len(),
    ensures
        riders(queues.update(i, queues[i].push(p))) =~= riders(queues).insert(p),
{
    broadcast use vstd::seq_lib::group_to_multiset_ensures;

    let longer = queues[i].push(p);
    lemma_riders_update(queues, i, longer);
    assert forall|x: Passenger|
        riders(queues.update(i, longer)).count(x) == riders(queues).insert(p).count(x) by {
        assert(riders(queues.update(i, longer)).add(queues[i].to_multiset()).count(x) == riders(
            queues,
        ).add(longer.to_multiset()).count(x));
    }
}

/// Emptying a queue takes exactly its passengers out of the row.
pub proof fn lemma_riders_clear(queues: Seq<Seq<Passenger>>, i: int)
    requires
        0 <= i < queues.len(),
    ensures
        riders(queues.update(i, Seq::empty())).add(queues[i].to_multiset()) =~= riders(queues),
{
    broadcast use vstd::seq_lib::group_to_multiset_ensures;

    lemma_riders_update(queues, i, Seq::empty());
    vstd::multiset::lemma_multiset_empty_len(Seq::<Passenger>::empty().to_multiset());
}

/// Boarding loses and invents no one: the loaded cars hold who rode before
/// and who waited, provided that everyone who waited is bound for a station
/// that has a car.
pub proof fn lemma_riders_board_all(cars: Seq<Seq<Passenger>>, waiting: Seq<Passenger>)
    requires
        forall|k: int| 0 <= k < waiting.len() ==> (#[trigger] waiting[k]).departure < cars.len(),
    ensures
        riders(board_all(cars, waiting)) =~= riders(cars).add(waiting.to_multiset()),
    decreases waiting.len(),
{
    broadcast use vstd::seq_lib::group_to_multiset_ensures;

    if waiting.len() == 0 {
        assert forall|d: int| 0 <= d < cars.len() implies #[trigger] board_all(cars, waiting)[d]
            == cars[d] by {
            let bound = |q: Passenger| q.departure == d;
            assert(waiting.filter(bound).len() == 0);
            assert(cars[d] + waiting.filter(bound) =~= cars[d]);
        }
        assert(board_all(cars, waiting) =~= cars);
        vstd::multiset::lemma_multiset_empty_len(waiting.to_multiset());
    } else {
        let rest = waiting.drop_last();
        let p = waiting.last();
        assert(waiting =~= rest.push(p));
        lemma_board_all_push(cars, rest, p);
        lemma_riders_board_all(cars, rest);
        lemma_riders_push(board_all(cars, rest), p.departure as int, p);
        assert forall|x: Passenger|
            riders(board_all(cars, waiting)).count(x) == riders(cars).add(
                waiting.to_multiset(),
            ).count(x) by {
            assert(riders(board_all(cars, rest)).count(x) == riders(cars).add(
                rest.to_multiset(),
            ).count(x));
        }
    }
}

/// A row of empty queues holds no one.
pub proof fn lemma_riders_of_empty_queues(n: nat)
    ensures
        riders(Seq::new(n, |i: int| Seq::<Passenger>::empty())) =~= Multiset::empty(),
    decreases n,
{
    broadcast use vstd::seq_lib::group_to_multiset_ensures;

    let queues = Seq::new(n, |i: int| Seq::<Passenger>::empty());
    if n > 0 {
        assert(queues.drop_last() =~= Seq::new((n - 1) as nat, |i: int| Seq::<Passenger>::empty()));
        lemma_riders_of_empty_queues((n - 1) as nat);
        vstd::multiset::lemma_multiset_empty_len(queues.last().to_multiset());
    }
}

/// A line is well formed on its first day, and nobody is in it.
pub proof fn lemma_opening_wf(names: Seq<Seq<char>>)
    ensures
        LineView::opening(names).wf(),
        LineView::opening(names).population() =~= Multiset::empty(),
{
    lemma_riders_of_empty_queues(names.len());
}

/// Boarding keeps the line well formed and adds the newcomer, and no one
/// else, to the population.
pub proof fn lemma_board_keeps_wf(line: LineView, origin: usize, destination: usize)
    requires
        line.wf(),
        line.serves(origin, destination),
        line.issued < u32::MAX,
    ensures
        line.board(origin, destination).wf(),
        line.board(origin, destination).population() =~= line.population().insert(
            line.newcomer(origin, destination),
        ),
{
    let after = line.board(origin, destination);
    let p = line.newcomer(origin, destination);
    lemma_riders_push(line.stations, origin as int, p);
    assert(after.population() =~= line.population().insert(p));
    assert(line.population().count(p) == 0);
    assert forall|i: int, j: int|
        0 <= i < after.stations.len() && 0 <= j < after.stations[i].len() implies {
        &&& (#[trigger] after.stations[i][j]).arrival == i
        &&& after.stations[i][j].departure < after.names.len()
    } by {
        if i == origin && j == line.stations[i].len() {
        } else {
            assert(after.stations[i][j] == line.stations[i][j]);
        }
    }
    assert forall|x: Passenger| #[trigger] after.population().count(x) <= 1 by {
        assert(line.population().count(x) <= 1);
    }
    assert forall|x: Passenger| #[trigger] after.population().count(x) > 0 implies x.id
        < after.issued by {
        if x != p {
            assert(line.population().count(x) > 0);
        }
    }
    assert forall|x: Passenger, y: Passenger|
        #[trigger] after.population().count(x) > 0 && #[trigger] after.population().count(y) > 0
            && x.id == y.id implies x == y by {
        if x != p {
            assert(line.population().count(x) > 0);
        }
        if y != p {
            assert(line.population().count(y) > 0);
        }
    }
}

/// A move of the train keeps the line well formed; whoever was in the system
/// is still in it or has just left the train; and whoever left was bound for
/// the station that the train reached.
pub proof fn lemma_advance_keeps_wf(line: LineView)
    requires
        line.wf(),
        line.num_stations() > 0,
    ensures
        line.advance().wf(),
        line.population() =~= line.advance().population().add(line.leaving().to_multiset()),
        forall|k: int|
            0 <= k < line.leaving().len() ==> (#[trigger] line.leaving()[k]).departure
                == line.next_stop(),
{
    let after = line.advance();
    let here = line.train_loc as int;
    let there = line.next_stop() as int;
    let waiting = line.stations[here];
    let loaded = line.loaded_train();
    assert(0 <= there < line.names.len());
    assert forall|d: int, j: int| 0 <= d < loaded.len() && 0 <= j < loaded[d].len() implies {
        &&& (#[trigger] loaded[d][j]).departure == d
        &&& loaded[d][j].arrival < line.names.len()
    } by {
        let bound = |q: Passenger| q.departure == d;
        let joined = waiting.filter(bound);
        if j < line.train[d].len() {
            assert(loaded[d][j] == line.train[d][j]);
        } else {
            let k = j - line.train[d].len();
            assert(loaded[d][j] == joined[k]);
            assert(bound(joined[k]));
            assert(joined.contains(joined[k]));
            waiting.lemma_filter_contains_rev(bound, joined[k]);
            let w = choose|w: int| 0 <= w < waiting.len() && waiting[w] == joined[k];
            assert(line.stations[here][w].arrival == here);
        }
    }
    assert forall|d: int, j: int|
        0 <= d < after.train.len() && 0 <= j < after.train[d].len() implies {
        &&& (#[trigger] after.train[d][j]).departure == d
        &&& after.train[d][j].arrival < after.names.len()
    } by {
        assert(after.train[d][j] == loaded[d][j]);
    }
    assert forall|k: int| 0 <= k < line.leaving().len() implies (#[trigger] line.leaving()[
        k
    ]).departure == line.next_stop() by {
        assert(line.leaving()[k] == loaded[there][k]);
    }
    assert forall|k: int| 0 <= k < waiting.len() implies (#[trigger] waiting[k]).departure
        < line.train.len() by {
        assert(line.stations[here][k].departure < line.names.len());
    }
    lemma_riders_board_all(line.train, waiting);
    lemma_riders_clear(line.stations, here);
    lemma_riders_clear(loaded, there);
    assert forall|x: Passenger|
        line.population().count(x) == after.population().add(line.leaving().to_multiset()).count(
            x,
        ) by {
        assert(riders(after.stations).add(waiting.to_multiset()).count(x) == riders(
            line.stations,
        ).count(x));
        assert(riders(after.train).add(line.leaving().to_multiset()).count(x) == riders(
            loaded,
        ).count(x));
        assert(riders(loaded).count(x) == riders(line.train).add(waiting.to_multiset()).count(x));
    }
    assert forall|x: Passenger| #[trigger] after.population().count(x) <= 1 by {
        assert(line.population().count(x) <= 1);
    }
    assert forall|x: Passenger| #[trigger] after.population().count(x) > 0 implies x.id
        < after.issued by {
        assert(line.population().count(x) > 0);
    }
    assert forall|x: Passenger, y: Passenger|
        #[trigger] after.population().count(x) > 0 && #[trigger] after.population().count(y) > 0
            && x.id == y.id implies x == y by {
        assert(line.population().count(x) > 0);
        assert(line.population().count(y) > 0);
    }
}

/// Whoever is kept by a filter stands behind whoever was kept before it:
/// two items that pass, one before the other, come out in that order.
pub proof fn lemma_filter_keeps_order(
    s: Seq<Passenger>,
    pred: spec_fn(Passenger) -> bool,
    i: int,
    j: int,
)
    requires
        0 <= i < j < s.len(),
        pred(s[i]),
        pred(s[j]),
    ensures
        exists|a: int, b: int|
            0 <= a < b < s.filter(pred).len() && #[trigger] s.filter(pred)[a] == s[i]
                && #[trigger] s.filter(pred)[b] == s[j],
    decreases s.len(),
{
    reveal(Seq::filter);
    let rest = s.drop_last();
    let kept = s.filter(pred);
    if j == s.len() - 1 {
        assert(kept == rest.filter(pred).push(s[j]));
        assert(rest[i] == s[i]);
        rest.lemma_filter_contains(pred, i);
        let a = choose|a: int| 0 <= a < rest.filter(pred).len() && rest.filter(pred)[a] == s[i];
        let b = rest.filter(pred).len() as int;
        assert(kept[a] == s[i] && kept[b] == s[j]);
    } else {
        assert(rest[i] == s[i] && rest[j] == s[j]);
        lemma_filter_keeps_order(rest, pred, i, j);
        let (a, b) = choose|a: int, b: int|
            0 <= a < b < rest.filter(pred).len() && #[trigger] rest.filter(pred)[a] == s[i]
                && #[trigger] rest.filter(pred)[b] == s[j];
        assert(kept[a] == s[i] && kept[b] == s[j]);
    }
}

/// Riders keep their places. When the train moves on, whoever rode in a car
/// is still at its front, in the same order, when the newcomers have
/// stepped in; that car leaves the train as it is if its station comes
/// next, and rides on as it is if not.
pub proof fn lemma_riders_keep_their_places(line: LineView, d: int)
    requires
        line.wf(),
        0 <= d < line.num_stations(),
    ensures
        line.loaded_train()[d].take(line.train[d].len() as int) == line.train[d],
        d == line.next_stop() ==> line.leaving() == line.loaded_train()[d],
        d != line.next_stop() ==> line.advance().train[d] == line.loaded_train()[d],
{
    assert(0 <= line.next_stop() < line.num_stations());
    assert(line.loaded_train()[d].take(line.train[d].len() as int) =~= line.train[d]);
}

/// First in, first out. When the train moves on, two passengers who wait
/// where it stands for the same destination, one in front of the other, sit in
/// the car of that destination in that order, behind everyone who rode in it
/// before.
pub proof fn lemma_first_in_first_out(line: LineView, i: int, j: int)
    requires
        line.wf(),
        line.num_stations() > 0,
        0 <= i < j < line.stations[line.train_loc as int].len(),
        line.stations[line.train_loc as int][i].departure == line.stations[line.train_loc
            as int][j].departure,
    ensures
        ({
            let waiting = line.stations[line.train_loc as int];
            let d = waiting[i].departure as int;
            let car = line.loaded_train()[d];
            &&& 0 <= d < line.num_stations()
            &&& exists|a: int, b: int|
                line.train[d].len() <= a < b < car.len() && #[trigger] car[a] == waiting[i]
                    && #[trigger] car[b] == waiting[j]
        }),
{
    let waiting = line.stations[line.train_loc as int];
    let d = waiting[i].departure as int;
    let car = line.loaded_train()[d];
    let bound = |p: Passenger| p.departure == d;
    let joined = waiting.filter(bound);
    assert(line.stations[line.train_loc as int][i].departure < line.names.len());
    assert(car == line.train[d] + joined);
    lemma_filter_keeps_order(waiting, bound, i, j);
    let (a, b) = choose|a: int, b: int|
        0 <= a < b < joined.len() && #[trigger] joined[a] == waiting[i] && #[trigger] joined[b]
            == waiting[j];
    let offset = line.train[d].len() as int;
    assert(car[offset + a] == waiting[i] && car[offset + b] == waiting[j]);
}

/// No one leaves early. A passenger who is not bound for the station that
/// the train reaches is in the system after the move exactly as it was
/// before.
pub proof fn lemma_no_early_exit(line: LineView, p: Passenger)
    requires
        line.wf(),
        line.num_stations() > 0,
        p.departure != line.next_stop(),
    ensures
        line.advance().population().count(p) == line.population().count(p),
{
    broadcast use vstd::seq_lib::group_to_multiset_ensures;

    lemma_advance_keeps_wf(line);
    let leaving = line.leaving();
    if leaving.to_multiset().count(p) > 0 {
        assert(leaving.contains(p));
        let k = choose|k: int| 0 <= k < leaving.len() && leaving[k] == p;
        assert(leaving[k].departure == line.next_stop());
    }
    assert(line.population().count(p) == line.advance().population().add(
        leaving.to_multiset(),
    ).count(p));
}

/// Every command keeps the line well formed and accounts for everyone: a
/// boarding that is carried out adds one passenger and issues one id, a move
/// takes away exactly those who leave the train, and nothing else changes
/// the population.
pub proof fn lemma_step_accounts(line: LineView, c: Command)
    requires
        line.wf(),
        line.has_id_for(c),
    ensures
        line.step(c).wf(),
        line.step(c).names == line.names,
        line.step(c).issued == line.issued + line.boarded_during(seq![c]),
        line.step(c).population().len() + line.left_during(seq![c]) == line.population().len()
            + line.boarded_during(seq![c]),
{
    broadcast use vstd::seq_lib::group_to_multiset_ensures;

    let one = seq![c];
    assert(one.drop_last() =~= Seq::<Command>::empty());
    assert(one.last() == c);
    assert(line.run(one.drop_last()) == line);
    assert(line.boarded_during(one.drop_last()) == 0);
    assert(line.left_during(one.drop_last()) == 0);
    match c {
        Command::Board { origin, destination } => {
            if line.serves(origin, destination) {
                lemma_board_keeps_wf(line, origin, destination);
            }
        },
        Command::Advance => {
            if line.num_stations() > 0 {
                lemma_advance_keeps_wf(line);
            }
        },
        Command::Finish => {},
    }
}

/// Conservation. Whatever commands a line carries out, it stays well formed,
/// and the passengers in the system together with those who have left the
/// train are those who were in the system together with those who boarded.
/// The ids issued count the boardings.
pub proof fn lemma_conservation(line: LineView, cs: Seq<Command>)
    requires
        line.wf(),
        line.issued + line.boarded_during(cs) <= u32::MAX,
    ensures
        line.run(cs).wf(),
        line.run(cs).names == line.names,
        line.run(cs).issued == line.issued + line.boarded_during(cs),
        line.run(cs).population().len() + line.left_during(cs) == line.population().len()
            + line.boarded_during(cs),
    decreases cs.len(),
{
    if cs.len() > 0 {
        let before = line.run(cs.drop_last());
        lemma_conservation(line, cs.drop_last());
        lemma_step_accounts(before, cs.last());
        let one = seq![cs.last()];
        assert(one.drop_last() =~= Seq::<Command>::empty());
        assert(one.last() == cs.last());
        assert(before.run(one.drop_last()) == before);
        assert(before.boarded_during(one.drop_last()) == 0);
        assert(before.left_during(one.drop_last()) == 0);
    }
}

/// Conservation from the first day on. On a line that opened empty, the
/// passengers on the platforms and in the cars are as many as have boarded,
/// less those who have left the train; as long as no one has left, they are
/// exactly as many as have boarded.
pub proof fn lemma_conservation_since_opening(names: Seq<Seq<char>>, cs: Seq<Command>)
    requires
        LineView::opening(names).boarded_during(cs) <= u32::MAX,
    ensures
        ({
            let opening = LineView::opening(names);
            &&& opening.run(cs).population().len() + opening.left_during(cs)
                == opening.boarded_during(cs)
            &&& opening.left_during(cs) == 0 ==> headcount(opening.run(cs).stations) + headcount(
                opening.run(cs).train,
            ) == opening.boarded_during(cs)
        }),
{
    lemma_opening_wf(names);
    lemma_conservation(LineView::opening(names), cs);
    lemma_population_len(LineView::opening(names).run(cs));
}

/// After `k` moves the train stands `k` stations further round the circle,
/// and the line is still well formed.
pub proof fn lemma_moves_round(line: LineView, k: nat)
    requires
        line.wf(),
        line.num_stations() > 0,
    ensures
        line.run(Seq::new(k, |i: int| Command::Advance)).wf(),
        line.run(Seq::new(k, |i: int| Command::Advance)).names == line.names,
        line.run(Seq::new(k, |i: int| Command::Advance)).train_loc == (line.train_loc + k)
            % line.num_stations(),
    decreases k,
{
    let n = line.num_stations() as int;
    let moves = Seq::new(k, |i: int| Command::Advance);
    if k == 0 {
        vstd::arithmetic::div_mod::lemma_small_mod(line.train_loc, line.num_stations());
    } else {
        assert(moves.drop_last() =~= Seq::new((k - 1) as nat, |i: int| Command::Advance));
        assert(moves.last() == Command::Advance);
        lemma_moves_round(line, (k - 1) as nat);
        let before = line.run(moves.drop_last());
        lemma_advance_keeps_wf(before);
        vstd::arithmetic::div_mod::lemma_add_mod_noop_right(1, line.train_loc + k - 1, n);
    }
}

/// Circularity. After as many moves as the line has stations, the train
/// stands where it stood.
pub proof fn lemma_full_circle(line: LineView)
    requires
        line.wf(),
    ensures
        line.run(Seq::new(line.num_stations(), |i: int| Command::Advance)).train_loc
            == line.train_loc,
{
    let n = line.num_stations();
    if n == 0 {
        assert(Seq::new(n, |i: int| Command::Advance) =~= Seq::<Command>::empty());
    } else {
        lemma_moves_round(line, n);
        vstd::arithmetic::div_mod::lemma_mod_multiples_vanish(1, line.train_loc as int, n as int);
        vstd::arithmetic::div_mod::lemma_small_mod(line.train_loc, n);
    }
}

/// What is written is read back: the numeral of a number that fits a station
/// index is a row of digits that writes that number.
pub proof fn lemma_decimal_reads_back(n: nat)
    ensures
        decimal(n).len() > 0,
        forall|i: int| 0 <= i < decimal(n).len() ==> is_digit(#[trigger] decimal(n)[i]),
        digits_value(decimal(n)) == n,
        n <= usize::MAX ==> parsed_index(decimal(n)) == Some(n as usize),
    decreases n,
{
    let written = decimal(n);
    let d = n % 10;
    assert(digit_char(d) as u32 - '0' as u32 == d);
    if n < 10 {
        assert(written.drop_last() =~= Seq::<char>::empty());
        assert(written.last() == digit_char(n));
        assert(digits_value(written.drop_last()) == 0);
    } else {
        lemma_decimal_reads_back(n / 10);
        assert(written.drop_last() =~= decimal(n / 10));
        assert(written.last() == digit_char(n % 10));
        assert forall|i: int| 0 <= i < written.len() implies is_digit(#[trigger] written[i]) by {
            if i < written.len() - 1 {
                assert(written[i] == decimal(n / 10)[i]);
            }
        }
    }
    assert(is_digit(written[0]));
}

/// A snapshot can be taken again. What a snapshot says depends on the line
/// alone, and taking one changes nothing: two states that stand for the same
/// line give the same text.
pub proof fn lemma_snapshot_repeats(first: State, second: State)
    requires
        first@ == second@,
    ensures
        first@.snapshot_text() == second@.snapshot_text(),
{
}

} // verus!
