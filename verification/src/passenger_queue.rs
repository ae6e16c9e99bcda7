//! A first-in, first-out queue of passengers: one per station platform and one
//! per train car.

use crate::error::SimError;
use crate::passenger::Passenger;
use vstd::prelude::*;
use vstd::string::StringExecFns;

verus! {

/// Passengers in the order in which they arrived; the earliest is the front.
#[derive(Debug)]
pub struct PassengerQueue {
    pub passenger_list: Vec<Passenger>,
}

impl View for PassengerQueue {
    type V = Seq<Passenger>;

    /// The passengers from the front to the back.
    open spec fn view(&self) -> Seq<Passenger> {
        self.passenger_list@
    }
}

impl Clone for PassengerQueue {
    /// A queue of the same passengers in the same order.
    fn clone(&self) -> (q: PassengerQueue)
        ensures
            q@ == self@,
    {
        let passenger_list = self.passenger_list.clone();
        assert(passenger_list@ =~= self.passenger_list@);
        PassengerQueue { passenger_list }
    }
}

/// How a queue is written in a snapshot: its passengers from front to back,
/// one after the other with nothing between them.
pub open spec fn queue_text(q: Seq<Passenger>) -> Seq<char>
    decreases q.len(),
{
    if q.len() == 0 {
        Seq::empty()
    } else {
        queue_text(q.drop_last()) + q.last().text()
    }
}

impl PassengerQueue {
    /// An empty queue.
    pub fn new() -> (q: PassengerQueue)
        ensures
            q@ == Seq::<Passenger>::empty(),
    {
        PassengerQueue { passenger_list: Vec::new() }
    }

    /// The passenger at the front, which stays in the queue.
    pub fn front(&self) -> (r: Result<Passenger, SimError>)
        ensures
            r == if self@.len() > 0 {
                Ok::<Passenger, SimError>(self@.first())
            } else {
                Err::<Passenger, SimError>(SimError::EmptyQueue)
            },
    {
        if self.passenger_list.len() > 0 {
            Ok(self.passenger_list[0])
        } else {
            Err(SimError::EmptyQueue)
        }
    }

    /// Removes the passenger at the front.
    pub fn dequeue(&mut self) -> (r: Result<(), SimError>)
        ensures
            old(self)@.len() > 0 ==> {
                &&& r == Ok::<(), SimError>(())
                &&& final(self)@ == old(self)@.drop_first()
            },
            old(self)@.len() == 0 ==> {
                &&& r == Err::<(), SimError>(SimError::EmptyQueue)
                &&& *final(self) == *old(self)
            },
    {
        if self.passenger_list.len() > 0 {
            self.passenger_list.remove(0);
            assert(self@ =~= old(self)@.drop_first());
            Ok(())
        } else {
            Err(SimError::EmptyQueue)
        }
    }

    /// Puts `p` at the back.
    pub fn enqueue(&mut self, p: Passenger)
        ensures
            final(self)@ == old(self)@.push(p),
    {
        self.passenger_list.push(p);
    }

    /// The number of passengers in the queue.
    pub fn size(&self) -> (n: u32)
        requires
            self@.len() <= u32::MAX,
        ensures
            n == self@.len(),
    {
        self.passenger_list.len() as u32
    }

    /// Writes the queue as its passengers from front to back.
    pub fn to_string(&self) -> (s: String)
        ensures
            s@ == queue_text(self@),
    {
        let mut s = String::new();
        let mut i: usize = 0;
        while i < self.passenger_list.len()
            invariant
                i <= self@.len(),
                s@ == queue_text(self@.take(i as int)),
            decreases self@.len() - i,
        {
            let one = self.passenger_list[i].to_string();
            s.append(one.as_str());
            proof {
                let next = self@.take(i + 1);
                assert(next.drop_last() =~= self@.take(i as int));
                assert(next.last() == self@[i as int]);
            }
            i += 1;
        }
        assert(self@.take(i as int) =~= self@);
        s
    }
}

} // verus!
