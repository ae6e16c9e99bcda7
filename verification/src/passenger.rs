//! A passenger: who it is, where it arrived and where it wants to go.

use crate::text::{decimal, push_decimal};
use vstd::prelude::*;
use vstd::string::StringExecFns;

verus! {

/// One traveller. `id` is the number under which the line registered it,
/// `arrival` the station where it waits or waited, `departure` the station
/// where it leaves the train.
#[derive(Clone, Copy, Debug, PartialEq, Eq, Structural)]
pub struct Passenger {
    pub id: u32,
    pub arrival: usize,
    pub departure: usize,
}

impl Passenger {
    /// How a passenger is written in a snapshot: `[id, arrival->departure]`.
    pub open spec fn text(self) -> Seq<char> {
        "["@ + decimal(self.id as nat) + ", "@ + decimal(self.arrival as nat) + "->"@ + decimal(
            self.departure as nat,
        ) + "]"@
    }

    /// Writes the passenger as `[id, arrival->departure]`.
    pub fn to_string(&self) -> (s: String)
        ensures
            s@ == self.text(),
    {
        let mut s = String::from_str("[");
        push_decimal(&mut s, self.id as u64);
        s.append(", ");
        push_decimal(&mut s, self.arrival as u64);
        s.append("->");
        push_decimal(&mut s, self.departure as u64);
        s.append("]");
        s
    }
}

} // verus!
