use crate::Apply;
use vstd::prelude::*;

verus! {

/// An operation that adds a number to an `i32`, wrapping on overflow.
#[derive(Debug)]
pub struct CounterAddOp(pub i32);

impl Apply<i32, ()> for CounterAddOp {
    open spec fn next(&self, data: i32) -> i32 {
        data.wrapping_add(self.0)
    }

    fn apply_first(&mut self, first: &mut i32, second: &i32, auxiliary: &mut ()) {
        *first = first.wrapping_add(self.0);
    }

    fn apply_second(self, first: &i32, second: &mut i32, auxiliary: &mut ()) {
        *second = second.wrapping_add(self.0);
    }
}

} // verus!
