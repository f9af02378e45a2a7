use crate::PinDirection;
use vstd::prelude::*;

verus! {

/// A pin of a device, with the direction in which it is used.
pub trait Pin {
    spec fn direction(&self) -> PinDirection;

    fn get_pin_direction(&self) -> (r: PinDirection)
        ensures
            r == self.direction(),
    ;
}

} // verus!
