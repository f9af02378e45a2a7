use crate::pin::Pin;
use crate::PinDirection;
use vstd::prelude::*;

verus! {

/// A one-bit pin. By convention `0` is logical false and any other value is
/// true; devices drive `TRUE` (all bits set) for a true output.
#[derive(Debug)]
pub struct LogicPin {
    direction: PinDirection,
}

impl LogicPin {
    pub const TRUE: u32 = 0xFFFF_FFFF;

    pub const FALSE: u32 = 0;

    pub fn is_false(value: u32) -> (r: bool)
        ensures
            r == (value == 0),
    {
        value == LogicPin::FALSE
    }

    pub fn is_true(value: u32) -> (r: bool)
        ensures
            r == (value != 0),
    {
        value != LogicPin::FALSE
    }

    pub fn new(direction: PinDirection) -> (r: LogicPin)
        ensures
            r.direction() == direction,
    {
        LogicPin { direction }
    }
}

impl Pin for LogicPin {
    closed spec fn direction(&self) -> PinDirection {
        self.direction
    }

    fn get_pin_direction(&self) -> (r: PinDirection) {
        self.direction
    }
}

} // verus!
