use vstd::prelude::*;

verus! {

/// Whether a device drives a pin (`Output`) or samples it (`Input`).
#[derive(Clone, Copy, Debug, PartialEq, Eq, Structural)]
pub enum PinDirection {
    Input,
    Output,
}

} // verus!
