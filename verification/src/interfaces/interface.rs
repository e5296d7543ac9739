//! The trait through which a front end talks to the processor.

use crate::processor::Processor;
use vstd::prelude::*;

verus! {

/// An interface between the user and the CHIP-8 processor. Implemented
/// outside the library for each front end (terminal, window, ...) and
/// driven by the main loop.
pub trait Interface {
    /// Update the inputs in the processor and the sound. Returns `true`
    /// if the program should exit, `false` otherwise.
    fn update(&mut self, p: &mut Processor) -> bool;

    /// Render the screen.
    fn render(&mut self, p: &Processor);

    /// Cleanup called once before the program quits.
    fn exit(&mut self);
}

} // verus!
