//! Processors that work on one frame set at a time.

use vstd::prelude::*;

verus! {

/// A signal processor that reads one frame for each of its input ports and
/// writes one frame for each of its output ports.
pub trait Node<T> {
    /// Reads the frames of the input ports from `inputs` and writes those of
    /// the output ports to `outputs`.
    fn process(&mut self, inputs: &mut Vec<T>, outputs: &mut Vec<T>);

    /// The number of input ports.
    fn inputs_amt(&self) -> usize;

    /// The number of output ports.
    fn outputs_amt(&self) -> usize;
}

} // verus!
