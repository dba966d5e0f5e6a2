//! A block-processing engine for graphs of signal processors.
//!
//! Processors are registered in a [`graph::Graph`], wired port to port, and
//! driven one block of frames at a time in dependency order. The wiring is
//! kept acyclic: the order in which the processors run is the layered
//! topological order defined in [`topology`]. What a block does on its way
//! through the graph is defined in [`dataflow`].

pub mod dataflow;
pub mod engine;
pub mod frame;
pub mod graph;
pub mod node;
pub mod processor;
pub mod routing;
pub mod text;
pub mod topology;
pub mod wiring;

use vstd::prelude::*;

verus! {

/// A processor with one input port and one output port that leaves its
/// output as it finds it.
pub struct TestNode {}

impl<T> node::Node<T> for TestNode {
    fn process(&mut self, inputs: &mut Vec<T>, outputs: &mut Vec<T>)
        ensures
            *final(inputs) == *old(inputs),
            *final(outputs) == *old(outputs),
    {
    }

    fn inputs_amt(&self) -> usize
        returns
            1usize,
    {
        1
    }

    fn outputs_amt(&self) -> usize
        returns
            1usize,
    {
        1
    }
}

impl<F> processor::Processor<F> for TestNode {
    fn inputs_amt(&self) -> usize {
        1
    }

    fn outputs_amt(&self) -> usize {
        1
    }

    open spec fn has_inputs(&self, amt: usize) -> bool {
        amt == 1
    }

    open spec fn has_outputs(&self, amt: usize) -> bool {
        amt == 1
    }
}

} // verus!
