//! The graph of processors: registration, wiring and block processing. A
//! graph is well formed from its making on, so that its functions ask
//! nothing of the caller but blocks of the right shape.

use crate::dataflow;
use crate::engine::Engine;
use crate::engine::Unit;
use crate::frame::BufferSet;
use crate::frame::Kit;
use crate::frame::has_shape;
use crate::frame;
use crate::processor::Processor;
use crate::text;
use crate::topology::PortId;
use crate::topology;
use crate::wiring::Error;
use crate::wiring::Wiring;
use sample::FloatSample;
use sample::Frame;
use vstd::prelude::*;

verus! {

/// The container of the processors and of the connections between them.
///
/// Processors are added and never removed. Output ports are linked to input
/// ports as long as the links hold no cycle, and the inputs and outputs of
/// the graph are wired to ports of processors. All frames are of one type.
/// A graph is itself a processor, with the inputs and outputs of the graph
/// as its ports.
#[verifier::reject_recursive_types(F)]
pub struct Graph<F> {
    kit: Kit<F>,
    engine: Engine<F>,
}

impl<F> View for Graph<F> {
    type V = Wiring;

    closed spec fn view(&self) -> Wiring {
        self.engine@
    }
}

impl<F> Graph<F> {
    #[verifier::type_invariant]
    spec fn sound(&self) -> bool {
        self.engine.well_formed()
    }

    /// The arithmetic of the frames of the graph.
    pub closed spec fn kit(&self) -> Kit<F> {
        self.kit
    }

    /// The processor with index `u`.
    pub closed spec fn processor(&self, u: int) -> &Box<dyn Processor<F>> {
        self.engine.processor(u)
    }

    /// For every processor, its input block: what it was handed when a
    /// block was last passed through the graph.
    pub closed spec fn input_blocks(&self) -> Seq<BufferSet<F>> {
        self.engine.input_blocks()
    }

    /// For every processor, its output block: what it put out when a block
    /// was last passed through the graph, or equilibrium where that had not
    /// the shape of its ports.
    pub closed spec fn output_blocks(&self) -> Seq<BufferSet<F>> {
        self.engine.output_blocks()
    }
}

impl<F> Graph<F> where F: Frame + 'static, F::Sample: FloatSample {
    /// A graph without processors, for blocks of `buffersize` positions,
    /// whose frames are added as the `sample` crate adds them.
    pub fn new(buffersize: usize) -> (graph: Self)
        ensures
            graph@ == Wiring::empty(buffersize as nat),
            graph@.valid(),
            graph.kit().is_sample(),
    {
        let engine = Engine::new(buffersize);
        Graph { kit: Kit::new(), engine }
    }
}

impl<F: Copy> Graph<F> {
    /// Takes the engine out, and leaves one without processors in its place.
    fn take(&mut self) -> (engine: Engine<F>)
        ensures
            engine == old(self).engine,
            engine.well_formed(),
            final(self).kit == old(self).kit,
    {
        proof {
            use_type_invariant(&*self);
        }
        let mut engine = Engine::new(0);
        core::mem::swap(&mut self.engine, &mut engine);
        engine
    }

    /// Puts `engine` in the place of the engine that is there.
    fn put(&mut self, engine: Engine<F>)
        requires
            engine.well_formed(),
        ensures
            final(self).engine == engine,
            final(self).kit == old(self).kit,
    {
        self.engine = engine;
    }

    /// Adds a processor and returns its index, the number of processors
    /// added before it. The processor's ports are those that it reports now,
    /// and none of them is connected. Its blocks are at equilibrium.
    pub fn add_processor(&mut self, processor: Box<dyn Processor<F>>) -> (index: usize)
        ensures
            index == old(self)@.units(),
            final(self).processor(index as int) == &processor,
            forall|u: int| 0 <= u < index ==> final(self).processor(u) == old(self).processor(u),
            exists|inputs: usize, outputs: usize|
                {
                    &&& final(self)@ == #[trigger] old(self)@.with_unit(
                        inputs as nat,
                        outputs as nat,
                    )
                    &&& processor.has_inputs(inputs)
                    &&& processor.has_outputs(outputs)
                    &&& old(self).kit().is_silent_block(
                        final(self).input_blocks()[index as int]@,
                        old(self)@.block,
                        inputs as nat,
                    )
                    &&& old(self).kit().is_silent_block(
                        final(self).output_blocks()[index as int]@,
                        old(self)@.block,
                        outputs as nat,
                    )
                },
            forall|u: int|
                0 <= u < index ==> #[trigger] final(self).input_blocks()[u] == old(
                    self,
                ).input_blocks()[u] && final(self).output_blocks()[u] == old(
                    self,
                ).output_blocks()[u],
            final(self).kit() == old(self).kit(),
            final(self)@.valid(),
    {
        let inputs = processor.inputs_amt();
        let outputs = processor.outputs_amt();
        let unit = Unit::new(processor);
        let mut engine = self.take();
        let index = engine.add_unit(&self.kit, unit, inputs, outputs);
        proof {
            engine.lemma_valid();
            assert(engine@ == old(self)@.with_unit(inputs as nat, outputs as nat));
        }
        self.put(engine);
        index
    }

    /// Wires input `input` of the graph to the input port `port`, in addition
    /// to the ports that it feeds already. Fails, and changes nothing, where
    /// the port or the input does not exist.
    pub fn connect_input(&mut self, input: usize, port: PortId) -> (result: Result<(), Error>)
        ensures
            result == old(self)@.input_result(input, port),
            final(self)@ == old(self)@.with_input(input, port),
            final(self).kit() == old(self).kit(),
            final(self).input_blocks() == old(self).input_blocks(),
            final(self).output_blocks() == old(self).output_blocks(),
            forall|u: int|
                0 <= u < old(self)@.units() ==> final(self).processor(u) == old(self).processor(u),
            final(self)@.valid(),
    {
        let mut engine = self.take();
        let result = engine.connect_input(input, port);
        proof {
            engine.lemma_valid();
        }
        self.put(engine);
        result
    }

    /// Wires the output port `port` to output `output` of the graph, in
    /// addition to the ports that feed it already. Fails, and changes
    /// nothing, where the port or the output does not exist.
    pub fn connect_output(&mut self, output: usize, port: PortId) -> (result: Result<(), Error>)
        ensures
            result == old(self)@.output_result(output, port),
            final(self)@ == old(self)@.with_output(output, port),
            final(self).kit() == old(self).kit(),
            final(self).input_blocks() == old(self).input_blocks(),
            final(self).output_blocks() == old(self).output_blocks(),
            forall|u: int|
                0 <= u < old(self)@.units() ==> final(self).processor(u) == old(self).processor(u),
            final(self)@.valid(),
    {
        let mut engine = self.take();
        let result = engine.connect_output(output, port);
        proof {
            engine.lemma_valid();
        }
        self.put(engine);
        result
    }

    /// Sets the number of inputs of the graph. Whatever the inputs were
    /// wired to before, none of them is wired afterwards.
    pub fn set_input_amt(&mut self, inputs: usize)
        ensures
            final(self)@ == old(self)@.with_graph_inputs(inputs as nat),
            final(self).kit() == old(self).kit(),
            final(self).input_blocks() == old(self).input_blocks(),
            final(self).output_blocks() == old(self).output_blocks(),
            forall|u: int|
                0 <= u < old(self)@.units() ==> final(self).processor(u) == old(self).processor(u),
            final(self)@.valid(),
    {
        let mut engine = self.take();
        engine.set_input_amt(inputs);
        proof {
            engine.lemma_valid();
        }
        self.put(engine);
    }

    /// Sets the number of outputs of the graph. Whatever the outputs were
    /// wired to before, none of them is wired afterwards.
    pub fn set_output_amt(&mut self, outputs: usize)
        ensures
            final(self)@ == old(self)@.with_graph_outputs(outputs as nat),
            final(self).kit() == old(self).kit(),
            final(self).input_blocks() == old(self).input_blocks(),
            final(self).output_blocks() == old(self).output_blocks(),
            forall|u: int|
                0 <= u < old(self)@.units() ==> final(self).processor(u) == old(self).processor(u),
            final(self)@.valid(),
    {
        let mut engine = self.take();
        engine.set_output_amt(outputs);
        proof {
            engine.lemma_valid();
        }
        self.put(engine);
    }

    /// Links the output port `source_id` to the input port `dest_id`, in
    /// addition to the ports that it feeds already, and brings the order in
    /// which the processors run up to date. Fails, and changes nothing,
    /// where one of the ports does not exist or the link would close a cycle.
    pub fn add_connection(&mut self, source_id: &PortId, dest_id: &PortId) -> (result: Result<
        (),
        Error,
    >)
        ensures
            result == old(self)@.link_result(*source_id, *dest_id),
            final(self)@ == old(self)@.with_link(*source_id, *dest_id),
            final(self).kit() == old(self).kit(),
            final(self).input_blocks() == old(self).input_blocks(),
            final(self).output_blocks() == old(self).output_blocks(),
            forall|u: int|
                0 <= u < old(self)@.units() ==> final(self).processor(u) == old(self).processor(u),
            final(self)@.valid(),
    {
        let mut engine = self.take();
        let result = engine.add_connection(source_id, dest_id);
        proof {
            engine.lemma_valid();
        }
        self.put(engine);
        result
    }

    /// The order in which the processors run: the topological order of the
    /// links, which exists as the links of a graph hold no cycle.
    pub fn get_topological_sorting(&self) -> (sorted: Option<Vec<usize>>)
        ensures
            sorted is Some,
            topology::ints(sorted->0@) == self@.order,
            topology::topological_order(self@.links) == Some(self@.order),
            self@.valid(),
    {
        proof {
            use_type_invariant(self);
            self.engine.lemma_valid();
        }
        self.engine.get_topological_sorting()
    }

    /// The description of the links as text: the number of processors, and
    /// then every output port in ascending order, each with the input ports
    /// that it feeds in the order in which they were connected.
    pub fn get_description_string(&self) -> (description: String)
        ensures
            description@ == text::description(self@.links),
    {
        self.engine.get_description_string()
    }

    /// Tells whether `port` is an input port of a processor of the graph.
    pub fn inport_exists(&self, port: PortId) -> (exists: bool)
        ensures
            exists == self@.is_input(port),
    {
        self.engine.inport_exists(port)
    }

    /// Tells whether `port` is an output port of a processor of the graph.
    pub fn outport_exists(&self, port: PortId) -> (exists: bool)
        ensures
            exists == self@.is_output(port),
    {
        self.engine.outport_exists(port)
    }

    /// Passes the block `inputs` through the graph and writes what comes
    /// out to `outputs`.
    ///
    /// All blocks of the processors are cleared to equilibrium. The columns of
    /// `inputs` are copied to the input ports that the inputs of the graph
    /// are wired to. Then the processors run in topological order, each on
    /// its input block, and what each puts out is added to the input ports
    /// that its output ports feed. At last every column of `outputs` is set
    /// to the sum of the output ports wired to that output of the graph. A
    /// processor that leaves its output block in another shape than its
    /// ports give puts out equilibrium.
    ///
    /// Every processor is run once, by one call of [`Unit::run`]: on the
    /// input block that it is left with, which holds all that feeds it, and
    /// on an output block at equilibrium.
    pub fn process_graph(&mut self, inputs: &BufferSet<F>, outputs: &mut BufferSet<F>)
        requires
            old(self)@.takes(inputs@, old(outputs)@),
        ensures
            final(self)@ == old(self)@,
            final(self).kit() == old(self).kit(),
            final(self)@.valid(),
            dataflow::is_routed(
                old(self).kit(),
                old(self)@,
                inputs@,
                final(self).input_blocks(),
                final(self).output_blocks(),
                final(outputs)@,
            ),
            exists|runs: Seq<&mut Unit<dyn Processor<F>>>, blocks: Seq<&mut BufferSet<F>>|
                {
                    &&& #[trigger] runs.len() == old(self)@.units()
                    &&& #[trigger] blocks.len() == old(self)@.units()
                    &&& forall|u: int|
                        0 <= u < old(self)@.units() ==> {
                            &&& &(*(#[trigger] runs[u])).processor == old(self).processor(u)
                            &&& &final(runs[u]).processor == final(self).processor(u)
                            &&& old(self).kit().is_silent_block(
                                (*blocks[u])@,
                                old(self)@.block,
                                old(self)@.outputs[u],
                            )
                            &&& call_ensures(
                                Unit::<dyn Processor<F>>::run::<F>,
                                (runs[u], &final(self).input_blocks()[u], blocks[u]),
                                (),
                            )
                            &&& if frame::is_block(
                                (*final(blocks[u]))@,
                                old(self)@.block,
                                old(self)@.outputs[u],
                            ) {
                                final(self).output_blocks()[u] == *final(blocks[u])
                            } else {
                                old(self).kit().is_silent_block(
                                    final(self).output_blocks()[u]@,
                                    old(self)@.block,
                                    old(self)@.outputs[u],
                                )
                            }
                        }
                },
    {
        let mut engine = self.take();
        engine.process_graph(&self.kit, inputs, outputs);
        proof {
            engine.lemma_valid();
        }
        self.put(engine);
    }
}

impl<F: Copy> Processor<F> for Graph<F> {
    /// Passes the block `inputs` through the graph and writes what comes out
    /// to `outputs`, as [`Graph::process_graph`] does, where the two blocks
    /// fit the inputs and the outputs of the graph. Where they do not,
    /// nothing is changed.
    fn process(&mut self, inputs: &BufferSet<F>, outputs: &mut BufferSet<F>)
        ensures
            final(self)@ == old(self)@,
            final(self).kit() == old(self).kit(),
            final(self)@.valid(),
            old(self)@.takes(inputs@, old(outputs)@) ==> dataflow::is_routed(
                old(self).kit(),
                old(self)@,
                inputs@,
                final(self).input_blocks(),
                final(self).output_blocks(),
                final(outputs)@,
            ),
            old(self)@.takes(inputs@, old(outputs)@) ==> exists|runs: Seq<&mut Unit<dyn Processor<F>>>, blocks: Seq<&mut BufferSet<F>>|
                {
                    &&& #[trigger] runs.len() == old(self)@.units()
                    &&& #[trigger] blocks.len() == old(self)@.units()
                    &&& forall|u: int|
                        0 <= u < old(self)@.units() ==> {
                            &&& &(*(#[trigger] runs[u])).processor == old(self).processor(u)
                            &&& &final(runs[u]).processor == final(self).processor(u)
                            &&& old(self).kit().is_silent_block(
                                (*blocks[u])@,
                                old(self)@.block,
                                old(self)@.outputs[u],
                            )
                            &&& call_ensures(
                                Unit::<dyn Processor<F>>::run::<F>,
                                (runs[u], &final(self).input_blocks()[u], blocks[u]),
                                (),
                            )
                            &&& if frame::is_block(
                                (*final(blocks[u]))@,
                                old(self)@.block,
                                old(self)@.outputs[u],
                            ) {
                                final(self).output_blocks()[u] == *final(blocks[u])
                            } else {
                                old(self).kit().is_silent_block(
                                    final(self).output_blocks()[u]@,
                                    old(self)@.block,
                                    old(self)@.outputs[u],
                                )
                            }
                        }
                },
            !old(self)@.takes(inputs@, old(outputs)@) ==> {
                &&& *final(outputs) == *old(outputs)
                &&& final(self).input_blocks() == old(self).input_blocks()
                &&& final(self).output_blocks() == old(self).output_blocks()
                &&& forall|u: int|
                    0 <= u < old(self)@.units() ==> final(self).processor(u) == old(
                        self,
                    ).processor(u)
            },
    {
        proof {
            use_type_invariant(&*self);
            self.engine.lemma_valid();
        }
        let len = self.engine.buffersize();
        if has_shape(inputs, len, self.engine.inputs_amt()) && has_shape(
            outputs,
            len,
            self.engine.outputs_amt(),
        ) {
            self.process_graph(inputs, outputs);
        }
    }

    /// The number of inputs of the graph.
    fn inputs_amt(&self) -> (amt: usize) {
        self.engine.inputs_amt()
    }

    /// The number of outputs of the graph.
    fn outputs_amt(&self) -> (amt: usize) {
        self.engine.outputs_amt()
    }

    /// Where the two blocks fit the graph, `after` is `inputs` routed
    /// through the graph, for some blocks of its processors; where they do
    /// not, `after` is `before`.
    open spec fn puts_out(
        &self,
        inputs: Seq<Vec<F>>,
        before: Seq<Vec<F>>,
        after: Seq<Vec<F>>,
    ) -> bool {
        if self@.takes(inputs, before) {
            exists|ins: Seq<BufferSet<F>>, outs: Seq<BufferSet<F>>|
                dataflow::is_routed(self.kit(), self@, inputs, ins, outs, after)
        } else {
            after == before
        }
    }

    open spec fn has_inputs(&self, amt: usize) -> bool {
        amt == self@.graph_inputs.len()
    }

    open spec fn has_outputs(&self, amt: usize) -> bool {
        amt == self@.graph_outputs.len()
    }
}

} // verus!
