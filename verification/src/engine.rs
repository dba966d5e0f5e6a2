//! The engine behind a graph: the processors, their blocks, the connections
//! and the cached order in which the processors run, with functions that ask
//! for a well-formed engine and leave one.

use crate::dataflow;
use crate::frame::BufferSet;
use crate::frame::Kit;
use crate::frame::empty_buffer;
use crate::frame::has_shape;
use crate::frame;
use crate::processor::Processor;
use crate::processor;
use crate::routing::clear_blocks;
use crate::routing::collect_outputs;
use crate::routing::route_unit;
use crate::routing::seed_inputs;
use crate::text;
use crate::topology::PortId;
use crate::topology::topological_sort;
use crate::topology;
use crate::wiring::Error;
use crate::wiring::Wiring;
use vstd::prelude::*;

verus! {

/// A sequence of port counts as natural numbers.
pub open spec fn nats(counts: Seq<usize>) -> Seq<nat> {
    counts.map_values(|n: usize| n as nat)
}

/// The lists of ports that a table of lists holds.
pub open spec fn lists(table: Seq<Vec<PortId>>) -> Seq<Seq<PortId>> {
    table.map_values(|list: Vec<PortId>| list@)
}

/// Tells whether `list` holds `port`.
fn holds(list: &Vec<PortId>, port: PortId) -> (found: bool)
    ensures
        found == list@.contains(port),
{
    let mut j: usize = 0;
    while j < list.len()
        invariant
            j <= list@.len(),
            forall|k: int| 0 <= k < j ==> list@[k] != port,
        decreases list@.len() - j,
    {
        if list[j].0 == port.0 && list[j].1 == port.1 {
            return true;
        }
        j += 1;
    }
    false
}

/// A table of `count` lists of ports, all empty.
fn unwired(count: usize) -> (table: Vec<Vec<PortId>>)
    ensures
        lists(table@) == Seq::new(count as nat, |i: int| Seq::<PortId>::empty()),
{
    let mut table: Vec<Vec<PortId>> = Vec::new();
    let mut i: usize = 0;
    while i < count
        invariant
            i <= count,
            table@.len() == i,
            forall|k: int| 0 <= k < i ==> (#[trigger] table@[k])@.len() == 0,
        decreases count - i,
    {
        table.push(Vec::new());
        i += 1;
    }
    assert(lists(table@) =~= Seq::new(count as nat, |i: int| Seq::<PortId>::empty())) by {
        assert forall|k: int| 0 <= k < count implies #[trigger] lists(table@)[k]
            == Seq::<PortId>::empty() by {}
    }
    table
}

/// A registered processor.
///
/// The engine runs a processor only through [`Unit::run`], so that what it
/// promises of a block names that call.
#[verifier::reject_recursive_types(P)]
pub struct Unit<P: ?Sized> {
    pub processor: Box<P>,
}

impl<P: ?Sized> Unit<P> {
    /// The unit of `processor`.
    pub fn new(processor: Box<P>) -> (unit: Self)
        ensures
            unit.processor == processor,
    {
        Unit { processor }
    }

    /// Has the processor process one block: hands `inputs` and `outputs` to
    /// its [`Processor::process`], once. The processor and the block are
    /// afterwards what that call made of them.
    pub fn run<F>(&mut self, inputs: &BufferSet<F>, outputs: &mut BufferSet<F>) where
        P: Processor<F>,

        ensures
            exists|state: &mut P, block: &mut BufferSet<F>|
                {
                    &&& &*state == &*old(self).processor
                    &&& &*final(state) == &*final(self).processor
                    &&& *block == *old(outputs)
                    &&& *final(block) == *final(outputs)
                    &&& #[trigger] call_ensures(P::process, (state, inputs, block), ())
                },
            old(self).processor.puts_out(inputs@, old(outputs)@, final(outputs)@) || ({
                &&& final(outputs)@.len() == old(outputs)@.len()
                &&& forall|i: int|
                    processor::reach(inputs@, old(outputs)@) <= i < old(outputs)@.len()
                        ==> #[trigger] final(outputs)@[i] == old(outputs)@[i]
            }),
    {
        let processor: &mut P = &mut *self.processor;
        processor.process(inputs, outputs)
    }
}

/// The processors of a graph, their blocks and the connections between them.
///
/// Every function asks for a well-formed engine. [`crate::graph::Graph`]
/// holds an engine that is always well formed, and asks for nothing.
#[verifier::reject_recursive_types(F)]
pub struct Engine<F> {
    units: Vec<Unit<dyn Processor<F>>>,
    inputs_amts: Vec<usize>,
    outputs_amts: Vec<usize>,
    input_buffers: Vec<BufferSet<F>>,
    output_buffers: Vec<BufferSet<F>>,
    connections: Vec<Vec<Vec<PortId>>>,
    input_connections: Vec<Vec<PortId>>,
    output_connections: Vec<Vec<PortId>>,
    topological_sorting: Vec<usize>,
    buffersize: usize,
}

impl<F> View for Engine<F> {
    type V = Wiring;

    closed spec fn view(&self) -> Wiring {
        Wiring {
            block: self.buffersize as nat,
            inputs: nats(self.inputs_amts@),
            outputs: nats(self.outputs_amts@),
            links: topology::links_of(self.connections@),
            graph_inputs: lists(self.input_connections@),
            graph_outputs: lists(self.output_connections@),
            order: topology::ints(self.topological_sorting@),
        }
    }
}

impl<F> Engine<F> {
    /// The wiring is valid, and there is a processor, an input block and an
    /// output block of the declared shape for every processor of the wiring.
    pub closed spec fn well_formed(&self) -> bool {
        &&& self@.valid()
        &&& self.units@.len() == self@.units()
        &&& self.input_buffers@.len() == self@.units()
        &&& self.output_buffers@.len() == self@.units()
        &&& forall|u: int|
            0 <= u < self@.units() ==> frame::is_block(
                (#[trigger] self.input_buffers@[u])@,
                self@.block,
                self@.inputs[u],
            )
        &&& forall|u: int|
            0 <= u < self@.units() ==> frame::is_block(
                (#[trigger] self.output_buffers@[u])@,
                self@.block,
                self@.outputs[u],
            )
    }

    /// The processor with index `u`.
    pub closed spec fn processor(&self, u: int) -> &Box<dyn Processor<F>> {
        &self.units@[u].processor
    }

    /// For every processor, its input block: what it was handed when a
    /// block was last passed through the graph.
    pub closed spec fn input_blocks(&self) -> Seq<BufferSet<F>> {
        self.input_buffers@
    }

    /// For every processor, its output block: what it put out when a block
    /// was last passed through the graph, or equilibrium where that had not
    /// the shape of its ports.
    pub closed spec fn output_blocks(&self) -> Seq<BufferSet<F>> {
        self.output_buffers@
    }

    /// The wiring of a well-formed graph is valid.
    pub proof fn lemma_valid(&self)
        requires
            self.well_formed(),
        ensures
            self@.valid(),
    {
    }

}

impl<F: Copy> Engine<F> {
    /// An engine without processors, for blocks of `buffersize` positions.
    pub fn new(buffersize: usize) -> (engine: Self)
        ensures
            engine.well_formed(),
            engine@ == Wiring::empty(buffersize as nat),
    {
        let engine = Engine {
            units: Vec::new(),
            inputs_amts: Vec::new(),
            outputs_amts: Vec::new(),
            input_buffers: Vec::new(),
            output_buffers: Vec::new(),
            connections: Vec::new(),
            input_connections: Vec::new(),
            output_connections: Vec::new(),
            topological_sorting: Vec::new(),
            buffersize,
        };
        proof {
            let empty = Wiring::empty(buffersize as nat);
            assert(engine@.inputs =~= empty.inputs);
            assert(engine@.links =~= empty.links);
            assert(engine@.graph_inputs =~= empty.graph_inputs);
            assert(engine@.order =~= empty.order);
        }
        engine
    }

    /// Adds the processor of `unit`, with `inputs` input ports and `outputs`
    /// output ports, and returns its index, the number of processors added
    /// before it. None of its ports is connected, and its blocks are at
    /// equilibrium.
    pub fn add_unit(
        &mut self,
        kit: &Kit<F>,
        unit: Unit<dyn Processor<F>>,
        inputs: usize,
        outputs: usize,
    ) -> (index: usize)
        requires
            old(self).well_formed(),
        ensures
            final(self).well_formed(),
            index == old(self)@.units(),
            final(self)@ == old(self)@.with_unit(inputs as nat, outputs as nat),
            final(self).processor(index as int) == &unit.processor,
            forall|u: int| 0 <= u < index ==> final(self).processor(u) == old(self).processor(u),
            kit.is_silent_block(
                final(self).input_blocks()[index as int]@,
                old(self)@.block,
                inputs as nat,
            ),
            kit.is_silent_block(
                final(self).output_blocks()[index as int]@,
                old(self)@.block,
                outputs as nat,
            ),
            forall|u: int|
                0 <= u < index ==> #[trigger] final(self).input_blocks()[u] == old(
                    self,
                ).input_blocks()[u] && final(self).output_blocks()[u] == old(
                    self,
                ).output_blocks()[u],
    {
        let index = self.units.len();
        let ports = unwired(outputs);
        let ghost before = self@;
        let ghost after = before.with_unit(inputs as nat, outputs as nat);
        self.input_buffers.push(empty_buffer(kit, inputs, self.buffersize));
        self.output_buffers.push(empty_buffer(kit, outputs, self.buffersize));
        self.inputs_amts.push(inputs);
        self.outputs_amts.push(outputs);
        self.connections.push(ports);
        self.units.push(unit);
        proof {
            assert(self.connections.len() == self.connections@.len());
            before.lemma_with_unit_valid(inputs as nat, outputs as nat);
            assert(topology::links_of(self.connections@) =~= after.links) by {
                assert forall|a: int| 0 <= a < after.links.len() implies #[trigger] topology::links_of(
                    self.connections@,
                )[a] =~= after.links[a] by {}
            }
        }
        match topological_sort(&self.connections) {
            Some(sorted) => {
                self.topological_sorting = sorted;
            },
            None => {},
        }
        proof {
            assert(self@.inputs =~= after.inputs);
            assert(self@.outputs =~= after.outputs);
        }
        index
    }

    /// Adds a processor and returns its index, the number of processors
    /// added before it. The processor's ports are those that it reports now,
    /// and none of them is connected. Its blocks are at equilibrium.
    pub fn add_processor(&mut self, kit: &Kit<F>, processor: Box<dyn Processor<F>>) -> (index:
        usize)
        requires
            old(self).well_formed(),
        ensures
            final(self).well_formed(),
            index == old(self)@.units(),
            final(self).processor(index as int) == &processor,
            forall|u: int| 0 <= u < index ==> final(self).processor(u) == old(self).processor(u),
            exists|inputs: usize, outputs: usize|
                {
                    &&& final(self)@ == #[trigger] old(self)@.with_unit(
                        inputs as nat,
                        outputs as nat,
                    )
                    &&& processor.has_inputs(inputs)
                    &&& processor.has_outputs(outputs)
                    &&& kit.is_silent_block(
                        final(self).input_blocks()[index as int]@,
                        old(self)@.block,
                        inputs as nat,
                    )
                    &&& kit.is_silent_block(
                        final(self).output_blocks()[index as int]@,
                        old(self)@.block,
                        outputs as nat,
                    )
                },
            forall|u: int|
                0 <= u < index ==> #[trigger] final(self).input_blocks()[u] == old(
                    self,
                ).input_blocks()[u] && final(self).output_blocks()[u] == old(
                    self,
                ).output_blocks()[u],
    {
        let inputs = processor.inputs_amt();
        let outputs = processor.outputs_amt();
        let unit = Unit::new(processor);
        self.add_unit(kit, unit, inputs, outputs)
    }

    /// Sets the number of inputs of the graph. Whatever the inputs were
    /// wired to before, none of them is wired afterwards.
    pub fn set_input_amt(&mut self, inputs: usize)
        requires
            old(self).well_formed(),
        ensures
            final(self).well_formed(),
            final(self)@ == old(self)@.with_graph_inputs(inputs as nat),
            final(self).input_blocks() == old(self).input_blocks(),
            final(self).output_blocks() == old(self).output_blocks(),
            forall|u: int|
                0 <= u < old(self)@.units() ==> final(self).processor(u) == old(self).processor(u),
    {
        self.input_connections = unwired(inputs);
    }

    /// Sets the number of outputs of the graph. Whatever the outputs were
    /// wired to before, none of them is wired afterwards.
    pub fn set_output_amt(&mut self, outputs: usize)
        requires
            old(self).well_formed(),
        ensures
            final(self).well_formed(),
            final(self)@ == old(self)@.with_graph_outputs(outputs as nat),
            final(self).input_blocks() == old(self).input_blocks(),
            final(self).output_blocks() == old(self).output_blocks(),
            forall|u: int|
                0 <= u < old(self)@.units() ==> final(self).processor(u) == old(self).processor(u),
    {
        self.output_connections = unwired(outputs);
    }

    /// Wires input `input` of the graph to the input port `port`, in addition
    /// to the ports that it feeds already. Fails, and changes nothing, where
    /// the port or the input does not exist.
    pub fn connect_input(&mut self, input: usize, port: PortId) -> (result: Result<(), Error>)
        requires
            old(self).well_formed(),
        ensures
            final(self).well_formed(),
            result == old(self)@.input_result(input, port),
            final(self)@ == old(self)@.with_input(input, port),
            final(self).input_blocks() == old(self).input_blocks(),
            final(self).output_blocks() == old(self).output_blocks(),
            forall|u: int|
                0 <= u < old(self)@.units() ==> final(self).processor(u) == old(self).processor(u),
    {
        if !self.inport_exists(port) || input >= self.input_connections.len() {
            return Err(Error::PortOutOfRange { unit: port.0, port: port.1 });
        }
        let ghost before = self@;
        if !holds(&self.input_connections[input], port) {
            self.input_connections[input].push(port);
        }
        proof {
            assert(self@.graph_inputs =~= before.with_input(input, port).graph_inputs);
        }
        Ok(())
    }

    /// Wires the output port `port` to output `output` of the graph, in
    /// addition to the ports that feed it already. Fails, and changes
    /// nothing, where the port or the output does not exist.
    pub fn connect_output(&mut self, output: usize, port: PortId) -> (result: Result<(), Error>)
        requires
            old(self).well_formed(),
        ensures
            final(self).well_formed(),
            result == old(self)@.output_result(output, port),
            final(self)@ == old(self)@.with_output(output, port),
            final(self).input_blocks() == old(self).input_blocks(),
            final(self).output_blocks() == old(self).output_blocks(),
            forall|u: int|
                0 <= u < old(self)@.units() ==> final(self).processor(u) == old(self).processor(u),
    {
        if !self.outport_exists(port) || output >= self.output_connections.len() {
            return Err(Error::PortOutOfRange { unit: port.0, port: port.1 });
        }
        let ghost before = self@;
        if !holds(&self.output_connections[output], port) {
            self.output_connections[output].push(port);
        }
        proof {
            assert(self@.graph_outputs =~= before.with_output(output, port).graph_outputs);
        }
        Ok(())
    }

    /// Links the output port `source_id` to the input port `dest_id`, in
    /// addition to the ports that it feeds already, and brings the order in
    /// which the processors run up to date. Fails, and changes nothing,
    /// where one of the ports does not exist or the link would close a cycle.
    pub fn add_connection(&mut self, source_id: &PortId, dest_id: &PortId) -> (result: Result<
        (),
        Error,
    >)
        requires
            old(self).well_formed(),
        ensures
            final(self).well_formed(),
            result == old(self)@.link_result(*source_id, *dest_id),
            final(self)@ == old(self)@.with_link(*source_id, *dest_id),
            final(self).input_blocks() == old(self).input_blocks(),
            final(self).output_blocks() == old(self).output_blocks(),
            forall|u: int|
                0 <= u < old(self)@.units() ==> final(self).processor(u) == old(self).processor(u),
    {
        let source = *source_id;
        let dest = *dest_id;
        if !self.outport_exists(source) {
            return Err(Error::PortOutOfRange { unit: source.0, port: source.1 });
        }
        if !self.inport_exists(dest) {
            return Err(Error::PortOutOfRange { unit: dest.0, port: dest.1 });
        }
        let ghost before = self@;
        let ghost linked = before.linked(source, dest);
        if holds(&self.connections[source.0][source.1], dest) {
            proof {
                assert(linked =~= before.links) by {
                    assert(linked[source.0 as int] =~= before.links[source.0 as int]);
                }
            }
            return Ok(());
        }
        self.connections[source.0][source.1].push(dest);
        proof {
            assert(topology::links_of(self.connections@) =~= linked) by {
                assert forall|a: int| 0 <= a < linked.len() implies #[trigger] topology::links_of(
                    self.connections@,
                )[a] =~= linked[a] by {}
            }
        }
        match topological_sort(&self.connections) {
            Some(sorted) => {
                self.topological_sorting = sorted;
                Ok(())
            },
            None => {
                self.connections[source.0][source.1].pop();
                proof {
                    assert(topology::links_of(self.connections@) =~= before.links) by {
                        assert forall|a: int| 0 <= a < before.links.len() implies #[trigger] topology::links_of(
                            self.connections@,
                        )[a] =~= before.links[a] by {
                            assert forall|p: int|
                                0 <= p < before.links[a].len() implies #[trigger] topology::links_of(
                                self.connections@,
                            )[a][p] =~= before.links[a][p] by {}
                        }
                    }
                }
                Err(Error::CycleDetected { from: source.0, to: dest.0 })
            },
        }
    }

    /// The order in which the processors run: the topological order of the
    /// links, which exists as the links of a graph hold no cycle.
    pub fn get_topological_sorting(&self) -> (sorted: Option<Vec<usize>>)
        requires
            self.well_formed(),
        ensures
            sorted is Some,
            topology::ints(sorted->0@) == self@.order,
            topology::topological_order(self@.links) == Some(self@.order),
    {
        topological_sort(&self.connections)
    }

    /// Passes one block through the graph.
    ///
    /// All blocks of the processors are cleared to equilibrium. The columns of
    /// `inputs` are copied to the input ports that the inputs of the graph
    /// are wired to. Then the processors run in topological order, each on
    /// its input block, and what each puts out is added to the input ports
    /// that its output ports feed. At last every column of `outputs` is set
    /// to the sum of the output ports wired to that output of the graph. A
    /// processor that leaves its output block in another shape than its
    /// ports give puts out equilibrium.
    ///
    /// Every processor is run once, by one call of [`Unit::run`]: on the
    /// input block that it is left with, which holds all that feeds it, and
    /// on an output block at equilibrium.
    pub fn process_graph(
        &mut self,
        kit: &Kit<F>,
        inputs: &BufferSet<F>,
        outputs: &mut BufferSet<F>,
    )
        requires
            old(self).well_formed(),
            old(self)@.takes(inputs@, old(outputs)@),
        ensures
            final(self).well_formed(),
            final(self)@ == old(self)@,
            dataflow::is_routed(
                *kit,
                old(self)@,
                inputs@,
                final(self).input_blocks(),
                final(self).output_blocks(),
                final(outputs)@,
            ),
            exists|runs: Seq<&mut Unit<dyn Processor<F>>>, blocks: Seq<&mut BufferSet<F>>|
                {
                    &&& #[trigger] runs.len() == old(self)@.units()
                    &&& #[trigger] blocks.len() == old(self)@.units()
                    &&& forall|u: int|
                        0 <= u < old(self)@.units() ==> {
                            &&& &(*(#[trigger] runs[u])).processor == old(self).processor(u)
                            &&& &final(runs[u]).processor == final(self).processor(u)
                            &&& kit.is_silent_block(
                                (*blocks[u])@,
                                old(self)@.block,
                                old(self)@.outputs[u],
                            )
                            &&& call_ensures(
                                Unit::<dyn Processor<F>>::run::<F>,
                                (runs[u], &final(self).input_blocks()[u], blocks[u]),
                                (),
                            )
                            &&& if frame::is_block(
                                (*final(blocks[u]))@,
                                old(self)@.block,
                                old(self)@.outputs[u],
                            ) {
                                final(self).output_blocks()[u] == *final(blocks[u])
                            } else {
                                kit.is_silent_block(
                                    final(self).output_blocks()[u]@,
                                    old(self)@.block,
                                    old(self)@.outputs[u],
                                )
                            }
                        }
                },
    {
        let ghost wiring = self@;
        let ghost links = wiring.links;
        let ghost order = wiring.order;
        let ghost len = wiring.block;
        proof {
            topology::lemma_order_is_linearization(links);
            assert forall|i: int| 0 <= i < wiring.graph_inputs.len() implies dataflow::are_ports(
                wiring.inputs,
                (#[trigger] self.input_connections@[i])@,
            ) by {
                assert forall|j: int|
                    0 <= j < wiring.graph_inputs[i].len() implies dataflow::is_port(
                    wiring.inputs,
                    #[trigger] wiring.graph_inputs[i][j],
                ) by {}
            }
        }
        clear_blocks(kit, &mut self.input_buffers, Ghost(len), Ghost(wiring.inputs));
        clear_blocks(kit, &mut self.output_buffers, Ghost(len), Ghost(wiring.outputs));
        seed_inputs(
            &mut self.input_buffers,
            &self.input_connections,
            inputs,
            Ghost(wiring.inputs),
        );
        let ghost seeded = self.input_buffers@;
        proof {
            assert forall|j: int| 0 <= j < order.len() implies kit.is_silent_block(
                self.output_buffers@[#[trigger] order[j]]@,
                len,
                wiring.outputs[order[j]],
            ) by {
                let u = order[j];
                assert forall|s: int, p: int|
                    0 <= s < len && 0 <= p < wiring.outputs[u] implies kit.is_silence(
                    #[trigger] self.output_buffers@[u]@[s]@[p],
                ) by {
                    assert(kit.is_silence(
                        dataflow::frame_at(self.output_buffers@, (u as usize, p as usize), s),
                    ));
                }
            }
            let runs = Seq::<&mut Unit<dyn Processor<F>>>::new(order.len(), |u: int| arbitrary());
            let blocks = Seq::<&mut BufferSet<F>>::new(order.len(), |u: int| arbitrary());
            assert(runs.len() == order.len() && blocks.len() == order.len());
        }
        let mut k: usize = 0;
        while k < self.topological_sorting.len()
            invariant
                k <= order.len(),
                self@ == wiring,
                wiring == old(self)@,
                wiring.valid(),
                links == wiring.links,
                order == wiring.order,
                len == wiring.block,
                topology::is_linearization(links, order),
                self.units@.len() == wiring.units(),
                dataflow::are_blocks(self.input_buffers@, len, wiring.inputs),
                dataflow::are_blocks(self.output_buffers@, len, wiring.outputs),
                forall|j: int|
                    k <= j < order.len() ==> {
                        &&& self.units@[#[trigger] order[j]] == old(self).units@[order[j]]
                        &&& kit.is_silent_block(
                            self.output_buffers@[order[j]]@,
                            len,
                            wiring.outputs[order[j]],
                        )
                    },
                exists|runs: Seq<&mut Unit<dyn Processor<F>>>, blocks: Seq<&mut BufferSet<F>>|
                    {
                        &&& #[trigger] runs.len() == order.len()
                        &&& #[trigger] blocks.len() == order.len()
                        &&& forall|i: int|
                            0 <= i < k ==> {
                                &&& *(#[trigger] runs[order[i]]) == old(self).units@[order[i]]
                                &&& *final(runs[order[i]]) == self.units@[order[i]]
                                &&& kit.is_silent_block(
                                    (*blocks[order[i]])@,
                                    len,
                                    wiring.outputs[order[i]],
                                )
                                &&& call_ensures(
                                    Unit::<dyn Processor<F>>::run::<F>,
                                    (runs[order[i]], &self.input_buffers@[order[i]], blocks[order[i]]),
                                    (),
                                )
                                &&& if frame::is_block(
                                    (*final(blocks[order[i]]))@,
                                    len,
                                    wiring.outputs[order[i]],
                                ) {
                                    self.output_buffers@[order[i]] == *final(blocks[order[i]])
                                } else {
                                    kit.is_silent_block(
                                        self.output_buffers@[order[i]]@,
                                        len,
                                        wiring.outputs[order[i]],
                                    )
                                }
                            }
                    },
                forall|dest: PortId, s: int|
                    wiring.is_input(dest) && 0 <= s < len ==> kit.is_mix(
                        dataflow::frame_at(seeded, dest, s),
                        dataflow::frames_at(
                            self.output_buffers@,
                            dataflow::sources(links, order, dest, k as nat),
                            s,
                        ),
                        #[trigger] dataflow::frame_at(self.input_buffers@, dest, s),
                    ),
            decreases order.len() - k,
        {
            let u = self.topological_sorting[k];
            let ghost outs_before = self.output_buffers@;
            let ghost ins_before = self.input_buffers@;
            assert(order[k as int] == u);
            let ghost units_before = self.units@;
            self.units[u].run(&self.input_buffers[u], &mut self.output_buffers[u]);
            let ghost made = self.output_buffers@[u as int];
            assert(exists|unit: &mut Unit<dyn Processor<F>>, block: &mut BufferSet<F>|
                {
                    &&& *unit == units_before[u as int]
                    &&& *final(unit) == self.units@[u as int]
                    &&& *block == outs_before[u as int]
                    &&& *final(block) == made
                    &&& #[trigger] call_ensures(
                        Unit::<dyn Processor<F>>::run::<F>,
                        (unit, &ins_before[u as int], block),
                        (),
                    )
                });
            if !has_shape(&self.output_buffers[u], self.buffersize, self.outputs_amts[u]) {
                self.output_buffers[u] = empty_buffer(kit, self.outputs_amts[u], self.buffersize);
            }
            let ghost outs = self.output_buffers@;
            proof {
                assert(links[u as int].len() == wiring.outputs[u as int]);
                assert forall|p: int| 0 <= p < self.connections@[u as int]@.len() implies dataflow::are_ports(
                    wiring.inputs,
                    (#[trigger] self.connections@[u as int]@[p])@,
                ) by {
                    assert forall|j: int|
                        0 <= j < links[u as int][p].len() implies dataflow::is_port(
                        wiring.inputs,
                        #[trigger] links[u as int][p][j],
                    ) by {}
                }
            }
            route_unit(
                kit,
                &mut self.input_buffers,
                &self.connections[u],
                &self.output_buffers[u],
                Ghost(wiring.inputs),
            );
            proof {
                assert(lists(self.connections@[u as int]@) =~= links[u as int]);
                assert forall|dest: PortId, s: int|
                    wiring.is_input(dest) && 0 <= s < len implies kit.is_mix(
                    dataflow::frame_at(seeded, dest, s),
                    dataflow::frames_at(
                        outs,
                        dataflow::sources(links, order, dest, (k + 1) as nat),
                        s,
                    ),
                    #[trigger] dataflow::frame_at(self.input_buffers@, dest, s),
                ) by {
                    let earlier = dataflow::sources(links, order, dest, k as nat);
                    let added = dataflow::unit_sources(links, u as int, dest);
                    dataflow::lemma_sources(links, order, dest, k as nat);
                    assert(dataflow::frames_at(outs, earlier, s)
                        =~= dataflow::frames_at(outs_before, earlier, s));
                    dataflow::lemma_unit_frames(outs, links, u as int, dest, s);
                    assert(dataflow::frames_at(outs, earlier + added, s)
                        =~= dataflow::frames_at(outs, earlier, s)
                        + dataflow::frames_at(outs, added, s));
                    kit.lemma_mix_concat(
                        dataflow::frame_at(seeded, dest, s),
                        dataflow::frames_at(outs, earlier, s),
                        dataflow::frame_at(ins_before, dest, s),
                        dataflow::frames_at(outs, added, s),
                        dataflow::frame_at(self.input_buffers@, dest, s),
                    );
                }
            }
            proof {
                assert forall|v: int|
                    0 <= v < wiring.units() && !topology::has_edge(
                        links,
                        u as int,
                        v,
                    ) implies #[trigger] self.input_buffers@[v] == ins_before[v] by {}
                assert forall|j: int| k + 1 <= j < order.len() implies {
                    &&& self.units@[#[trigger] order[j]] == old(self).units@[order[j]]
                    &&& kit.is_silent_block(
                        self.output_buffers@[order[j]]@,
                        len,
                        wiring.outputs[order[j]],
                    )
                } by {
                    assert(order[j] != order[k as int]);
                }
                let (runs, blocks) = choose|
                    runs: Seq<&mut Unit<dyn Processor<F>>>,
                    blocks: Seq<&mut BufferSet<F>>,
                |
                    {
                        &&& #[trigger] runs.len() == order.len()
                        &&& #[trigger] blocks.len() == order.len()
                        &&& forall|i: int|
                            0 <= i < k ==> {
                                &&& *(#[trigger] runs[order[i]]) == old(self).units@[order[i]]
                                &&& *final(runs[order[i]]) == units_before[order[i]]
                                &&& kit.is_silent_block(
                                    (*blocks[order[i]])@,
                                    len,
                                    wiring.outputs[order[i]],
                                )
                                &&& call_ensures(
                                    Unit::<dyn Processor<F>>::run::<F>,
                                    (runs[order[i]], &ins_before[order[i]], blocks[order[i]]),
                                    (),
                                )
                                &&& if frame::is_block(
                                    (*final(blocks[order[i]]))@,
                                    len,
                                    wiring.outputs[order[i]],
                                ) {
                                    outs_before[order[i]] == *final(blocks[order[i]])
                                } else {
                                    kit.is_silent_block(
                                        outs_before[order[i]]@,
                                        len,
                                        wiring.outputs[order[i]],
                                    )
                                }
                            }
                    };
                let (unit, block) = choose|unit: &mut Unit<dyn Processor<F>>, block: &mut BufferSet<F>|
                    {
                        &&& *unit == units_before[u as int]
                        &&& *final(unit) == self.units@[u as int]
                        &&& *block == outs_before[u as int]
                        &&& *final(block) == made
                        &&& #[trigger] call_ensures(
                            Unit::<dyn Processor<F>>::run::<F>,
                            (unit, &ins_before[u as int], block),
                            (),
                        )
                    };
                let longer = runs.update(u as int, unit);
                let more = blocks.update(u as int, block);
                assert(longer.len() == order.len() && more.len() == order.len());
                assert forall|i: int| 0 <= i < k + 1 implies {
                    &&& *(#[trigger] longer[order[i]]) == old(self).units@[order[i]]
                    &&& *final(longer[order[i]]) == self.units@[order[i]]
                    &&& kit.is_silent_block((*more[order[i]])@, len, wiring.outputs[order[i]])
                    &&& call_ensures(
                        Unit::<dyn Processor<F>>::run::<F>,
                        (longer[order[i]], &self.input_buffers@[order[i]], more[order[i]]),
                        (),
                    )
                    &&& if frame::is_block(
                        (*final(more[order[i]]))@,
                        len,
                        wiring.outputs[order[i]],
                    ) {
                        self.output_buffers@[order[i]] == *final(more[order[i]])
                    } else {
                        kit.is_silent_block(
                            self.output_buffers@[order[i]]@,
                            len,
                            wiring.outputs[order[i]],
                        )
                    }
                } by {
                    let v = order[i];
                    if topology::has_edge(links, order[k as int], order[i]) {
                        assert(false);
                    }
                    assert(self.input_buffers@[v] == ins_before[v]);
                    if i < k {
                        assert(v != u);
                        assert(longer[v] == runs[order[i]]);
                        assert(more[v] == blocks[order[i]]);
                    } else {
                        assert(v == u);
                        assert(longer[v] == unit);
                        assert(more[v] == block);
                    }
                }
            }
            k += 1;
        }
        proof {
            let (runs, blocks) = choose|
                runs: Seq<&mut Unit<dyn Processor<F>>>,
                blocks: Seq<&mut BufferSet<F>>,
            |
                {
                    &&& #[trigger] runs.len() == order.len()
                    &&& #[trigger] blocks.len() == order.len()
                    &&& forall|i: int|
                        0 <= i < order.len() ==> {
                            &&& *(#[trigger] runs[order[i]]) == old(self).units@[order[i]]
                            &&& *final(runs[order[i]]) == self.units@[order[i]]
                            &&& kit.is_silent_block(
                                (*blocks[order[i]])@,
                                len,
                                wiring.outputs[order[i]],
                            )
                            &&& call_ensures(
                                Unit::<dyn Processor<F>>::run::<F>,
                                (runs[order[i]], &self.input_buffers@[order[i]], blocks[order[i]]),
                                (),
                            )
                            &&& if frame::is_block(
                                (*final(blocks[order[i]]))@,
                                len,
                                wiring.outputs[order[i]],
                            ) {
                                self.output_buffers@[order[i]] == *final(blocks[order[i]])
                            } else {
                                kit.is_silent_block(
                                    self.output_buffers@[order[i]]@,
                                    len,
                                    wiring.outputs[order[i]],
                                )
                            }
                        }
                };
            assert(runs.len() == wiring.units() && blocks.len() == wiring.units());
            assert forall|u: int| 0 <= u < wiring.units() implies {
                &&& &(*(#[trigger] runs[u])).processor == old(self).processor(u)
                &&& &(*final(runs[u])).processor == self.processor(u)
                &&& kit.is_silent_block((*blocks[u])@, len, wiring.outputs[u])
                &&& call_ensures(
                    Unit::<dyn Processor<F>>::run::<F>,
                    (runs[u], &self.input_buffers@[u], blocks[u]),
                    (),
                )
                &&& if frame::is_block((*final(blocks[u]))@, len, wiring.outputs[u]) {
                    self.output_buffers@[u] == *final(blocks[u])
                } else {
                    kit.is_silent_block(self.output_buffers@[u]@, len, wiring.outputs[u])
                }
            } by {
                let i = topology::lemma_linearization_covers(links, order, u);
                assert(runs[order[i]] == runs[u]);
            }
        }
        proof {
            assert forall|o: int| 0 <= o < wiring.graph_outputs.len() implies dataflow::are_ports(
                wiring.outputs,
                (#[trigger] self.output_connections@[o])@,
            ) by {
                assert forall|j: int|
                    0 <= j < wiring.graph_outputs[o].len() implies dataflow::is_port(
                    wiring.outputs,
                    #[trigger] wiring.graph_outputs[o][j],
                ) by {}
            }
        }
        collect_outputs(
            kit,
            outputs,
            &self.output_connections,
            &self.output_buffers,
            Ghost(wiring.outputs),
        );
        proof {
            assert forall|dest: PortId, s: int|
                wiring.is_input(dest) && 0 <= s < len implies dataflow::is_fed(
                *kit,
                links,
                order,
                wiring.graph_inputs,
                inputs@,
                self.output_buffers@,
                dest,
                s,
                #[trigger] dataflow::frame_at(self.input_buffers@, dest, s),
            ) by {
                let start = dataflow::frame_at(seeded, dest, s);
                assert(dataflow::is_start(*kit, wiring.graph_inputs, inputs@, dest, s, start));
            }
        }
    }

    /// The description of the links as text: the number of processors, and
    /// then every output port with the input ports that it feeds.
    pub fn get_description_string(&self) -> (description: String)
        ensures
            description@ == text::description(self@.links),
    {
        text::describe(&self.connections)
    }

    /// The number of inputs of the graph.
    pub fn inputs_amt(&self) -> (amt: usize)
        ensures
            amt == self@.graph_inputs.len(),
    {
        self.input_connections.len()
    }

    /// The number of outputs of the graph.
    pub fn outputs_amt(&self) -> (amt: usize)
        ensures
            amt == self@.graph_outputs.len(),
    {
        self.output_connections.len()
    }

    /// The number of positions in a block.
    pub fn buffersize(&self) -> (len: usize)
        ensures
            len == self@.block,
    {
        self.buffersize
    }

    /// Tells whether `port` is an input port of a processor of the graph.
    pub fn inport_exists(&self, port: PortId) -> (exists: bool)
        ensures
            exists == self@.is_input(port),
    {
        if port.0 < self.inputs_amts.len() {
            if port.1 < self.inputs_amts[port.0] {
                return true;
            }
        }
        false
    }

    /// Tells whether `port` is an output port of a processor of the graph.
    pub fn outport_exists(&self, port: PortId) -> (exists: bool)
        ensures
            exists == self@.is_output(port),
    {
        if port.0 < self.outputs_amts.len() {
            if port.1 < self.outputs_amts[port.0] {
                return true;
            }
        }
        false
    }
}

} // verus!
