//! The state of a graph as a mathematical object: the ports of its
//! processors, the links between them, the ports of the graph itself, and the
//! order in which the processors run.

use crate::frame;
use crate::topology::Links;
use crate::topology::PortId;
use crate::topology;
use vstd::prelude::*;

verus! {

/// Why a connection was refused.
#[derive(Debug, Clone, Copy, PartialEq, Eq, Structural)]
pub enum Error {
    /// The port does not exist: there is no processor `unit`, or it has no
    /// port `port` of the kind asked for, or the port was to be wired to an
    /// input or output of the graph that does not exist.
    PortOutOfRange { unit: usize, port: usize },
    /// A link from processor `from` to processor `to` would close a cycle.
    CycleDetected { from: usize, to: usize },
}

/// The wiring of a graph.
pub struct Wiring {
    /// The number of positions in a block.
    pub block: nat,
    /// For every processor, the number of its input ports.
    pub inputs: Seq<nat>,
    /// For every processor, the number of its output ports.
    pub outputs: Seq<nat>,
    /// For every processor and output port, the input ports that it feeds.
    pub links: Links,
    /// For every input of the graph, the input ports that it feeds.
    pub graph_inputs: Seq<Seq<PortId>>,
    /// For every output of the graph, the output ports that feed it.
    pub graph_outputs: Seq<Seq<PortId>>,
    /// The processors in the order in which they run.
    pub order: Seq<int>,
}

/// `list` with `port` at its end, unless it holds `port` already.
pub open spec fn with_port(list: Seq<PortId>, port: PortId) -> Seq<PortId> {
    if list.contains(port) {
        list
    } else {
        list.push(port)
    }
}

impl Wiring {
    /// The number of processors.
    pub open spec fn units(self) -> nat {
        self.links.len()
    }

    /// `port` is an input port of a processor.
    pub open spec fn is_input(self, port: PortId) -> bool {
        port.0 < self.inputs.len() && port.1 < self.inputs[port.0 as int]
    }

    /// `port` is an output port of a processor.
    pub open spec fn is_output(self, port: PortId) -> bool {
        port.0 < self.outputs.len() && port.1 < self.outputs[port.0 as int]
    }

    /// Every list of `lists` names input ports only, and none twice.
    pub open spec fn are_inputs(self, lists: Seq<Seq<PortId>>) -> bool {
        &&& forall|i: int, j: int|
            0 <= i < lists.len() && 0 <= j < lists[i].len() ==> self.is_input(
                #[trigger] lists[i][j],
            )
        &&& forall|i: int| 0 <= i < lists.len() ==> (#[trigger] lists[i]).no_duplicates()
    }

    /// Every list of `lists` names output ports only, and none twice.
    pub open spec fn are_outputs(self, lists: Seq<Seq<PortId>>) -> bool {
        &&& forall|i: int, j: int|
            0 <= i < lists.len() && 0 <= j < lists[i].len() ==> self.is_output(
                #[trigger] lists[i][j],
            )
        &&& forall|i: int| 0 <= i < lists.len() ==> (#[trigger] lists[i]).no_duplicates()
    }

    /// `graph_in` and `graph_out` are blocks that fit the inputs and the
    /// outputs of the graph: they have one frame set for each position of a
    /// block, with one frame for each input, or output, of the graph.
    pub open spec fn takes<F>(self, graph_in: Seq<Vec<F>>, graph_out: Seq<Vec<F>>) -> bool {
        &&& frame::is_block(graph_in, self.block, self.graph_inputs.len())
        &&& frame::is_block(graph_out, self.block, self.graph_outputs.len())
    }

    /// What holds of the wiring of every graph: the processors and their
    /// output ports can be counted in a machine word, links start at output
    /// ports and end at input ports, no link occurs twice, the links hold no
    /// cycle, and the order is the topological order of the links.
    pub open spec fn valid(self) -> bool {
        &&& self.links.len() <= usize::MAX
        &&& self.inputs.len() == self.links.len()
        &&& self.outputs.len() == self.links.len()
        &&& forall|u: int|
            0 <= u < self.links.len() ==> (#[trigger] self.links[u]).len() == self.outputs[u]
                && self.outputs[u] <= usize::MAX
        &&& forall|u: int| 0 <= u < self.links.len() ==> self.are_inputs(#[trigger] self.links[u])
        &&& self.are_inputs(self.graph_inputs)
        &&& self.are_outputs(self.graph_outputs)
        &&& topology::topological_order(self.links) == Some(self.order)
    }

    /// The wiring of a graph without processors.
    pub open spec fn empty(block: nat) -> Wiring {
        Wiring {
            block,
            inputs: Seq::empty(),
            outputs: Seq::empty(),
            links: Seq::empty(),
            graph_inputs: Seq::empty(),
            graph_outputs: Seq::empty(),
            order: Seq::empty(),
        }
    }

    /// The links, and with them the order, replaced.
    pub open spec fn relinked(self, links: Links) -> Wiring {
        Wiring { links, order: topology::topological_order(links)->0, ..self }
    }

    /// The wiring with one more processor, which has `inputs` input ports and
    /// `outputs` output ports, none of them connected.
    pub open spec fn with_unit(self, inputs: nat, outputs: nat) -> Wiring {
        Wiring {
            inputs: self.inputs.push(inputs),
            outputs: self.outputs.push(outputs),
            ..self.relinked(self.links.push(Seq::new(outputs, |p: int| Seq::empty())))
        }
    }

    /// The links with one more, from `source` to `dest`, unless it is there
    /// already.
    pub open spec fn linked(self, source: PortId, dest: PortId) -> Links {
        let ports = self.links[source.0 as int];
        self.links.update(
            source.0 as int,
            ports.update(source.1 as int, with_port(ports[source.1 as int], dest)),
        )
    }

    /// What an attempt to link `source` to `dest` comes to.
    pub open spec fn link_result(self, source: PortId, dest: PortId) -> Result<(), Error> {
        if !self.is_output(source) {
            Err(Error::PortOutOfRange { unit: source.0, port: source.1 })
        } else if !self.is_input(dest) {
            Err(Error::PortOutOfRange { unit: dest.0, port: dest.1 })
        } else if topology::topological_order(self.linked(source, dest)) is None {
            Err(Error::CycleDetected { from: source.0, to: dest.0 })
        } else {
            Ok(())
        }
    }

    /// The wiring after an attempt to link `source` to `dest`: with the link
    /// where the attempt succeeds, unchanged where it fails.
    pub open spec fn with_link(self, source: PortId, dest: PortId) -> Wiring {
        if self.link_result(source, dest) is Ok {
            self.relinked(self.linked(source, dest))
        } else {
            self
        }
    }

    /// The wiring with `count` inputs of the graph, none of them connected.
    pub open spec fn with_graph_inputs(self, count: nat) -> Wiring {
        Wiring { graph_inputs: Seq::new(count, |i: int| Seq::empty()), ..self }
    }

    /// The wiring with `count` outputs of the graph, none of them connected.
    pub open spec fn with_graph_outputs(self, count: nat) -> Wiring {
        Wiring { graph_outputs: Seq::new(count, |i: int| Seq::empty()), ..self }
    }

    /// What an attempt to wire input `input` of the graph to the input port
    /// `port` comes to.
    pub open spec fn input_result(self, input: usize, port: PortId) -> Result<(), Error> {
        if self.is_input(port) && input < self.graph_inputs.len() {
            Ok(())
        } else {
            Err(Error::PortOutOfRange { unit: port.0, port: port.1 })
        }
    }

    /// The wiring after an attempt to wire input `input` of the graph to the
    /// input port `port`.
    pub open spec fn with_input(self, input: usize, port: PortId) -> Wiring {
        if self.input_result(input, port) is Ok {
            Wiring {
                graph_inputs: self.graph_inputs.update(
                    input as int,
                    with_port(self.graph_inputs[input as int], port),
                ),
                ..self
            }
        } else {
            self
        }
    }

    /// What an attempt to wire the output port `port` to output `output` of
    /// the graph comes to.
    pub open spec fn output_result(self, output: usize, port: PortId) -> Result<(), Error> {
        if self.is_output(port) && output < self.graph_outputs.len() {
            Ok(())
        } else {
            Err(Error::PortOutOfRange { unit: port.0, port: port.1 })
        }
    }

    /// The wiring after an attempt to wire the output port `port` to output
    /// `output` of the graph.
    pub open spec fn with_output(self, output: usize, port: PortId) -> Wiring {
        if self.output_result(output, port) is Ok {
            Wiring {
                graph_outputs: self.graph_outputs.update(
                    output as int,
                    with_port(self.graph_outputs[output as int], port),
                ),
                ..self
            }
        } else {
            self
        }
    }
}

impl Wiring {
    /// The links of a valid wiring end at processors of the wiring.
    pub proof fn lemma_links_closed(self)
        requires
            self.valid(),
        ensures
            topology::links_closed(self.links),
    {
    }

    /// The wiring without processors is valid.
    pub proof fn lemma_empty_valid(block: nat)
        ensures
            Wiring::empty(block).valid(),
    {
    }

    /// The order of a valid wiring names every processor once, and each one
    /// before all the processors that it feeds.
    pub proof fn lemma_order_respects_links(self)
        requires
            self.valid(),
        ensures
            topology::is_linearization(self.links, self.order),
    {
        topology::lemma_order_is_linearization(self.links);
    }

    /// The links of a valid wiring hold no cycle.
    pub proof fn lemma_never_cyclic(self)
        requires
            self.valid(),
        ensures
            !topology::is_cyclic(self.links),
    {
        topology::lemma_order_iff_acyclic(self.links);
    }

    /// Where no port is linked, the processors run in ascending order of
    /// their indices, which is the order in which they were added.
    pub proof fn lemma_unlinked_order(self)
        requires
            self.valid(),
            topology::is_unlinked(self.links),
        ensures
            self.order == Seq::new(self.units(), |i: int| i),
    {
        topology::lemma_unlinked_order(self.links);
    }

    /// A link between two ports that exist is made exactly where it closes
    /// no cycle. A link that would close one is refused, and the wiring stays
    /// as it is.
    pub proof fn lemma_cycle_refused(self, source: PortId, dest: PortId)
        requires
            self.valid(),
            self.is_output(source),
            self.is_input(dest),
        ensures
            topology::is_cyclic(self.linked(source, dest)) ==> self.link_result(source, dest)
                == Err::<(), Error>(Error::CycleDetected { from: source.0, to: dest.0 })
                && self.with_link(source, dest) == self,
            !topology::is_cyclic(self.linked(source, dest)) ==> self.link_result(
                source,
                dest,
            ) == Ok::<(), Error>(()) && self.with_link(source, dest).links == self.linked(
                source,
                dest,
            ),
    {
        topology::lemma_order_iff_acyclic(self.linked(source, dest));
    }

    /// A link from or to a port that does not exist is refused, and the
    /// wiring stays as it is.
    pub proof fn lemma_port_refused(self, source: PortId, dest: PortId)
        requires
            !self.is_output(source) || !self.is_input(dest),
        ensures
            self.link_result(source, dest) matches Err(Error::PortOutOfRange { .. }),
            self.with_link(source, dest) == self,
    {
    }

    /// A valid wiring stays valid when a processor is added.
    pub proof fn lemma_with_unit_valid(self, inputs: nat, outputs: nat)
        requires
            self.valid(),
            self.units() < usize::MAX,
            outputs <= usize::MAX,
        ensures
            self.with_unit(inputs, outputs).valid(),
    {
        let ports = Seq::new(outputs, |p: int| Seq::<PortId>::empty());
        let wider = self.with_unit(inputs, outputs);
        topology::lemma_new_unit_keeps_order(self.links, ports);
        assert forall|port: PortId| self.is_input(port) implies wider.is_input(port) by {}
        assert forall|port: PortId| self.is_output(port) implies wider.is_output(port) by {}
    }

    /// A valid wiring stays valid through an attempt to add a link.
    pub proof fn lemma_with_link_valid(self, source: PortId, dest: PortId)
        requires
            self.valid(),
        ensures
            self.with_link(source, dest).valid(),
    {
        if self.link_result(source, dest) is Ok {
            let after = self.with_link(source, dest);
            assert forall|u: int| 0 <= u < after.links.len() implies after.are_inputs(
                #[trigger] after.links[u],
            ) by {}
        }
    }

    /// A valid wiring stays valid when the inputs of the graph are set anew.
    pub proof fn lemma_with_graph_inputs_valid(self, count: nat)
        requires
            self.valid(),
        ensures
            self.with_graph_inputs(count).valid(),
    {
    }

    /// A valid wiring stays valid when the outputs of the graph are set anew.
    pub proof fn lemma_with_graph_outputs_valid(self, count: nat)
        requires
            self.valid(),
        ensures
            self.with_graph_outputs(count).valid(),
    {
    }

    /// A valid wiring stays valid through an attempt to wire an input of the
    /// graph.
    pub proof fn lemma_with_input_valid(self, input: usize, port: PortId)
        requires
            self.valid(),
        ensures
            self.with_input(input, port).valid(),
    {
    }

    /// A valid wiring stays valid through an attempt to wire an output of the
    /// graph.
    pub proof fn lemma_with_output_valid(self, output: usize, port: PortId)
        requires
            self.valid(),
        ensures
            self.with_output(output, port).valid(),
    {
    }
}

} // verus!
