//! What a block does on its way through a graph, as a mathematical object:
//! which output ports feed an input port and in which order, what an input
//! port holds once the processors have run, and what comes out of the graph.

use crate::frame::BufferSet;
use crate::frame::Kit;
use crate::frame;
use crate::topology::Links;
use crate::topology::PortId;
use crate::topology;
use crate::wiring::Wiring;
use sample::FloatSample;
use sample::Frame;
use vstd::prelude::*;

verus! {

/// One block for each processor: `blocks[u]` has `len` positions and
/// `widths[u]` ports.
pub open spec fn are_blocks<F>(blocks: Seq<BufferSet<F>>, len: nat, widths: Seq<nat>) -> bool {
    &&& blocks.len() == widths.len()
    &&& forall|u: int|
        0 <= u < blocks.len() ==> frame::is_block((#[trigger] blocks[u])@, len, widths[u])
}

/// `port` is a port of a processor that has `widths[port.0]` ports.
pub open spec fn is_port(widths: Seq<nat>, port: PortId) -> bool {
    port.0 < widths.len() && port.1 < widths[port.0 as int]
}

/// Every port of `list` is a port by `widths`, and none occurs twice.
pub open spec fn are_ports(widths: Seq<nat>, list: Seq<PortId>) -> bool {
    &&& forall|j: int| 0 <= j < list.len() ==> is_port(widths, #[trigger] list[j])
    &&& list.no_duplicates()
}

/// The frame of processor `port.0` at position `s` and port `port.1`.
pub open spec fn frame_at<F>(blocks: Seq<BufferSet<F>>, port: PortId, s: int) -> F {
    blocks[port.0 as int]@[s]@[port.1 as int]
}

/// The frames of the ports `ports` at position `s`, in the order of `ports`.
pub open spec fn frames_at<F>(blocks: Seq<BufferSet<F>>, ports: Seq<PortId>, s: int) -> Seq<F> {
    ports.map_values(|port: PortId| frame_at(blocks, port, s))
}

/// The output port `source` feeds the input port `dest`.
pub open spec fn feeds(links: Links, source: PortId, dest: PortId) -> bool {
    &&& source.0 < links.len()
    &&& source.1 < links[source.0 as int].len()
    &&& links[source.0 as int][source.1 as int].contains(dest)
}

/// The output ports below `end` whose list in `ports` holds `dest`, ascending.
pub open spec fn feeding_ports(ports: Seq<Seq<PortId>>, dest: PortId, end: nat) -> Seq<int>
    decreases end,
{
    if end == 0 {
        Seq::empty()
    } else {
        let rest = feeding_ports(ports, dest, (end - 1) as nat);
        if ports[end - 1].contains(dest) {
            rest.push(end - 1)
        } else {
            rest
        }
    }
}

/// The frames of `block` at position `s` in the columns `columns`.
pub open spec fn column_frames<F>(block: Seq<Vec<F>>, columns: Seq<int>, s: int) -> Seq<F> {
    columns.map_values(|p: int| block[s]@[p])
}

/// The output ports of processor `u` that feed `dest`, ascending.
pub open spec fn unit_sources(links: Links, u: int, dest: PortId) -> Seq<PortId> {
    feeding_ports(links[u], dest, links[u].len()).map_values(|p: int| (u as usize, p as usize))
}

/// The output ports that feed `dest` among those of the first `end`
/// processors of `order`: processor by processor as `order` has them, and
/// port by port.
pub open spec fn sources(links: Links, order: Seq<int>, dest: PortId, end: nat) -> Seq<PortId>
    decreases end,
{
    if end == 0 {
        Seq::empty()
    } else {
        sources(links, order, dest, (end - 1) as nat) + unit_sources(links, order[end - 1], dest)
    }
}

/// The last input of the graph below `end` whose list in `table` holds
/// `dest`, if there is one.
pub open spec fn feeder(table: Seq<Seq<PortId>>, dest: PortId, end: nat) -> Option<int>
    decreases end,
{
    if end == 0 {
        None
    } else if table[end - 1].contains(dest) {
        Some(end - 1)
    } else {
        feeder(table, dest, (end - 1) as nat)
    }
}

/// `frame` is what input port `dest` holds at position `s` before the
/// processors run: the frame of the last input of the graph that is wired to
/// it, or a frame at equilibrium where none is.
pub open spec fn is_start<F>(
    kit: Kit<F>,
    graph_inputs: Seq<Seq<PortId>>,
    graph_in: Seq<Vec<F>>,
    dest: PortId,
    s: int,
    frame: F,
) -> bool {
    match feeder(graph_inputs, dest, graph_inputs.len()) {
        Some(i) => frame == graph_in[s]@[i],
        None => kit.is_silence(frame),
    }
}

/// `frame` is what input port `dest` holds at position `s` once the
/// processors have run: what it held before, with the frames of all the
/// output ports that feed it added in the order in which the processors ran.
pub open spec fn is_fed<F>(
    kit: Kit<F>,
    links: Links,
    order: Seq<int>,
    graph_inputs: Seq<Seq<PortId>>,
    graph_in: Seq<Vec<F>>,
    outs: Seq<BufferSet<F>>,
    dest: PortId,
    s: int,
    frame: F,
) -> bool {
    exists|start: F| #[trigger]
        is_start(kit, graph_inputs, graph_in, dest, s, start) && kit.is_mix(
            start,
            frames_at(outs, sources(links, order, dest, order.len()), s),
            frame,
        )
}

/// `frame` is what the frames of `sources` at position `s` add up to,
/// starting from a frame at equilibrium.
pub open spec fn is_collected<F>(
    kit: Kit<F>,
    blocks: Seq<BufferSet<F>>,
    sources: Seq<PortId>,
    s: int,
    frame: F,
) -> bool {
    exists|quiet: F| #[trigger]
        kit.is_silence(quiet) && kit.is_mix(
            quiet,
            frames_at(blocks, sources, s),
            frame,
        )
}

/// What holds once a block is through a graph with wiring `wiring`:
/// `graph_in` was the block at the inputs of the graph, `ins` and `outs` are
/// the blocks that the processors were handed and put out, and `graph_out`
/// is the block at the outputs of the graph.
///
/// The blocks have the shapes that the wiring gives, every input port holds
/// what the inputs of the graph and the output ports that feed it gave it,
/// and every output of the graph holds the sum of the output ports wired to
/// it.
pub open spec fn is_routed<F>(
    kit: Kit<F>,
    wiring: Wiring,
    graph_in: Seq<Vec<F>>,
    ins: Seq<BufferSet<F>>,
    outs: Seq<BufferSet<F>>,
    graph_out: Seq<Vec<F>>,
) -> bool {
    &&& are_blocks(ins, wiring.block, wiring.inputs)
    &&& are_blocks(outs, wiring.block, wiring.outputs)
    &&& frame::is_block(graph_out, wiring.block, wiring.graph_outputs.len())
    &&& forall|dest: PortId, s: int|
        wiring.is_input(dest) && 0 <= s < wiring.block ==> is_fed(
            kit,
            wiring.links,
            wiring.order,
            wiring.graph_inputs,
            graph_in,
            outs,
            dest,
            s,
            #[trigger] frame_at(ins, dest, s),
        )
    &&& forall|o: int, s: int|
        0 <= o < wiring.graph_outputs.len() && 0 <= s < wiring.block ==> is_collected(
            kit,
            outs,
            wiring.graph_outputs[o],
            s,
            #[trigger] graph_out[s]@[o],
        )
}

/// The feeding ports below `end` are exactly the ports below `end` whose
/// list holds `dest`, in strictly ascending order.
pub proof fn lemma_feeding_ports(ports: Seq<Seq<PortId>>, dest: PortId, end: nat)
    ensures
        forall|j: int|
            0 <= j < feeding_ports(ports, dest, end).len() ==> {
                &&& 0 <= #[trigger] feeding_ports(ports, dest, end)[j] < end
                &&& ports[feeding_ports(ports, dest, end)[j]].contains(dest)
            },
        forall|i: int, j: int|
            0 <= i < j < feeding_ports(ports, dest, end).len() ==> feeding_ports(ports, dest, end)[i]
                < feeding_ports(ports, dest, end)[j],
        forall|p: int|
            0 <= p < end && (#[trigger] ports[p]).contains(dest) ==> feeding_ports(
                ports,
                dest,
                end,
            ).contains(p),
    decreases end,
{
    if end > 0 {
        let rest = feeding_ports(ports, dest, (end - 1) as nat);
        let all = feeding_ports(ports, dest, end);
        lemma_feeding_ports(ports, dest, (end - 1) as nat);
        assert forall|p: int| 0 <= p < end && (#[trigger] ports[p]).contains(dest) implies all.contains(
            p,
        ) by {
            if p < end - 1 {
                let j = choose|j: int| 0 <= j < rest.len() && rest[j] == p;
                assert(all[j] == p);
            } else {
                assert(all[rest.len() as int] == p);
            }
        }
    }
}

/// Every one of the sources among the first `end` processors of `order` is a
/// port of one of these processors.
pub proof fn lemma_sources(links: Links, order: Seq<int>, dest: PortId, end: nat)
    requires
        end <= order.len(),
        forall|i: int| 0 <= i < order.len() ==> 0 <= #[trigger] order[i] < links.len(),
        links.len() <= usize::MAX,
        forall|u: int| 0 <= u < links.len() ==> (#[trigger] links[u]).len() <= usize::MAX,
    ensures
        forall|j: int|
            0 <= j < sources(links, order, dest, end).len() ==> {
                let source = #[trigger] sources(links, order, dest, end)[j];
                &&& source.1 < links[source.0 as int].len()
                &&& exists|i: int| 0 <= i < end && #[trigger] order[i] == source.0
            },
    decreases end,
{
    if end > 0 {
        let u = order[end - 1];
        let earlier = sources(links, order, dest, (end - 1) as nat);
        lemma_sources(links, order, dest, (end - 1) as nat);
        lemma_feeding_ports(links[u], dest, links[u].len());
    }
}

/// The frames of a processor's sources are the frames of its block in the
/// columns that feed `dest`.
pub proof fn lemma_unit_frames<F>(blocks: Seq<BufferSet<F>>, links: Links, u: int, dest: PortId, s: int)
    requires
        0 <= u < links.len(),
        links.len() <= usize::MAX,
        links[u].len() <= usize::MAX,
    ensures
        frames_at(blocks, unit_sources(links, u, dest), s) == column_frames(
            blocks[u]@,
            feeding_ports(links[u], dest, links[u].len()),
            s,
        ),
{
    lemma_feeding_ports(links[u], dest, links[u].len());
}

/// The sources of `dest` among the first `end` processors of `order` are
/// exactly the output ports of these processors that feed `dest`, each once.
pub proof fn lemma_sources_are_feeders(links: Links, order: Seq<int>, dest: PortId, end: nat)
    requires
        end <= order.len(),
        forall|i: int| 0 <= i < order.len() ==> 0 <= #[trigger] order[i] < links.len(),
        forall|i: int, j: int| 0 <= i < j < order.len() ==> order[i] != order[j],
        links.len() <= usize::MAX,
        forall|u: int| 0 <= u < links.len() ==> (#[trigger] links[u]).len() <= usize::MAX,
    ensures
        forall|i: int, j: int|
            0 <= i < j < sources(links, order, dest, end).len() ==> sources(
                links,
                order,
                dest,
                end,
            )[i] != sources(links, order, dest, end)[j],
        forall|j: int|
            0 <= j < sources(links, order, dest, end).len() ==> feeds(
                links,
                #[trigger] sources(links, order, dest, end)[j],
                dest,
            ),
        forall|source: PortId, i: int|
            0 <= i < end && #[trigger] order[i] == source.0 && #[trigger] feeds(links, source, dest)
                ==> sources(links, order, dest, end).contains(source),
    decreases end,
{
    if end > 0 {
        let u = order[end - 1];
        let earlier = sources(links, order, dest, (end - 1) as nat);
        let columns = feeding_ports(links[u], dest, links[u].len());
        let all = sources(links, order, dest, end);
        lemma_sources_are_feeders(links, order, dest, (end - 1) as nat);
        lemma_sources(links, order, dest, (end - 1) as nat);
        lemma_feeding_ports(links[u], dest, links[u].len());
        assert forall|source: PortId, i: int|
            0 <= i < end && #[trigger] order[i] == source.0 && #[trigger] feeds(
                links,
                source,
                dest,
            ) implies all.contains(source) by {
            if i < end - 1 {
                let j = choose|j: int| 0 <= j < earlier.len() && earlier[j] == source;
                assert(all[j] == source);
            } else {
                let j = choose|j: int| 0 <= j < columns.len() && columns[j] == source.1;
                assert(all[earlier.len() + j] == source);
            }
        }
    }
}

/// The output port `a` is added before the output port `b`: its processor
/// runs earlier, or the two are ports of one processor and `a` is the lower.
pub open spec fn runs_before(order: Seq<int>, a: PortId, b: PortId) -> bool {
    exists|i: int, j: int|
        0 <= i <= j < order.len() && #[trigger] order[i] == a.0 && #[trigger] order[j] == b.0 && (i
            < j || a.1 < b.1)
}

/// The sources of `dest` stand in the order in which they are added: by the
/// processors as `order` has them, and by the ports of each processor.
pub proof fn lemma_sources_in_order(links: Links, order: Seq<int>, dest: PortId, end: nat)
    requires
        end <= order.len(),
        forall|i: int| 0 <= i < order.len() ==> 0 <= #[trigger] order[i] < links.len(),
        links.len() <= usize::MAX,
        forall|u: int| 0 <= u < links.len() ==> (#[trigger] links[u]).len() <= usize::MAX,
    ensures
        forall|i: int, j: int|
            0 <= i < j < sources(links, order, dest, end).len() ==> runs_before(
                order.take(end as int),
                #[trigger] sources(links, order, dest, end)[i],
                #[trigger] sources(links, order, dest, end)[j],
            ),
    decreases end,
{
    if end > 0 {
        let u = order[end - 1];
        let earlier = sources(links, order, dest, (end - 1) as nat);
        let all = sources(links, order, dest, end);
        let shorter = order.take(end - 1);
        let longer = order.take(end as int);
        lemma_sources_in_order(links, order, dest, (end - 1) as nat);
        lemma_sources(links, order, dest, (end - 1) as nat);
        lemma_feeding_ports(links[u], dest, links[u].len());
        assert forall|i: int, j: int| 0 <= i < j < all.len() implies runs_before(
            longer,
            #[trigger] all[i],
            #[trigger] all[j],
        ) by {
            if j < earlier.len() {
                let (x, y) = choose|x: int, y: int|
                    0 <= x <= y < shorter.len() && #[trigger] shorter[x] == earlier[i].0
                        && #[trigger] shorter[y] == earlier[j].0 && (x < y || earlier[i].1
                        < earlier[j].1);
            } else if i < earlier.len() {
                let x = choose|x: int| 0 <= x < end - 1 && #[trigger] order[x] == earlier[i].0;
                assert(longer[x] == order[x]);
                assert(longer[end - 1] == u);
            } else {
                assert(longer[end - 1] == u);
            }
        }
    }
}

/// `total` is the sum of `first` and `second`, added in this order to a
/// frame at equilibrium.
pub open spec fn is_sum_of_two<F>(kit: Kit<F>, first: F, second: F, total: F) -> bool {
    exists|quiet: F, one: F| #[trigger]
        kit.is_sum(quiet, first, one) && kit.is_silence(quiet) && kit.is_sum(one, second, total)
}

/// Fan-in: an input port that exactly two output ports feed, and no input
/// of the graph, holds the sum of what the two put out: a frame at
/// equilibrium, to which the frame of the port that runs earlier was added,
/// and then the frame of the other.
pub proof fn lemma_fan_in<F>(
    kit: Kit<F>,
    wiring: Wiring,
    graph_in: Seq<Vec<F>>,
    outs: Seq<BufferSet<F>>,
    dest: PortId,
    s: int,
    frame: F,
    a: PortId,
    b: PortId,
)
    requires
        wiring.valid(),
        a != b,
        forall|source: PortId| #[trigger]
            feeds(wiring.links, source, dest) <==> source == a || source == b,
        runs_before(wiring.order, a, b),
        feeder(wiring.graph_inputs, dest, wiring.graph_inputs.len()) is None,
        is_fed(
            kit,
            wiring.links,
            wiring.order,
            wiring.graph_inputs,
            graph_in,
            outs,
            dest,
            s,
            frame,
        ),
    ensures
        is_sum_of_two(kit, frame_at(outs, a, s), frame_at(outs, b, s), frame),
{
    let links = wiring.links;
    let order = wiring.order;
    let both = sources(links, order, dest, order.len());
    wiring.lemma_order_respects_links();
    lemma_sources_are_feeders(links, order, dest, order.len());
    lemma_sources_in_order(links, order, dest, order.len());
    assert(feeds(links, a, dest));
    assert(feeds(links, b, dest));
    let start = choose|start: F| #[trigger]
        is_start(kit, wiring.graph_inputs, graph_in, dest, s, start) && kit.is_mix(
            start,
            frames_at(outs, both, s),
            frame,
        );
    let frames = frames_at(outs, both, s);
    let single = frames.drop_last();
    let one = choose|one: F|
        kit.is_mix(start, single, one) && #[trigger] kit.is_sum(one, frames.last(), frame);
    let zero = choose|zero: F|
        kit.is_mix(start, single.drop_last(), zero) && #[trigger] kit.is_sum(
            zero,
            single.last(),
            one,
        );
}

/// An input port that no output port feeds holds exactly the frame of the
/// input of the graph that is wired to it.
pub proof fn lemma_only_input<F>(
    kit: Kit<F>,
    wiring: Wiring,
    graph_in: Seq<Vec<F>>,
    outs: Seq<BufferSet<F>>,
    dest: PortId,
    s: int,
    frame: F,
)
    requires
        wiring.valid(),
        forall|source: PortId| !#[trigger] feeds(wiring.links, source, dest),
        feeder(wiring.graph_inputs, dest, wiring.graph_inputs.len()) is Some,
        is_fed(
            kit,
            wiring.links,
            wiring.order,
            wiring.graph_inputs,
            graph_in,
            outs,
            dest,
            s,
            frame,
        ),
    ensures
        frame == graph_in[s]@[feeder(wiring.graph_inputs, dest, wiring.graph_inputs.len())->0],
{
    let links = wiring.links;
    let order = wiring.order;
    wiring.lemma_order_respects_links();
    lemma_sources_are_feeders(links, order, dest, order.len());
}

/// An input port that exactly one output port feeds, and no input of the
/// graph, holds what that port put out, added to a frame at equilibrium.
pub proof fn lemma_single_source<F>(
    kit: Kit<F>,
    wiring: Wiring,
    graph_in: Seq<Vec<F>>,
    outs: Seq<BufferSet<F>>,
    dest: PortId,
    s: int,
    frame: F,
    a: PortId,
)
    requires
        wiring.valid(),
        forall|source: PortId| #[trigger] feeds(wiring.links, source, dest) <==> source == a,
        feeder(wiring.graph_inputs, dest, wiring.graph_inputs.len()) is None,
        is_fed(
            kit,
            wiring.links,
            wiring.order,
            wiring.graph_inputs,
            graph_in,
            outs,
            dest,
            s,
            frame,
        ),
    ensures
        exists|quiet: F| #[trigger]
            kit.is_silence(quiet) && kit.is_sum(quiet, frame_at(outs, a, s), frame),
{
    let links = wiring.links;
    let order = wiring.order;
    let all = sources(links, order, dest, order.len());
    wiring.lemma_order_respects_links();
    lemma_sources_are_feeders(links, order, dest, order.len());
    assert(feeds(links, a, dest));
    let i = topology::lemma_linearization_covers(links, order, a.0 as int);
    assert(all.contains(a));
    assert(all.len() == 1) by {
        if all.len() > 1 {
            assert(feeds(links, all[0], dest));
            assert(feeds(links, all[1], dest));
        }
    }
    assert(feeds(links, all[0], dest));
    let start = choose|start: F| #[trigger]
        is_start(kit, wiring.graph_inputs, graph_in, dest, s, start) && kit.is_mix(
            start,
            frames_at(outs, all, s),
            frame,
        );
    let frames = frames_at(outs, all, s);
    let before = choose|before: F|
        kit.is_mix(start, frames.drop_last(), before) && #[trigger] kit.is_sum(
            before,
            frames.last(),
            frame,
        );
    assert(kit.is_silence(start) && kit.is_sum(start, frame_at(outs, a, s), frame));
}

/// `total` is the sum of `first` and `second`, added in this order to a
/// frame at equilibrium as the `sample` crate adds frames.
pub open spec fn is_amp_sum_of_two<F>(first: F, second: F, total: F) -> bool where
    F: Frame,
    F::Sample: FloatSample,
 {
    exists|quiet: F, one: F| #[trigger]
        frame::is_amp_sum(quiet, first, one) && frame::is_equilibrium(quiet) && frame::is_amp_sum(
            one,
            second,
            total,
        )
}

/// Fan-in, in the arithmetic of the `sample` crate: an input port that
/// exactly two output ports feed, and no input of the graph, holds the sum
/// of what both put out, never the frame of one of them alone. It is what
/// `sample::Frame::add_amp` makes of a frame at equilibrium and the frame
/// of the port that runs earlier, and then of that sum and the frame of the
/// other.
pub proof fn lemma_fan_in_sample<F>(
    kit: Kit<F>,
    wiring: Wiring,
    graph_in: Seq<Vec<F>>,
    outs: Seq<BufferSet<F>>,
    dest: PortId,
    s: int,
    frame: F,
    a: PortId,
    b: PortId,
) where F: Frame, F::Sample: FloatSample
    requires
        kit.is_sample(),
        wiring.valid(),
        a != b,
        forall|source: PortId| #[trigger]
            feeds(wiring.links, source, dest) <==> source == a || source == b,
        runs_before(wiring.order, a, b),
        feeder(wiring.graph_inputs, dest, wiring.graph_inputs.len()) is None,
        is_fed(
            kit,
            wiring.links,
            wiring.order,
            wiring.graph_inputs,
            graph_in,
            outs,
            dest,
            s,
            frame,
        ),
    ensures
        is_amp_sum_of_two(frame_at(outs, a, s), frame_at(outs, b, s), frame),
{
    lemma_fan_in(kit, wiring, graph_in, outs, dest, s, frame, a, b);
    let (quiet, one) = choose|quiet: F, one: F| #[trigger]
        kit.is_sum(quiet, frame_at(outs, a, s), one) && kit.is_silence(quiet) && kit.is_sum(
            one,
            frame_at(outs, b, s),
            frame,
        );
    assert(frame::is_amp_sum(quiet, frame_at(outs, a, s), one));
}

/// What a processor is handed, in the arithmetic of the `sample` crate: an
/// input port holds the frame of the last input of the graph that is wired
/// to it, or a frame that `sample::Frame::equilibrium` returns where none
/// is, with the frames of all the output ports that feed it added by
/// `sample::Frame::add_amp`, in the order in which the processors ran.
pub proof fn lemma_fed_sample<F>(
    kit: Kit<F>,
    wiring: Wiring,
    graph_in: Seq<Vec<F>>,
    outs: Seq<BufferSet<F>>,
    dest: PortId,
    s: int,
    frame: F,
) where F: Frame, F::Sample: FloatSample
    requires
        kit.is_sample(),
        is_fed(
            kit,
            wiring.links,
            wiring.order,
            wiring.graph_inputs,
            graph_in,
            outs,
            dest,
            s,
            frame,
        ),
    ensures
        exists|start: F| #[trigger]
            frame::is_amp_mix(
                start,
                frames_at(outs, sources(wiring.links, wiring.order, dest, wiring.order.len()), s),
                frame,
            ) && match feeder(wiring.graph_inputs, dest, wiring.graph_inputs.len()) {
                Some(i) => start == graph_in[s]@[i],
                None => frame::is_equilibrium(start),
            },
{
    let frames = frames_at(outs, sources(wiring.links, wiring.order, dest, wiring.order.len()), s);
    let start = choose|start: F| #[trigger]
        is_start(kit, wiring.graph_inputs, graph_in, dest, s, start) && kit.is_mix(
            start,
            frames,
            frame,
        );
    kit.lemma_sample_mix(start, frames, frame);
    assert(frame::is_amp_mix(start, frames, frame));
}

/// What an output of the graph holds, in the arithmetic of the `sample`
/// crate: a frame that `sample::Frame::equilibrium` returns, with the
/// frames of the output ports wired to it added by `sample::Frame::add_amp`
/// in the order in which they were wired. What the block held before plays
/// no part.
pub proof fn lemma_collected_sample<F>(
    kit: Kit<F>,
    blocks: Seq<BufferSet<F>>,
    sources: Seq<PortId>,
    s: int,
    frame: F,
) where F: Frame, F::Sample: FloatSample
    requires
        kit.is_sample(),
        is_collected(kit, blocks, sources, s, frame),
    ensures
        exists|quiet: F| #[trigger]
            frame::is_amp_mix(quiet, frames_at(blocks, sources, s), frame)
                && frame::is_equilibrium(quiet),
{
    let frames = frames_at(blocks, sources, s);
    let quiet = choose|quiet: F| #[trigger]
        kit.is_silence(quiet) && kit.is_mix(quiet, frames, frame);
    kit.lemma_sample_mix(quiet, frames, frame);
    assert(frame::is_amp_mix(quiet, frames, frame));
}

/// The wiring of a chain: every processor has one input port and one output
/// port, the output port of each feeds the input port of the next, the only
/// input of the graph feeds the first processor, and the last processor
/// feeds the only output of the graph.
pub open spec fn is_chain(wiring: Wiring) -> bool {
    &&& wiring.units() >= 1
    &&& forall|u: int|
        0 <= u < wiring.units() ==> #[trigger] wiring.inputs[u] == 1 && wiring.outputs[u] == 1
    &&& forall|u: int|
        0 <= u < wiring.units() ==> #[trigger] wiring.links[u] == seq![
            if u + 1 < wiring.units() {
                seq![((u + 1) as usize, 0usize)]
            } else {
                Seq::<PortId>::empty()
            },
        ]
    &&& wiring.graph_inputs == seq![seq![(0usize, 0usize)]]
    &&& wiring.graph_outputs == seq![seq![((wiring.units() - 1) as usize, 0usize)]]
}

/// In a chain of processors that put out what they are handed, every
/// processor is handed the frame at the input of the graph, where adding
/// that frame to a frame at equilibrium gives the frame itself.
proof fn lemma_chain_hands_on<F>(
    kit: Kit<F>,
    wiring: Wiring,
    graph_in: Seq<Vec<F>>,
    ins: Seq<BufferSet<F>>,
    outs: Seq<BufferSet<F>>,
    graph_out: Seq<Vec<F>>,
    s: int,
    u: int,
) where F: Frame, F::Sample: FloatSample
    requires
        kit.is_sample(),
        wiring.valid(),
        is_chain(wiring),
        is_routed(kit, wiring, graph_in, ins, outs, graph_out),
        0 <= s < wiring.block,
        0 <= u < wiring.units(),
        forall|v: int| 0 <= v < wiring.units() ==> (#[trigger] outs[v])@[s]@[0] == ins[v]@[s]@[0],
        frame::is_kept(graph_in[s]@[0]),
    ensures
        ins[u]@[s]@[0] == graph_in[s]@[0],
    decreases u,
{
    let links = wiring.links;
    let dest = (u as usize, 0usize);
    let frame = frame_at(ins, dest, s);
    assert(wiring.is_input(dest));
    assert(is_fed(
        kit,
        links,
        wiring.order,
        wiring.graph_inputs,
        graph_in,
        outs,
        dest,
        s,
        frame,
    ));
    assert(feeder(wiring.graph_inputs, dest, 1) == if u == 0 {
        Some(0int)
    } else {
        None
    }) by {
        reveal_with_fuel(feeder, 2);
        assert(wiring.graph_inputs[0][0] == (0usize, 0usize));
    }
    assert forall|source: PortId| #[trigger] feeds(links, source, dest) implies u > 0 && source == (
        (u - 1) as usize,
        0usize,
    ) by {
        let list = links[source.0 as int][source.1 as int];
        let j = choose|j: int| 0 <= j < list.len() && list[j] == dest;
    }
    if u == 0 {
        lemma_only_input(kit, wiring, graph_in, outs, dest, s, frame);
    } else {
        let a = ((u - 1) as usize, 0usize);
        lemma_chain_hands_on(kit, wiring, graph_in, ins, outs, graph_out, s, u - 1);
        assert(feeds(links, a, dest)) by {
            assert(links[u - 1][0][0] == dest);
        }
        lemma_single_source(kit, wiring, graph_in, outs, dest, s, frame, a);
        let quiet = choose|quiet: F| #[trigger]
            kit.is_silence(quiet) && kit.is_sum(quiet, frame_at(outs, a, s), frame);
        assert(outs[u - 1]@[s]@[0] == ins[u - 1]@[s]@[0]);
        assert(frame::is_amp_sum(quiet, graph_in[s]@[0], frame));
    }
}

/// Pass-through: where a chain of processors that put out what they are
/// handed is given a frame, that frame comes out of the graph, exactly. This
/// holds of every frame that `sample::Frame::add_amp` leaves as it is when
/// it adds it to a frame at equilibrium.
pub proof fn lemma_chain_passes<F>(
    kit: Kit<F>,
    wiring: Wiring,
    graph_in: Seq<Vec<F>>,
    ins: Seq<BufferSet<F>>,
    outs: Seq<BufferSet<F>>,
    graph_out: Seq<Vec<F>>,
    s: int,
) where F: Frame, F::Sample: FloatSample
    requires
        kit.is_sample(),
        wiring.valid(),
        is_chain(wiring),
        is_routed(kit, wiring, graph_in, ins, outs, graph_out),
        0 <= s < wiring.block,
        forall|v: int| 0 <= v < wiring.units() ==> (#[trigger] outs[v])@[s]@[0] == ins[v]@[s]@[0],
        frame::is_kept(graph_in[s]@[0]),
    ensures
        graph_out[s]@[0] == graph_in[s]@[0],
{
    let n = wiring.units();
    let last = ((n - 1) as usize, 0usize);
    let frame = graph_out[s]@[0];
    lemma_chain_hands_on(kit, wiring, graph_in, ins, outs, graph_out, s, n - 1);
    assert(is_collected(kit, outs, wiring.graph_outputs[0], s, frame));
    let frames = frames_at(outs, wiring.graph_outputs[0], s);
    let quiet = choose|quiet: F| #[trigger]
        kit.is_silence(quiet) && kit.is_mix(quiet, frames, frame);
    let before = choose|before: F|
        kit.is_mix(quiet, frames.drop_last(), before) && #[trigger] kit.is_sum(
            before,
            frames.last(),
            frame,
        );
    assert(frames.last() == frame_at(outs, last, s));
    assert(outs[n - 1]@[s]@[0] == ins[n - 1]@[s]@[0]);
    assert(frame::is_amp_sum(quiet, graph_in[s]@[0], frame));
}

} // verus!
