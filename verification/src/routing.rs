//! How frames travel between the blocks of the processors: from the inputs
//! of the graph to input ports, from output ports to the input ports that
//! they feed, and from output ports to the outputs of the graph.

use crate::dataflow;
use crate::engine;
use crate::frame::BufferSet;
use crate::frame::Kit;
use crate::frame;
use crate::topology::PortId;
use crate::topology;
use vstd::prelude::*;

verus! {

/// Adds column `p` of `source` to column `q` of `dest`, position by position.
pub fn mix_column<F>(
    kit: &Kit<F>,
    dest: &mut BufferSet<F>,
    q: usize,
    source: &BufferSet<F>,
    p: usize,
) where F: Copy
    requires
        source@.len() == old(dest)@.len(),
        forall|s: int| 0 <= s < old(dest)@.len() ==> q < (#[trigger] old(dest)@[s])@.len(),
        forall|s: int| 0 <= s < source@.len() ==> p < (#[trigger] source@[s])@.len(),
    ensures
        final(dest)@.len() == old(dest)@.len(),
        forall|s: int|
            0 <= s < old(dest)@.len() ==> (#[trigger] final(dest)@[s])@.len() == old(
                dest,
            )@[s]@.len(),
        forall|s: int|
            0 <= s < old(dest)@.len() ==> kit.is_sum(
                old(dest)@[s]@[q as int],
                source@[s]@[p as int],
                #[trigger] final(dest)@[s]@[q as int],
            ),
        forall|s: int, r: int|
            0 <= s < old(dest)@.len() && 0 <= r < old(dest)@[s]@.len() && r != q
                ==> #[trigger] final(dest)@[s]@[r] == old(dest)@[s]@[r],
{
    let len = dest.len();
    let mut s: usize = 0;
    while s < len
        invariant
            s <= len,
            len == old(dest)@.len(),
            dest@.len() == len,
            source@.len() == len,
            forall|i: int| 0 <= i < len ==> q < (#[trigger] old(dest)@[i])@.len(),
            forall|i: int| 0 <= i < len ==> p < (#[trigger] source@[i])@.len(),
            forall|i: int| 0 <= i < len ==> (#[trigger] dest@[i])@.len() == old(dest)@[i]@.len(),
            forall|i: int|
                0 <= i < s ==> kit.is_sum(
                    old(dest)@[i]@[q as int],
                    source@[i]@[p as int],
                    #[trigger] dest@[i]@[q as int],
                ),
            forall|i: int| s <= i < len ==> #[trigger] dest@[i]@[q as int] == old(dest)@[i]@[q as int],
            forall|i: int, r: int|
                0 <= i < len && 0 <= r < old(dest)@[i]@.len() && r != q ==> #[trigger] dest@[i]@[r]
                    == old(dest)@[i]@[r],
        decreases len - s,
    {
        let sum = kit.mix(dest[s][q], source[s][p]);
        dest[s][q] = sum;
        s += 1;
    }
}

/// Copies column `i` of `source` to column `q` of `dest`, position by
/// position.
pub fn copy_column<F>(dest: &mut BufferSet<F>, q: usize, source: &BufferSet<F>, i: usize) where
    F: Copy,

    requires
        source@.len() == old(dest)@.len(),
        forall|s: int| 0 <= s < old(dest)@.len() ==> q < (#[trigger] old(dest)@[s])@.len(),
        forall|s: int| 0 <= s < source@.len() ==> i < (#[trigger] source@[s])@.len(),
    ensures
        final(dest)@.len() == old(dest)@.len(),
        forall|s: int|
            0 <= s < old(dest)@.len() ==> (#[trigger] final(dest)@[s])@.len() == old(
                dest,
            )@[s]@.len(),
        forall|s: int|
            0 <= s < old(dest)@.len() ==> #[trigger] final(dest)@[s]@[q as int]
                == source@[s]@[i as int],
        forall|s: int, r: int|
            0 <= s < old(dest)@.len() && 0 <= r < old(dest)@[s]@.len() && r != q
                ==> #[trigger] final(dest)@[s]@[r] == old(dest)@[s]@[r],
{
    let len = dest.len();
    let mut s: usize = 0;
    while s < len
        invariant
            s <= len,
            len == old(dest)@.len(),
            dest@.len() == len,
            source@.len() == len,
            forall|k: int| 0 <= k < len ==> q < (#[trigger] old(dest)@[k])@.len(),
            forall|k: int| 0 <= k < len ==> i < (#[trigger] source@[k])@.len(),
            forall|k: int| 0 <= k < len ==> (#[trigger] dest@[k])@.len() == old(dest)@[k]@.len(),
            forall|k: int| 0 <= k < s ==> #[trigger] dest@[k]@[q as int] == source@[k]@[i as int],
            forall|k: int, r: int|
                0 <= k < len && 0 <= r < old(dest)@[k]@.len() && r != q ==> #[trigger] dest@[k]@[r]
                    == old(dest)@[k]@[r],
        decreases len - s,
    {
        dest[s][q] = source[s][i];
        s += 1;
    }
}

/// Adds column `p` of `source` to every input port of `dests`.
pub fn fan_out<F>(
    kit: &Kit<F>,
    inputs: &mut Vec<BufferSet<F>>,
    dests: &Vec<PortId>,
    source: &BufferSet<F>,
    p: usize,
    Ghost(widths): Ghost<Seq<nat>>,
) where F: Copy
    requires
        dataflow::are_blocks(old(inputs)@, source@.len(), widths),
        dataflow::are_ports(widths, dests@),
        forall|s: int| 0 <= s < source@.len() ==> p < (#[trigger] source@[s])@.len(),
    ensures
        dataflow::are_blocks(final(inputs)@, source@.len(), widths),
        forall|port: PortId, s: int|
            dataflow::is_port(widths, port) && 0 <= s < source@.len() ==> if dests@.contains(port) {
                kit.is_sum(
                    dataflow::frame_at(old(inputs)@, port, s),
                    source@[s]@[p as int],
                    #[trigger] dataflow::frame_at(final(inputs)@, port, s),
                )
            } else {
                dataflow::frame_at(final(inputs)@, port, s) == dataflow::frame_at(old(inputs)@, port, s)
            },
        forall|v: int|
            0 <= v < old(inputs)@.len() && !topology::reaches(dests@, v)
                ==> #[trigger] final(inputs)@[v] == old(inputs)@[v],
{
    let ghost len = source@.len();
    let mut j: usize = 0;
    while j < dests.len()
        invariant
            j <= dests@.len(),
            len == source@.len(),
            forall|v: int|
                0 <= v < old(inputs)@.len() && !topology::reaches(dests@, v) ==> #[trigger] inputs@[v]
                    == old(inputs)@[v],
            dataflow::are_blocks(inputs@, len, widths),
            dataflow::are_blocks(old(inputs)@, len, widths),
            dataflow::are_ports(widths, dests@),
            forall|s: int| 0 <= s < source@.len() ==> p < (#[trigger] source@[s])@.len(),
            forall|port: PortId, s: int|
                dataflow::is_port(widths, port) && 0 <= s < len ==> if dests@.take(j as int).contains(port) {
                    kit.is_sum(
                        dataflow::frame_at(old(inputs)@, port, s),
                        source@[s]@[p as int],
                        #[trigger] dataflow::frame_at(inputs@, port, s),
                    )
                } else {
                    dataflow::frame_at(inputs@, port, s) == dataflow::frame_at(old(inputs)@, port, s)
                },
        decreases dests@.len() - j,
    {
        let dest = dests[j];
        let ghost before = inputs@;
        mix_column(kit, &mut inputs[dest.0], dest.1, source, p);
        proof {
            let longer = dests@.take(j + 1);
            assert forall|port: PortId, s: int|
                dataflow::is_port(widths, port) && 0 <= s < len implies if longer.contains(port) {
                kit.is_sum(
                    dataflow::frame_at(old(inputs)@, port, s),
                    source@[s]@[p as int],
                    #[trigger] dataflow::frame_at(inputs@, port, s),
                )
            } else {
                dataflow::frame_at(inputs@, port, s) == dataflow::frame_at(old(inputs)@, port, s)
            } by {
                if port == dest {
                    assert(longer[j as int] == dest);
                    assert(dataflow::frame_at(before, port, s) == dataflow::frame_at(old(inputs)@, port, s));
                } else {
                    assert(dataflow::frame_at(inputs@, port, s) == dataflow::frame_at(before, port, s));
                }
            }
        }
        j += 1;
    }
    assert(dests@.take(j as int) =~= dests@);
}

/// Adds every column of `source` to the input ports that `ports` lists for
/// it, column by column.
pub fn route_unit<F>(
    kit: &Kit<F>,
    inputs: &mut Vec<BufferSet<F>>,
    ports: &Vec<Vec<PortId>>,
    source: &BufferSet<F>,
    Ghost(widths): Ghost<Seq<nat>>,
) where F: Copy
    requires
        dataflow::are_blocks(old(inputs)@, source@.len(), widths),
        frame::is_block(source@, source@.len(), ports@.len() as nat),
        forall|p: int| 0 <= p < ports@.len() ==> dataflow::are_ports(widths, (#[trigger] ports@[p])@),
    ensures
        dataflow::are_blocks(final(inputs)@, source@.len(), widths),
        forall|port: PortId, s: int|
            dataflow::is_port(widths, port) && 0 <= s < source@.len() ==> kit.is_mix(
                dataflow::frame_at(old(inputs)@, port, s),
                dataflow::column_frames(
                    source@,
                    dataflow::feeding_ports(engine::lists(ports@), port, ports@.len() as nat),
                    s,
                ),
                #[trigger] dataflow::frame_at(final(inputs)@, port, s),
            ),
        forall|v: int|
            0 <= v < old(inputs)@.len() && !topology::feeds_within(
                engine::lists(ports@),
                v,
                ports@.len() as int,
            ) ==> #[trigger] final(inputs)@[v] == old(inputs)@[v],
{
    let ghost len = source@.len();
    let ghost table = engine::lists(ports@);
    let mut p: usize = 0;
    while p < ports.len()
        invariant
            p <= ports@.len(),
            len == source@.len(),
            table == engine::lists(ports@),
            inputs@.len() == old(inputs)@.len(),
            forall|v: int|
                0 <= v < old(inputs)@.len() && !topology::feeds_within(table, v, p as int)
                    ==> #[trigger] inputs@[v] == old(inputs)@[v],
            dataflow::are_blocks(inputs@, len, widths),
            frame::is_block(source@, len, ports@.len() as nat),
            forall|k: int| 0 <= k < ports@.len() ==> dataflow::are_ports(widths, (#[trigger] ports@[k])@),
            forall|port: PortId, s: int|
                dataflow::is_port(widths, port) && 0 <= s < len ==> kit.is_mix(
                    dataflow::frame_at(old(inputs)@, port, s),
                    dataflow::column_frames(source@, dataflow::feeding_ports(table, port, p as nat), s),
                    #[trigger] dataflow::frame_at(inputs@, port, s),
                ),
        decreases ports@.len() - p,
    {
        let ghost before = inputs@;
        fan_out(kit, inputs, &ports[p], source, p, Ghost(widths));
        proof {
            assert forall|v: int|
                0 <= v < old(inputs)@.len() && !topology::feeds_within(
                    table,
                    v,
                    p + 1,
                ) implies #[trigger] inputs@[v] == old(inputs)@[v] by {
                assert(table[p as int] == ports@[p as int]@);
                assert(!topology::reaches(table[p as int], v));
                if topology::feeds_within(table, v, p as int) {
                    let q = choose|q: int| 0 <= q < p && topology::reaches(#[trigger] table[q], v);
                    assert(topology::reaches(table[q], v));
                }
            }
            assert forall|port: PortId, s: int|
                dataflow::is_port(widths, port) && 0 <= s < len implies kit.is_mix(
                dataflow::frame_at(old(inputs)@, port, s),
                dataflow::column_frames(source@, dataflow::feeding_ports(table, port, (p + 1) as nat), s),
                #[trigger] dataflow::frame_at(inputs@, port, s),
            ) by {
                let columns = dataflow::feeding_ports(table, port, p as nat);
                let frames = dataflow::column_frames(source@, columns, s);
                if ports@[p as int]@.contains(port) {
                    assert(dataflow::column_frames(source@, columns.push(p as int), s) =~= frames.push(
                        source@[s]@[p as int],
                    ));
                    kit.lemma_mix_push(
                        dataflow::frame_at(old(inputs)@, port, s),
                        frames,
                        dataflow::frame_at(before, port, s),
                        source@[s]@[p as int],
                        dataflow::frame_at(inputs@, port, s),
                    );
                }
            }
        }
        p += 1;
    }
}

/// Copies column `i` of `graph_in` to every input port of `dests`.
pub fn seed_slot<F>(
    inputs: &mut Vec<BufferSet<F>>,
    dests: &Vec<PortId>,
    graph_in: &BufferSet<F>,
    i: usize,
    Ghost(widths): Ghost<Seq<nat>>,
) where F: Copy
    requires
        dataflow::are_blocks(old(inputs)@, graph_in@.len(), widths),
        dataflow::are_ports(widths, dests@),
        forall|s: int| 0 <= s < graph_in@.len() ==> i < (#[trigger] graph_in@[s])@.len(),
    ensures
        dataflow::are_blocks(final(inputs)@, graph_in@.len(), widths),
        forall|port: PortId, s: int|
            dataflow::is_port(widths, port) && 0 <= s < graph_in@.len() ==> #[trigger] dataflow::frame_at(
                final(inputs)@,
                port,
                s,
            ) == if dests@.contains(port) {
                graph_in@[s]@[i as int]
            } else {
                dataflow::frame_at(old(inputs)@, port, s)
            },
{
    let ghost len = graph_in@.len();
    let mut j: usize = 0;
    while j < dests.len()
        invariant
            j <= dests@.len(),
            len == graph_in@.len(),
            dataflow::are_blocks(inputs@, len, widths),
            dataflow::are_ports(widths, dests@),
            forall|s: int| 0 <= s < graph_in@.len() ==> i < (#[trigger] graph_in@[s])@.len(),
            forall|port: PortId, s: int|
                dataflow::is_port(widths, port) && 0 <= s < len ==> #[trigger] dataflow::frame_at(inputs@, port, s)
                    == if dests@.take(j as int).contains(port) {
                    graph_in@[s]@[i as int]
                } else {
                    dataflow::frame_at(old(inputs)@, port, s)
                },
        decreases dests@.len() - j,
    {
        let dest = dests[j];
        let ghost before = inputs@;
        copy_column(&mut inputs[dest.0], dest.1, graph_in, i);
        proof {
            let longer = dests@.take(j + 1);
            assert forall|port: PortId, s: int|
                dataflow::is_port(widths, port) && 0 <= s < len implies #[trigger] dataflow::frame_at(inputs@, port, s)
                == if longer.contains(port) {
                graph_in@[s]@[i as int]
            } else {
                dataflow::frame_at(old(inputs)@, port, s)
            } by {
                if port == dest {
                    assert(longer[j as int] == dest);
                } else {
                    assert(dataflow::frame_at(inputs@, port, s) == dataflow::frame_at(before, port, s));
                }
            }
        }
        j += 1;
    }
    assert(dests@.take(j as int) =~= dests@);
}

/// Copies every column of `graph_in` to the input ports that `table` lists
/// for it, column by column: where several columns go to one port, the last
/// of them stays.
pub fn seed_inputs<F>(
    inputs: &mut Vec<BufferSet<F>>,
    table: &Vec<Vec<PortId>>,
    graph_in: &BufferSet<F>,
    Ghost(widths): Ghost<Seq<nat>>,
) where F: Copy
    requires
        dataflow::are_blocks(old(inputs)@, graph_in@.len(), widths),
        frame::is_block(graph_in@, graph_in@.len(), table@.len() as nat),
        forall|i: int| 0 <= i < table@.len() ==> dataflow::are_ports(widths, (#[trigger] table@[i])@),
    ensures
        dataflow::are_blocks(final(inputs)@, graph_in@.len(), widths),
        forall|port: PortId, s: int|
            dataflow::is_port(widths, port) && 0 <= s < graph_in@.len() ==> #[trigger] dataflow::frame_at(
                final(inputs)@,
                port,
                s,
            ) == match dataflow::feeder(engine::lists(table@), port, table@.len() as nat) {
                Some(i) => graph_in@[s]@[i],
                None => dataflow::frame_at(old(inputs)@, port, s),
            },
{
    let ghost len = graph_in@.len();
    let ghost lists = engine::lists(table@);
    let mut i: usize = 0;
    while i < table.len()
        invariant
            i <= table@.len(),
            len == graph_in@.len(),
            lists == engine::lists(table@),
            dataflow::are_blocks(inputs@, len, widths),
            frame::is_block(graph_in@, len, table@.len() as nat),
            forall|k: int| 0 <= k < table@.len() ==> dataflow::are_ports(widths, (#[trigger] table@[k])@),
            forall|port: PortId, s: int|
                dataflow::is_port(widths, port) && 0 <= s < len ==> #[trigger] dataflow::frame_at(inputs@, port, s)
                    == match dataflow::feeder(lists, port, i as nat) {
                    Some(k) => graph_in@[s]@[k],
                    None => dataflow::frame_at(old(inputs)@, port, s),
                },
        decreases table@.len() - i,
    {
        seed_slot(inputs, &table[i], graph_in, i, Ghost(widths));
        i += 1;
    }
}

/// Sets every frame of `block` to `quiet`.
pub fn fill_block<F: Copy>(block: &mut BufferSet<F>, quiet: F)
    ensures
        final(block)@.len() == old(block)@.len(),
        forall|s: int|
            0 <= s < old(block)@.len() ==> (#[trigger] final(block)@[s])@.len() == old(
                block,
            )@[s]@.len(),
        forall|s: int, p: int|
            0 <= s < old(block)@.len() && 0 <= p < old(block)@[s]@.len()
                ==> #[trigger] final(block)@[s]@[p] == quiet,
{
    let mut s: usize = 0;
    while s < block.len()
        invariant
            s <= block@.len(),
            block@.len() == old(block)@.len(),
            forall|i: int|
                0 <= i < block@.len() ==> (#[trigger] block@[i])@.len() == old(block)@[i]@.len(),
            forall|i: int, p: int|
                0 <= i < s && 0 <= p < old(block)@[i]@.len() ==> #[trigger] block@[i]@[p] == quiet,
        decreases block@.len() - s,
    {
        let mut p: usize = 0;
        while p < block[s].len()
            invariant
                s < block@.len(),
                p <= block@[s as int]@.len(),
                block@.len() == old(block)@.len(),
                forall|i: int|
                    0 <= i < block@.len() ==> (#[trigger] block@[i])@.len() == old(
                        block,
                    )@[i]@.len(),
                forall|i: int, q: int|
                    0 <= i < s && 0 <= q < old(block)@[i]@.len() ==> #[trigger] block@[i]@[q]
                        == quiet,
                forall|q: int| 0 <= q < p ==> #[trigger] block@[s as int]@[q] == quiet,
            decreases block@[s as int]@.len() - p,
        {
            block[s][p] = quiet;
            p += 1;
        }
        s += 1;
    }
}

/// Sets every frame of every block to equilibrium.
pub fn clear_blocks<F>(
    kit: &Kit<F>,
    blocks: &mut Vec<BufferSet<F>>,
    Ghost(len): Ghost<nat>,
    Ghost(widths): Ghost<Seq<nat>>,
) where F: Copy
    requires
        dataflow::are_blocks(old(blocks)@, len, widths),
    ensures
        dataflow::are_blocks(final(blocks)@, len, widths),
        forall|port: PortId, s: int|
            dataflow::is_port(widths, port) && 0 <= s < len ==> kit.is_silence(
                #[trigger] dataflow::frame_at(final(blocks)@, port, s),
            ),
{
    let quiet = kit.silence();
    let mut u: usize = 0;
    while u < blocks.len()
        invariant
            u <= blocks@.len(),
            kit.is_silence(quiet),
            dataflow::are_blocks(blocks@, len, widths),
            forall|port: PortId, s: int|
                dataflow::is_port(widths, port) && port.0 < u && 0 <= s < len ==> #[trigger] dataflow::frame_at(
                    blocks@,
                    port,
                    s,
                ) == quiet,
        decreases blocks@.len() - u,
    {
        let ghost before = blocks@;
        fill_block(&mut blocks[u], quiet);
        proof {
            assert forall|port: PortId, s: int|
                dataflow::is_port(widths, port) && port.0 < u + 1 && 0 <= s < len implies #[trigger] dataflow::frame_at(
                blocks@,
                port,
                s,
            ) == quiet by {
                if port.0 < u {
                    assert(dataflow::frame_at(before, port, s) == quiet);
                }
            }
        }
        u += 1;
    }
}

/// Sets column `o` of `outputs` to the sum of the output ports `sources`,
/// position by position, starting from equilibrium.
pub fn collect_output<F>(
    kit: &Kit<F>,
    outputs: &mut BufferSet<F>,
    o: usize,
    sources: &Vec<PortId>,
    blocks: &Vec<BufferSet<F>>,
    Ghost(widths): Ghost<Seq<nat>>,
) where F: Copy
    requires
        dataflow::are_blocks(blocks@, old(outputs)@.len(), widths),
        dataflow::are_ports(widths, sources@),
        forall|s: int| 0 <= s < old(outputs)@.len() ==> o < (#[trigger] old(outputs)@[s])@.len(),
    ensures
        final(outputs)@.len() == old(outputs)@.len(),
        forall|s: int|
            0 <= s < old(outputs)@.len() ==> (#[trigger] final(outputs)@[s])@.len() == old(
                outputs,
            )@[s]@.len(),
        forall|s: int|
            0 <= s < old(outputs)@.len() ==> dataflow::is_collected(
                *kit,
                blocks@,
                sources@,
                s,
                #[trigger] final(outputs)@[s]@[o as int],
            ),
        forall|s: int, r: int|
            0 <= s < old(outputs)@.len() && 0 <= r < old(outputs)@[s]@.len() && r != o
                ==> #[trigger] final(outputs)@[s]@[r] == old(outputs)@[s]@[r],
{
    let len = outputs.len();
    let quiet = kit.silence();
    let mut s: usize = 0;
    while s < len
        invariant
            s <= len,
            len == old(outputs)@.len(),
            outputs@.len() == len,
            forall|k: int| 0 <= k < len ==> o < (#[trigger] old(outputs)@[k])@.len(),
            forall|k: int|
                0 <= k < len ==> (#[trigger] outputs@[k])@.len() == old(outputs)@[k]@.len(),
            forall|k: int| 0 <= k < s ==> #[trigger] outputs@[k]@[o as int] == quiet,
            forall|k: int, r: int|
                0 <= k < len && 0 <= r < old(outputs)@[k]@.len() && r != o
                    ==> #[trigger] outputs@[k]@[r] == old(outputs)@[k]@[r],
        decreases len - s,
    {
        outputs[s][o] = quiet;
        s += 1;
    }
    let mut j: usize = 0;
    while j < sources.len()
        invariant
            j <= sources@.len(),
            len == old(outputs)@.len(),
            outputs@.len() == len,
            kit.is_silence(quiet),
            dataflow::are_blocks(blocks@, len as nat, widths),
            dataflow::are_ports(widths, sources@),
            forall|k: int| 0 <= k < len ==> o < (#[trigger] old(outputs)@[k])@.len(),
            forall|k: int|
                0 <= k < len ==> (#[trigger] outputs@[k])@.len() == old(outputs)@[k]@.len(),
            forall|k: int|
                0 <= k < len ==> kit.is_mix(
                    quiet,
                    dataflow::frames_at(blocks@, sources@.take(j as int), k),
                    #[trigger] outputs@[k]@[o as int],
                ),
            forall|k: int, r: int|
                0 <= k < len && 0 <= r < old(outputs)@[k]@.len() && r != o
                    ==> #[trigger] outputs@[k]@[r] == old(outputs)@[k]@[r],
        decreases sources@.len() - j,
    {
        let source = sources[j];
        let ghost before = outputs@;
        mix_column(kit, outputs, o, &blocks[source.0], source.1);
        proof {
            assert forall|k: int| 0 <= k < len implies kit.is_mix(
                quiet,
                dataflow::frames_at(blocks@, sources@.take(j + 1), k),
                #[trigger] outputs@[k]@[o as int],
            ) by {
                let frames = dataflow::frames_at(blocks@, sources@.take(j as int), k);
                assert(dataflow::frames_at(blocks@, sources@.take(j + 1), k) =~= frames.push(
                    dataflow::frame_at(blocks@, source, k),
                ));
                kit.lemma_mix_push(
                    quiet,
                    frames,
                    before[k]@[o as int],
                    dataflow::frame_at(blocks@, source, k),
                    outputs@[k]@[o as int],
                );
            }
        }
        j += 1;
    }
    assert(sources@.take(j as int) =~= sources@);
}

/// Sets every column of `outputs` to the sum of the output ports that `table`
/// lists for it.
pub fn collect_outputs<F>(
    kit: &Kit<F>,
    outputs: &mut BufferSet<F>,
    table: &Vec<Vec<PortId>>,
    blocks: &Vec<BufferSet<F>>,
    Ghost(widths): Ghost<Seq<nat>>,
) where F: Copy
    requires
        dataflow::are_blocks(blocks@, old(outputs)@.len(), widths),
        frame::is_block(old(outputs)@, old(outputs)@.len(), table@.len() as nat),
        forall|o: int| 0 <= o < table@.len() ==> dataflow::are_ports(widths, (#[trigger] table@[o])@),
    ensures
        frame::is_block(final(outputs)@, old(outputs)@.len(), table@.len() as nat),
        forall|o: int, s: int|
            0 <= o < table@.len() && 0 <= s < old(outputs)@.len() ==> dataflow::is_collected(
                *kit,
                blocks@,
                table@[o]@,
                s,
                #[trigger] final(outputs)@[s]@[o],
            ),
{
    let ghost len = outputs@.len();
    let mut o: usize = 0;
    while o < table.len()
        invariant
            o <= table@.len(),
            len == old(outputs)@.len(),
            dataflow::are_blocks(blocks@, len, widths),
            frame::is_block(outputs@, len, table@.len() as nat),
            forall|k: int| 0 <= k < table@.len() ==> dataflow::are_ports(widths, (#[trigger] table@[k])@),
            forall|k: int, s: int|
                0 <= k < o && 0 <= s < len ==> dataflow::is_collected(
                    *kit,
                    blocks@,
                    table@[k]@,
                    s,
                    #[trigger] outputs@[s]@[k],
                ),
        decreases table@.len() - o,
    {
        collect_output(kit, outputs, o, &table[o], blocks, Ghost(widths));
        o += 1;
    }
}

} // verus!
