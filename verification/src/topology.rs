//! The links between processors as a mathematical object: cycles, and the
//! topological order in which the processors of links without a cycle run.

use vstd::prelude::*;

verus! {

/// A port of a processor: the processor's index and the port's index on it.
pub type PortId = (usize, usize);

/// For every processor and every one of its output ports, the input ports
/// that the output port feeds, in the order in which they were connected.
pub type Links = Seq<Seq<Seq<PortId>>>;

/// One of the first `end` destinations in `dests` is an input port of processor `b`.
pub open spec fn reaches_within(dests: Seq<PortId>, b: int, end: int) -> bool {
    exists|j: int| 0 <= j < end && (#[trigger] dests[j]).0 == b
}

/// One of the destinations `dests` is an input port of processor `b`.
pub open spec fn reaches(dests: Seq<PortId>, b: int) -> bool {
    reaches_within(dests, b, dests.len() as int)
}

/// One of the first `end` output ports in `ports` feeds processor `b`.
pub open spec fn feeds_within(ports: Seq<Seq<PortId>>, b: int, end: int) -> bool {
    exists|p: int| 0 <= p < end && reaches(#[trigger] ports[p], b)
}

/// Some output port of processor `a` feeds some input port of processor `b`.
pub open spec fn has_edge(links: Links, a: int, b: int) -> bool {
    &&& 0 <= a < links.len()
    &&& feeds_within(links[a], b, links[a].len() as int)
}

/// Every destination in `links` names one of the `links.len()` processors.
pub open spec fn links_closed(links: Links) -> bool {
    forall|a: int, p: int, j: int|
        0 <= a < links.len() && 0 <= p < links[a].len() && 0 <= j < links[a][p].len() ==> (
        #[trigger] links[a][p][j]).0 < links.len()
}

/// Processor `u` has not run yet and every processor that feeds it is in `done`.
pub open spec fn is_ready(links: Links, done: Set<int>, u: int) -> bool {
    &&& 0 <= u < links.len()
    &&& !done.contains(u)
    &&& forall|a: int| #[trigger] has_edge(links, a, u) ==> done.contains(a)
}

/// The ready processors with an index below `k`, in ascending order.
pub open spec fn ready_below(links: Links, done: Set<int>, k: nat) -> Seq<int>
    decreases k,
{
    if k == 0 {
        Seq::empty()
    } else {
        let rest = ready_below(links, done, (k - 1) as nat);
        if is_ready(links, done, k - 1) {
            rest.push(k - 1)
        } else {
            rest
        }
    }
}

/// The next layer after `order`: all processors that are ready once those in
/// `order` have run, in ascending order.
pub open spec fn next_layer(links: Links, order: Seq<int>) -> Seq<int> {
    ready_below(links, order.to_set(), links.len())
}

/// `order`, extended layer by layer for at most `rounds` rounds or until no
/// processor is ready.
pub open spec fn extend_order(links: Links, order: Seq<int>, rounds: nat) -> Seq<int>
    decreases rounds,
{
    let layer = next_layer(links, order);
    if rounds == 0 || layer.len() == 0 {
        order
    } else {
        extend_order(links, order + layer, (rounds - 1) as nat)
    }
}

/// The layered topological order of the processors: first those that nothing
/// feeds, ascending; then those fed only by the former, ascending; and so on.
/// `None` when the layers do not reach every processor.
pub open spec fn topological_order(links: Links) -> Option<Seq<int>> {
    let order = extend_order(links, Seq::empty(), links.len());
    if order.len() == links.len() {
        Some(order)
    } else {
        None
    }
}

/// `order` lists every processor exactly once, and each one before all those
/// that it feeds.
pub open spec fn is_linearization(links: Links, order: Seq<int>) -> bool {
    &&& order.len() == links.len()
    &&& forall|i: int| 0 <= i < order.len() ==> 0 <= #[trigger] order[i] < links.len()
    &&& forall|i: int, j: int| 0 <= i < j < order.len() ==> order[i] != order[j]
    &&& forall|i: int, j: int|
        0 <= i < order.len() && 0 <= j < order.len() && #[trigger] has_edge(
            links,
            order[i],
            order[j],
        ) ==> i < j
}

/// Some order of the processors respects every link.
pub open spec fn is_sortable(links: Links) -> bool {
    exists|order: Seq<int>| is_linearization(links, order)
}

/// Every processor of `walk` but the last feeds the one after it.
pub open spec fn is_walk(links: Links, walk: Seq<int>) -> bool {
    forall|i: int| 0 <= i < walk.len() - 1 ==> has_edge(links, #[trigger] walk[i], walk[i + 1])
}

/// The links hold a cycle: a walk along at least one link that ends at the
/// processor at which it starts.
pub open spec fn is_cyclic(links: Links) -> bool {
    exists|walk: Seq<int>|
        walk.len() >= 2 && #[trigger] is_walk(links, walk) && walk.first() == walk.last()
}

/// What holds of an order while it is built layer by layer: it names
/// processors, each at most once, and each after all those that feed it.
/// Not every processor need be in it yet.
pub open spec fn is_order_prefix(links: Links, order: Seq<int>) -> bool {
    &&& forall|i: int| 0 <= i < order.len() ==> 0 <= #[trigger] order[i] < links.len()
    &&& forall|i: int, j: int| 0 <= i < j < order.len() ==> order[i] != order[j]
    &&& forall|a: int, j: int|
        0 <= j < order.len() && #[trigger] has_edge(links, a, order[j]) ==> exists|i: int|
            0 <= i < j && order[i] == a
}

/// The ready processors below `k` are exactly the members of `ready_below`,
/// which lists them in strictly ascending order.
pub proof fn lemma_ready_below(links: Links, done: Set<int>, k: nat)
    ensures
        forall|i: int|
            0 <= i < ready_below(links, done, k).len() ==> {
                &&& 0 <= #[trigger] ready_below(links, done, k)[i] < k
                &&& is_ready(links, done, ready_below(links, done, k)[i])
            },
        forall|i: int, j: int|
            0 <= i < j < ready_below(links, done, k).len() ==> ready_below(links, done, k)[i]
                < ready_below(links, done, k)[j],
        forall|u: int|
            0 <= u < k && is_ready(links, done, u) ==> ready_below(links, done, k).contains(u),
    decreases k,
{
    if k > 0 {
        let rest = ready_below(links, done, (k - 1) as nat);
        lemma_ready_below(links, done, (k - 1) as nat);
        if is_ready(links, done, k - 1) {
            let layer = rest.push(k - 1);
            assert(layer[rest.len() as int] == k - 1);
            assert forall|u: int| 0 <= u < k && is_ready(links, done, u) implies layer.contains(
                u,
            ) by {
                if u < k - 1 {
                    let i = choose|i: int| 0 <= i < rest.len() && rest[i] == u;
                    assert(layer[i] == u);
                }
            }
        }
    }
}

/// Such a prefix of an order stays one when the next layer is appended to it.
pub proof fn lemma_layer_keeps_prefix(links: Links, order: Seq<int>)
    requires
        is_order_prefix(links, order),
    ensures
        is_order_prefix(links, order + next_layer(links, order)),
{
    let layer = next_layer(links, order);
    let longer = order + layer;
    lemma_ready_below(links, order.to_set(), links.len());
    assert forall|a: int, j: int|
        0 <= j < longer.len() && #[trigger] has_edge(links, a, longer[j]) implies exists|i: int|
        0 <= i < j && longer[i] == a by {
        if j < order.len() {
            let i = choose|i: int| 0 <= i < j && order[i] == a;
            assert(longer[i] == a);
        } else {
            let i = choose|i: int| 0 <= i < order.len() && order[i] == a;
            assert(longer[i] == a);
        }
    }
}

/// Such a prefix stays one however many layers are appended to it.
pub proof fn lemma_extend_keeps_prefix(links: Links, order: Seq<int>, rounds: nat)
    requires
        is_order_prefix(links, order),
    ensures
        is_order_prefix(links, extend_order(links, order, rounds)),
    decreases rounds,
{
    let layer = next_layer(links, order);
    if rounds != 0 && layer.len() != 0 {
        lemma_layer_keeps_prefix(links, order);
        lemma_extend_keeps_prefix(links, order + layer, (rounds - 1) as nat);
    }
}

/// The topological order, where there is one, is a linearization: every
/// processor occurs in it once, before all the processors that it feeds.
pub proof fn lemma_order_is_linearization(links: Links)
    requires
        topological_order(links) is Some,
    ensures
        is_linearization(links, topological_order(links)->0),
{
    lemma_extend_keeps_prefix(links, Seq::empty(), links.len());
}

/// A sequence of distinct numbers below `n` is no longer than `n`.
pub proof fn lemma_distinct_len(numbers: Seq<int>, n: nat)
    requires
        forall|i: int| 0 <= i < numbers.len() ==> 0 <= #[trigger] numbers[i] < n,
        forall|i: int, j: int| 0 <= i < j < numbers.len() ==> numbers[i] != numbers[j],
    ensures
        numbers.len() <= n,
{
    let all = vstd::set_lib::set_int_range(0, n as int);
    vstd::set_lib::lemma_int_range(0, n as int);
    numbers.unique_seq_to_set();
    vstd::set_lib::lemma_len_subset(numbers.to_set(), all);
}

/// A prefix is no longer than the number of processors.
pub proof fn lemma_prefix_len(links: Links, order: Seq<int>)
    requires
        is_order_prefix(links, order),
    ensures
        order.len() <= links.len(),
{
    lemma_distinct_len(order, links.len());
}

/// A prefix that is shorter than the number of processors misses one.
proof fn lemma_short_order_misses(links: Links, order: Seq<int>) -> (u: int)
    requires
        is_order_prefix(links, order),
        order.len() < links.len(),
    ensures
        0 <= u < links.len(),
        !order.contains(u),
{
    let all = vstd::set_lib::set_int_range(0, links.len() as int);
    vstd::set_lib::lemma_int_range(0, links.len() as int);
    order.unique_seq_to_set();
    if all.subset_of(order.to_set()) {
        vstd::set_lib::lemma_len_subset(all, order.to_set());
    }
    choose|u: int| all.contains(u) && !order.to_set().contains(u)
}

/// The first position of `line` whose processor is outside `done`.
proof fn lemma_first_outside(line: Seq<int>, done: Set<int>, m: int) -> (k: int)
    requires
        0 <= m < line.len(),
        !done.contains(line[m]),
    ensures
        0 <= k <= m,
        !done.contains(line[k]),
        forall|i: int| 0 <= i < k ==> done.contains(#[trigger] line[i]),
    decreases m,
{
    if forall|i: int| 0 <= i < m ==> done.contains(#[trigger] line[i]) {
        m
    } else {
        let i = choose|i: int| 0 <= i < m && !done.contains(#[trigger] line[i]);
        lemma_first_outside(line, done, i)
    }
}

/// A linearization names every processor.
pub proof fn lemma_linearization_covers(links: Links, line: Seq<int>, u: int) -> (k: int)
    requires
        is_linearization(links, line),
        0 <= u < links.len(),
    ensures
        0 <= k < line.len(),
        line[k] == u,
{
    let all = vstd::set_lib::set_int_range(0, links.len() as int);
    vstd::set_lib::lemma_int_range(0, links.len() as int);
    line.unique_seq_to_set();
    vstd::set_lib::lemma_subset_equality(line.to_set(), all);
    assert(all.contains(u));
    choose|k: int| 0 <= k < line.len() && line[k] == u
}

/// Where the links have a linearization, a prefix that misses a processor
/// has a next layer.
proof fn lemma_layer_exists(links: Links, order: Seq<int>, line: Seq<int>)
    requires
        is_order_prefix(links, order),
        is_linearization(links, line),
        order.len() < links.len(),
    ensures
        next_layer(links, order).len() > 0,
{
    let done = order.to_set();
    let missing = lemma_short_order_misses(links, order);
    let m = lemma_linearization_covers(links, line, missing);
    let k = lemma_first_outside(line, done, m);
    let u = line[k];
    assert forall|a: int| #[trigger] has_edge(links, a, u) implies done.contains(a) by {
        lemma_linearization_covers(links, line, a);
    }
    assert(is_ready(links, done, u));
    lemma_ready_below(links, done, links.len());
}

/// Where the links have a linearization, enough rounds reach every processor.
proof fn lemma_extend_reaches_all(links: Links, order: Seq<int>, rounds: nat, line: Seq<int>)
    requires
        is_order_prefix(links, order),
        is_linearization(links, line),
        order.len() + rounds >= links.len(),
    ensures
        extend_order(links, order, rounds).len() == links.len(),
    decreases rounds,
{
    let layer = next_layer(links, order);
    lemma_prefix_len(links, order);
    if order.len() < links.len() {
        lemma_layer_exists(links, order, line);
    }
    if rounds != 0 && layer.len() != 0 {
        lemma_layer_keeps_prefix(links, order);
        lemma_extend_reaches_all(links, order + layer, (rounds - 1) as nat, line);
    }
}

/// There is a topological order exactly where some order of the processors
/// respects every link.
pub proof fn lemma_order_iff_sortable(links: Links)
    ensures
        topological_order(links) is Some <==> is_sortable(links),
{
    if topological_order(links) is Some {
        lemma_order_is_linearization(links);
    } else if is_sortable(links) {
        let line = choose|line: Seq<int>| is_linearization(links, line);
        lemma_extend_reaches_all(links, Seq::empty(), links.len(), line);
    }
}

/// Along a walk the positions in a linearization grow.
proof fn lemma_walk_climbs(links: Links, line: Seq<int>, walk: Seq<int>, base: int, i: int) -> (k:
    int)
    requires
        is_linearization(links, line),
        is_walk(links, walk),
        walk.len() >= 2,
        walk.first() == walk.last(),
        0 <= base < line.len(),
        line[base] == walk[0],
        0 <= i < walk.len(),
    ensures
        base + i <= k < line.len(),
        line[k] == walk[i],
    decreases i,
{
    if i == 0 {
        base
    } else {
        lemma_walk_climbs(links, line, walk, base, i - 1);
        lemma_linearization_covers(links, line, walk[i])
    }
}

/// Links that hold a cycle have no linearization.
pub proof fn lemma_cycle_blocks_order(links: Links)
    requires
        is_cyclic(links),
    ensures
        !is_sortable(links),
{
    if is_sortable(links) {
        let line = choose|line: Seq<int>| is_linearization(links, line);
        let walk = choose|walk: Seq<int>|
            walk.len() >= 2 && #[trigger] is_walk(links, walk) && walk.first() == walk.last();
        let base = lemma_linearization_covers(links, line, walk[0]);
        lemma_walk_climbs(links, line, walk, base, walk.len() - 1);
    }
}

/// After enough rounds either every processor is in the order or no
/// processor is ready.
proof fn lemma_extend_stops(links: Links, order: Seq<int>, rounds: nat)
    requires
        is_order_prefix(links, order),
        order.len() + rounds >= links.len(),
    ensures
        extend_order(links, order, rounds).len() == links.len() || next_layer(
            links,
            extend_order(links, order, rounds),
        ).len() == 0,
    decreases rounds,
{
    let layer = next_layer(links, order);
    lemma_prefix_len(links, order);
    if rounds != 0 && layer.len() != 0 {
        lemma_layer_keeps_prefix(links, order);
        lemma_extend_stops(links, order + layer, (rounds - 1) as nat);
    }
}

/// A processor outside `done` that feeds `u`.
spec fn blocker(links: Links, done: Set<int>, u: int) -> int {
    choose|a: int| #[trigger] has_edge(links, a, u) && !done.contains(a)
}

/// Starting from `u`, the processors found by going from each one to one
/// that feeds it and is outside `done`, `hops` times.
spec fn trail(links: Links, done: Set<int>, u: int, hops: nat) -> Seq<int>
    decreases hops,
{
    if hops == 0 {
        seq![u]
    } else {
        let shorter = trail(links, done, u, (hops - 1) as nat);
        shorter.push(blocker(links, done, shorter.last()))
    }
}

/// Where no processor outside `done` is ready, every processor of a trail is
/// outside `done` and is fed by the one after it.
proof fn lemma_trail(links: Links, done: Set<int>, u: int, hops: nat)
    requires
        0 <= u < links.len(),
        !done.contains(u),
        forall|x: int| 0 <= x < links.len() ==> !is_ready(links, done, x),
    ensures
        trail(links, done, u, hops).len() == hops + 1,
        forall|i: int|
            0 <= i <= hops ==> {
                &&& 0 <= #[trigger] trail(links, done, u, hops)[i] < links.len()
                &&& !done.contains(trail(links, done, u, hops)[i])
            },
        forall|i: int|
            0 <= i < hops ==> has_edge(
                links,
                trail(links, done, u, hops)[i + 1],
                #[trigger] trail(links, done, u, hops)[i],
            ),
    decreases hops,
{
    if hops > 0 {
        let shorter = trail(links, done, u, (hops - 1) as nat);
        lemma_trail(links, done, u, (hops - 1) as nat);
        let end = shorter.last();
        assert(!is_ready(links, done, end));
    }
}

/// Links without a topological order hold a cycle.
pub proof fn lemma_no_order_has_cycle(links: Links)
    requires
        topological_order(links) is None,
    ensures
        is_cyclic(links),
{
    let n = links.len();
    let stuck = extend_order(links, Seq::empty(), n);
    let done = stuck.to_set();
    lemma_extend_keeps_prefix(links, Seq::empty(), n);
    lemma_extend_stops(links, Seq::empty(), n);
    lemma_prefix_len(links, stuck);
    lemma_ready_below(links, done, n);
    let u = lemma_short_order_misses(links, stuck);
    let back = trail(links, done, u, n);
    lemma_trail(links, done, u, n);
    if forall|i: int, j: int| 0 <= i < j < back.len() ==> back[i] != back[j] {
        lemma_distinct_len(back, n);
    }
    let (i, j) = choose|i: int, j: int| 0 <= i < j < back.len() && back[i] == back[j];
    let walk = Seq::new((j - i + 1) as nat, |t: int| back[j - t]);
    assert(is_walk(links, walk));
}

/// There is a topological order exactly where the links hold no cycle.
pub proof fn lemma_order_iff_acyclic(links: Links)
    ensures
        topological_order(links) is None <==> is_cyclic(links),
{
    lemma_order_iff_sortable(links);
    if topological_order(links) is None {
        lemma_no_order_has_cycle(links);
    }
    if is_cyclic(links) {
        lemma_cycle_blocks_order(links);
    }
}

/// One more processor, none of whose output ports is connected, leaves the
/// links with a topological order.
pub proof fn lemma_new_unit_keeps_order(links: Links, ports: Seq<Seq<PortId>>)
    requires
        links_closed(links),
        topological_order(links) is Some,
        forall|p: int| 0 <= p < ports.len() ==> (#[trigger] ports[p]).len() == 0,
    ensures
        links_closed(links.push(ports)),
        topological_order(links.push(ports)) is Some,
{
    let n = links.len() as int;
    let wider = links.push(ports);
    let line = topological_order(links)->0;
    let longer = line.push(n);
    lemma_order_is_linearization(links);
    assert forall|a: int, b: int| has_edge(wider, a, b) implies has_edge(links, a, b) && 0 <= b
        < n by {}
    assert(is_linearization(wider, longer));
    lemma_order_iff_sortable(wider);
}

/// No output port of any processor is connected.
pub open spec fn is_unlinked(links: Links) -> bool {
    forall|a: int, p: int|
        0 <= a < links.len() && 0 <= p < links[a].len() ==> (#[trigger] links[a][p]).len() == 0
}

/// Without links the processors run in ascending order of their indices,
/// which is the order in which they were added.
pub proof fn lemma_unlinked_order(links: Links)
    requires
        is_unlinked(links),
    ensures
        topological_order(links) == Some(Seq::new(links.len(), |i: int| i)),
{
    let n = links.len();
    let line = Seq::new(n, |i: int| i);
    lemma_ascending_layer(links, n);
    if n > 0 {
        let second = next_layer(links, line);
        lemma_ready_below(links, line.to_set(), n);
        if second.len() > 0 {
            assert(line[second[0]] == second[0]);
        }
        assert(extend_order(links, line, (n - 1) as nat) == line);
    }
}

/// With nothing done and no links, the ready processors below `k` are all of them.
proof fn lemma_ascending_layer(links: Links, k: nat)
    requires
        k <= links.len(),
        forall|a: int, b: int| !has_edge(links, a, b),
    ensures
        ready_below(links, Seq::<int>::empty().to_set(), k) == Seq::new(k, |i: int| i),
    decreases k,
{
    if k > 0 {
        lemma_ascending_layer(links, (k - 1) as nat);
    }
}

/// The links that a table of connections holds: for every processor and
/// output port, the list of destinations.
pub open spec fn links_of(connections: Seq<Vec<Vec<PortId>>>) -> Links {
    Seq::new(
        connections.len(),
        |a: int| Seq::new(connections[a]@.len(), |p: int| connections[a]@[p]@),
    )
}

/// A sequence of indices as mathematical integers.
pub open spec fn ints(indices: Seq<usize>) -> Seq<int> {
    indices.map_values(|u: usize| u as int)
}

/// Among the first `end` processors, one that has not run feeds processor `b`.
pub open spec fn blocked_within(links: Links, emitted: Seq<bool>, b: int, end: int) -> bool {
    exists|a: int| 0 <= a < end && !emitted[a] && #[trigger] has_edge(links, a, b)
}

/// A vector of `n` times `false`.
fn all_false(n: usize) -> (flags: Vec<bool>)
    ensures
        flags@.len() == n,
        forall|i: int| 0 <= i < n ==> !(#[trigger] flags@[i]),
{
    let mut flags: Vec<bool> = Vec::new();
    let mut i: usize = 0;
    while i < n
        invariant
            i <= n,
            flags@.len() == i,
            forall|k: int| 0 <= k < i ==> !(#[trigger] flags@[k]),
        decreases n - i,
    {
        flags.push(false);
        i += 1;
    }
    flags
}

/// Marks every processor that is fed by a processor that has not run yet.
fn blocked_units(connections: &Vec<Vec<Vec<PortId>>>, emitted: &Vec<bool>) -> (blocked: Vec<bool>)
    requires
        emitted@.len() == connections@.len(),
        links_closed(links_of(connections@)),
    ensures
        blocked@.len() == connections@.len(),
        forall|b: int|
            0 <= b < blocked@.len() ==> (#[trigger] blocked@[b] <==> blocked_within(
                links_of(connections@),
                emitted@,
                b,
                connections@.len() as int,
            )),
{
    let n = connections.len();
    let ghost links = links_of(connections@);
    let mut blocked = all_false(n);
    let mut a: usize = 0;
    while a < n
        invariant
            a <= n,
            n == connections@.len(),
            emitted@.len() == n,
            blocked@.len() == n,
            links == links_of(connections@),
            links_closed(links),
            forall|b: int|
                0 <= b < n ==> (#[trigger] blocked@[b] <==> blocked_within(
                    links,
                    emitted@,
                    b,
                    a as int,
                )),
        decreases n - a,
    {
        if !emitted[a] {
            let ports = &connections[a];
            let mut p: usize = 0;
            while p < ports.len()
                invariant
                    a < n,
                    n == connections@.len(),
                    emitted@.len() == n,
                    blocked@.len() == n,
                    links == links_of(connections@),
                    links_closed(links),
                    *ports == connections@[a as int],
                    p <= ports@.len(),
                    forall|b: int|
                        0 <= b < n ==> (#[trigger] blocked@[b] <==> (blocked_within(
                            links,
                            emitted@,
                            b,
                            a as int,
                        ) || feeds_within(links[a as int], b, p as int))),
                decreases ports@.len() - p,
            {
                let dests = &ports[p];
                let mut j: usize = 0;
                while j < dests.len()
                    invariant
                        a < n,
                        n == connections@.len(),
                        emitted@.len() == n,
                        blocked@.len() == n,
                        links == links_of(connections@),
                        links_closed(links),
                        *ports == connections@[a as int],
                        p < ports@.len(),
                        *dests == ports@[p as int],
                        j <= dests@.len(),
                        forall|b: int|
                            0 <= b < n ==> (#[trigger] blocked@[b] <==> (blocked_within(
                                links,
                                emitted@,
                                b,
                                a as int,
                            ) || feeds_within(links[a as int], b, p as int) || reaches_within(
                                dests@,
                                b,
                                j as int,
                            ))),
                    decreases dests@.len() - j,
                {
                    let target = dests[j].0;
                    assert(links[a as int][p as int][j as int] == dests@[j as int]);
                    blocked.set(target, true);
                    j += 1;
                }
                assert(links[a as int][p as int] == dests@);
                p += 1;
            }
        }
        proof {
            assert forall|b: int| 0 <= b < n implies (#[trigger] blocked@[b] <==> blocked_within(
                links,
                emitted@,
                b,
                a + 1,
            )) by {
                if !emitted@[a as int] && has_edge(links, a as int, b) {
                    assert(blocked_within(links, emitted@, b, a + 1));
                }
            }
        }
        a += 1;
    }
    blocked
}

/// Computes the layered topological order of the processors, or finds that
/// the connections hold a cycle.
pub fn topological_sort(connections: &Vec<Vec<Vec<PortId>>>) -> (sorted: Option<Vec<usize>>)
    requires
        links_closed(links_of(connections@)),
    ensures
        match sorted {
            Some(order) => topological_order(links_of(connections@)) == Some(ints(order@)),
            None => topological_order(links_of(connections@)) is None,
        },
{
    let n = connections.len();
    let ghost links = links_of(connections@);
    let ghost whole = extend_order(links, Seq::empty(), n as nat);
    let mut order: Vec<usize> = Vec::new();
    let mut emitted = all_false(n);
    let mut rounds: usize = 0;
    let mut growing = true;
    assert(ints(order@) =~= Seq::<int>::empty());
    while growing && rounds < n
        invariant
            rounds <= n,
            n == connections@.len(),
            links == links_of(connections@),
            links_closed(links),
            whole == extend_order(links, Seq::empty(), n as nat),
            emitted@.len() == n,
            forall|x: int| 0 <= x < n ==> (#[trigger] emitted@[x] <==> ints(order@).contains(x)),
            growing ==> extend_order(links, ints(order@), (n - rounds) as nat) == whole,
            !growing ==> ints(order@) == whole,
        decreases n - rounds, (if growing { 1int } else { 0int }),
    {
        let blocked = blocked_units(connections, &emitted);
        let before = order.len();
        let ghost base = ints(order@);
        let ghost done = base.to_set();
        let ghost emitted_before = emitted@;
        let mut u: usize = 0;
        while u < n
            invariant
                u <= n,
                n == connections@.len(),
                emitted@.len() == n,
                emitted_before.len() == n,
                blocked@.len() == n,
                order@.len() >= before,
                forall|x: int|
                    0 <= x < n ==> (is_ready(links, done, x) <==> !(#[trigger] emitted_before[x])
                        && !blocked@[x]),
                forall|x: int| u <= x < n ==> #[trigger] emitted@[x] == emitted_before[x],
                forall|x: int|
                    0 <= x < u ==> (#[trigger] emitted@[x] <==> emitted_before[x] || is_ready(
                        links,
                        done,
                        x,
                    )),
                ints(order@) == base + ready_below(links, done, u as nat),
            decreases n - u,
        {
            if !emitted[u] && !blocked[u] {
                assert(ints(order@.push(u)) =~= ints(order@).push(u as int));
                order.push(u);
                emitted.set(u, true);
            }
            u += 1;
        }
        let ghost layer = next_layer(links, base);
        proof {
            lemma_ready_below(links, done, n as nat);
            assert forall|x: int| 0 <= x < n implies (#[trigger] emitted@[x] <==> ints(
                order@,
            ).contains(x)) by {
                if emitted_before[x] {
                    let i = choose|i: int| 0 <= i < base.len() && base[i] == x;
                    assert(ints(order@)[i] == x);
                }
                if is_ready(links, done, x) {
                    let i = choose|i: int| 0 <= i < layer.len() && layer[i] == x;
                    assert(ints(order@)[base.len() + i] == x);
                }
            }
        }
        if order.len() == before {
            growing = false;
        } else {
            rounds += 1;
        }
    }
    if order.len() == n {
        Some(order)
    } else {
        None
    }
}

} // verus!
