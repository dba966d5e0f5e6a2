//! The description of a wiring as text.

use crate::topology::Links;
use crate::topology::PortId;
use crate::topology;
use vstd::prelude::*;
use vstd::string::StringExecFns;

verus! {

/// The decimal digit `d`.
pub open spec fn digit(d: nat) -> Seq<char> {
    if d == 0 {
        "0"@
    } else if d == 1 {
        "1"@
    } else if d == 2 {
        "2"@
    } else if d == 3 {
        "3"@
    } else if d == 4 {
        "4"@
    } else if d == 5 {
        "5"@
    } else if d == 6 {
        "6"@
    } else if d == 7 {
        "7"@
    } else if d == 8 {
        "8"@
    } else {
        "9"@
    }
}

/// The number `n` in decimal digits, without leading zeros.
pub open spec fn decimal(n: nat) -> Seq<char>
    decreases n,
{
    if n < 10 {
        digit(n)
    } else {
        decimal(n / 10) + digit(n % 10)
    }
}

/// The line that names the output port `p` of processor `u`.
pub open spec fn source_line(u: nat, p: nat) -> Seq<char> {
    "\tsrc Processor: "@ + decimal(u) + ", src Port: "@ + decimal(p) + "\n"@
}

/// The line that names the input port `dest`.
pub open spec fn dest_line(dest: PortId) -> Seq<char> {
    "\t\tdest Processor: "@ + decimal(dest.0 as nat) + ", dest Port: "@ + decimal(dest.1 as nat)
        + "\n"@
}

/// The lines of the first `end` input ports of `dests`.
pub open spec fn dest_lines(dests: Seq<PortId>, end: nat) -> Seq<char>
    decreases end,
{
    if end == 0 {
        Seq::empty()
    } else {
        dest_lines(dests, (end - 1) as nat) + dest_line(dests[end - 1])
    }
}

/// The lines of the first `end` output ports of processor `u`: for each port
/// its own line, followed by the lines of the input ports that it feeds.
pub open spec fn port_lines(ports: Seq<Seq<PortId>>, u: nat, end: nat) -> Seq<char>
    decreases end,
{
    if end == 0 {
        Seq::empty()
    } else {
        port_lines(ports, u, (end - 1) as nat) + source_line(u, (end - 1) as nat) + dest_lines(
            ports[end - 1],
            ports[end - 1].len(),
        )
    }
}

/// The lines of the output ports of the first `end` processors.
pub open spec fn unit_lines(links: Links, end: nat) -> Seq<char>
    decreases end,
{
    if end == 0 {
        Seq::empty()
    } else {
        unit_lines(links, (end - 1) as nat) + port_lines(
            links[end - 1],
            (end - 1) as nat,
            links[end - 1].len(),
        )
    }
}

/// The description of the links: the number of processors, and then every
/// output port in ascending order, each with the input ports that it feeds
/// in the order in which they were connected.
pub open spec fn description(links: Links) -> Seq<char> {
    "Processors: "@ + decimal(links.len()) + "\n"@ + "Connections: \n"@ + unit_lines(
        links,
        links.len(),
    )
}

/// The text of the decimal digit `d`.
fn digit_text(d: usize) -> (text: &'static str)
    requires
        d < 10,
    ensures
        text@ == digit(d as nat),
{
    if d == 0 {
        "0"
    } else if d == 1 {
        "1"
    } else if d == 2 {
        "2"
    } else if d == 3 {
        "3"
    } else if d == 4 {
        "4"
    } else if d == 5 {
        "5"
    } else if d == 6 {
        "6"
    } else if d == 7 {
        "7"
    } else if d == 8 {
        "8"
    } else {
        "9"
    }
}

/// Appends the number `n` in decimal digits to `text`.
pub fn push_decimal(text: &mut String, n: usize)
    ensures
        final(text)@ == old(text)@ + decimal(n as nat),
    decreases n,
{
    if n >= 10 {
        push_decimal(text, n / 10);
    }
    text.append(digit_text(n % 10));
}

/// Appends the line of the input port `dest` to `text`.
fn push_dest_line(text: &mut String, dest: PortId)
    ensures
        final(text)@ == old(text)@ + dest_line(dest),
{
    text.append("\t\tdest Processor: ");
    push_decimal(text, dest.0);
    text.append(", dest Port: ");
    push_decimal(text, dest.1);
    text.append("\n");
}

/// Appends the line of the output port `p` of processor `u` to `text`.
fn push_source_line(text: &mut String, u: usize, p: usize)
    ensures
        final(text)@ == old(text)@ + source_line(u as nat, p as nat),
{
    text.append("\tsrc Processor: ");
    push_decimal(text, u);
    text.append(", src Port: ");
    push_decimal(text, p);
    text.append("\n");
}

/// The description of the links that `connections` holds.
pub fn describe(connections: &Vec<Vec<Vec<PortId>>>) -> (text: String)
    ensures
        text@ == description(topology::links_of(connections@)),
{
    let ghost links = topology::links_of(connections@);
    let mut text = String::from_str("Processors: ");
    push_decimal(&mut text, connections.len());
    text.append("\n");
    text.append("Connections: \n");
    let ghost head = text@;
    let mut u: usize = 0;
    while u < connections.len()
        invariant
            u <= connections@.len(),
            links == topology::links_of(connections@),
            text@ == head + unit_lines(links, u as nat),
        decreases connections@.len() - u,
    {
        let ports = &connections[u];
        let ghost before = text@;
        let mut p: usize = 0;
        while p < ports.len()
            invariant
                p <= ports@.len(),
                u < connections@.len(),
                *ports == connections@[u as int],
                links == topology::links_of(connections@),
                text@ == before + port_lines(links[u as int], u as nat, p as nat),
            decreases ports@.len() - p,
        {
            let dests = &ports[p];
            push_source_line(&mut text, u, p);
            let ghost started = text@;
            let mut j: usize = 0;
            while j < dests.len()
                invariant
                    j <= dests@.len(),
                    text@ == started + dest_lines(dests@, j as nat),
                decreases dests@.len() - j,
            {
                push_dest_line(&mut text, dests[j]);
                j += 1;
            }
            p += 1;
        }
        u += 1;
    }
    text
}

} // verus!
