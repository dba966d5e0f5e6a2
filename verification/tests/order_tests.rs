use pcm_flow::graph::Graph;
use pcm_flow::wiring::Error;
use pcm_flow::TestNode;

fn graph_of(units: usize) -> Graph<[f32; 2]> {
    let mut graph = Graph::<[f32; 2]>::new(1);
    for index in 0..units {
        assert_eq!(graph.add_processor(Box::new(TestNode {})), index);
    }
    graph
}

fn position(order: &Vec<usize>, unit: usize) -> usize {
    order.iter().position(|&u| u == unit).unwrap()
}

#[test]
fn empty_graph_has_empty_order() {
    let graph = graph_of(0);
    assert_eq!(graph.get_topological_sorting(), Some(vec![]));
}

#[test]
fn unlinked_processors_run_in_insertion_order() {
    let graph = graph_of(5);
    assert_eq!(graph.get_topological_sorting(), Some(vec![0, 1, 2, 3, 4]));
}

#[test]
fn order_is_layered_with_ascending_ties() {
    let mut graph = graph_of(3);
    graph.add_connection(&(0, 0), &(1, 0)).unwrap();
    assert_eq!(graph.get_topological_sorting(), Some(vec![0, 2, 1]));
}

#[test]
fn later_layers_follow_earlier_ones() {
    let mut graph = graph_of(6);
    graph.add_connection(&(5, 0), &(0, 0)).unwrap();
    graph.add_connection(&(4, 0), &(0, 0)).unwrap();
    graph.add_connection(&(0, 0), &(2, 0)).unwrap();
    assert_eq!(graph.get_topological_sorting(), Some(vec![1, 3, 4, 5, 0, 2]));
}

#[test]
fn order_respects_every_link() {
    let mut graph = graph_of(7);
    let links = [(6, 3), (3, 1), (6, 1), (1, 0), (5, 0), (2, 4), (4, 0)];
    for &(from, to) in links.iter() {
        graph.add_connection(&(from, 0), &(to, 0)).unwrap();
    }
    let order = graph.get_topological_sorting().unwrap();
    assert_eq!(order.len(), 7);
    for unit in 0..7 {
        assert_eq!(order.iter().filter(|&&u| u == unit).count(), 1);
    }
    for &(from, to) in links.iter() {
        assert!(position(&order, from) < position(&order, to));
    }
    assert_eq!(order, vec![2, 5, 6, 3, 4, 1, 0]);
}

#[test]
fn added_processor_joins_the_first_layer() {
    let mut graph = graph_of(2);
    graph.add_connection(&(0, 0), &(1, 0)).unwrap();
    assert_eq!(graph.get_topological_sorting(), Some(vec![0, 1]));
    assert_eq!(graph.add_processor(Box::new(TestNode {})), 2);
    assert_eq!(graph.get_topological_sorting(), Some(vec![0, 2, 1]));
}

#[test]
fn four_in_a_row_then_a_cycle() {
    let mut graph = graph_of(4);
    graph.add_connection(&(0, 0), &(1, 0)).unwrap();
    graph.add_connection(&(1, 0), &(2, 0)).unwrap();
    graph.add_connection(&(2, 0), &(3, 0)).unwrap();
    graph.add_connection(&(1, 0), &(3, 0)).unwrap();
    assert_eq!(graph.get_topological_sorting(), Some(vec![0, 1, 2, 3]));
    assert_eq!(
        graph.add_connection(&(3, 0), &(0, 0)),
        Err(Error::CycleDetected { from: 3, to: 0 })
    );
}

#[test]
fn refused_cycle_changes_nothing() {
    let mut graph = graph_of(4);
    graph.add_connection(&(0, 0), &(2, 0)).unwrap();
    graph.add_connection(&(2, 0), &(1, 0)).unwrap();
    let order = graph.get_topological_sorting();
    let text = graph.get_description_string();
    assert_eq!(order, Some(vec![0, 3, 2, 1]));
    assert_eq!(
        graph.add_connection(&(1, 0), &(0, 0)),
        Err(Error::CycleDetected { from: 1, to: 0 })
    );
    assert_eq!(graph.get_topological_sorting(), order);
    assert_eq!(graph.get_description_string(), text);
    graph.add_connection(&(3, 0), &(1, 0)).unwrap();
    assert_eq!(graph.get_topological_sorting(), Some(vec![0, 3, 2, 1]));
}

#[test]
fn self_link_is_a_cycle() {
    let mut graph = graph_of(2);
    assert_eq!(
        graph.add_connection(&(1, 0), &(1, 0)),
        Err(Error::CycleDetected { from: 1, to: 1 })
    );
    assert_eq!(graph.get_topological_sorting(), Some(vec![0, 1]));
}

#[test]
fn missing_ports_are_refused() {
    let mut graph = graph_of(2);
    graph.add_connection(&(0, 0), &(1, 0)).unwrap();
    let text = graph.get_description_string();
    assert_eq!(
        graph.add_connection(&(0, 1), &(1, 0)),
        Err(Error::PortOutOfRange { unit: 0, port: 1 })
    );
    assert_eq!(
        graph.add_connection(&(0, 0), &(1, 1)),
        Err(Error::PortOutOfRange { unit: 1, port: 1 })
    );
    assert_eq!(
        graph.add_connection(&(2, 0), &(1, 0)),
        Err(Error::PortOutOfRange { unit: 2, port: 0 })
    );
    assert_eq!(
        graph.add_connection(&(0, 0), &(7, 0)),
        Err(Error::PortOutOfRange { unit: 7, port: 0 })
    );
    assert_eq!(
        graph.add_connection(&(9, 9), &(8, 8)),
        Err(Error::PortOutOfRange { unit: 9, port: 9 })
    );
    assert_eq!(graph.get_description_string(), text);
    assert_eq!(graph.get_topological_sorting(), Some(vec![0, 1]));
}

#[test]
fn ports_are_found_by_their_indices() {
    let graph = graph_of(2);
    assert!(graph.inport_exists((0, 0)));
    assert!(graph.inport_exists((1, 0)));
    assert!(!graph.inport_exists((1, 1)));
    assert!(!graph.inport_exists((2, 0)));
    assert!(graph.outport_exists((1, 0)));
    assert!(!graph.outport_exists((0, 1)));
    assert!(!graph.outport_exists((2, 0)));
}

#[test]
fn linking_twice_is_linking_once() {
    let mut graph = graph_of(2);
    graph.add_connection(&(0, 0), &(1, 0)).unwrap();
    let text = graph.get_description_string();
    assert_eq!(graph.add_connection(&(0, 0), &(1, 0)), Ok(()));
    assert_eq!(graph.get_description_string(), text);
}

#[test]
fn graph_ports_must_exist_to_be_wired() {
    let mut graph = graph_of(2);
    assert_eq!(
        graph.connect_input(0, (0, 0)),
        Err(Error::PortOutOfRange { unit: 0, port: 0 })
    );
    assert_eq!(
        graph.connect_output(0, (1, 0)),
        Err(Error::PortOutOfRange { unit: 1, port: 0 })
    );
    graph.set_input_amt(2);
    graph.set_output_amt(1);
    assert_eq!(graph.connect_input(1, (0, 0)), Ok(()));
    assert_eq!(graph.connect_input(1, (0, 0)), Ok(()));
    assert_eq!(
        graph.connect_input(2, (0, 0)),
        Err(Error::PortOutOfRange { unit: 0, port: 0 })
    );
    assert_eq!(
        graph.connect_input(0, (0, 1)),
        Err(Error::PortOutOfRange { unit: 0, port: 1 })
    );
    assert_eq!(
        graph.connect_input(0, (2, 0)),
        Err(Error::PortOutOfRange { unit: 2, port: 0 })
    );
    assert_eq!(graph.connect_output(0, (1, 0)), Ok(()));
    assert_eq!(
        graph.connect_output(1, (1, 0)),
        Err(Error::PortOutOfRange { unit: 1, port: 0 })
    );
    assert_eq!(
        graph.connect_output(0, (1, 1)),
        Err(Error::PortOutOfRange { unit: 1, port: 1 })
    );
}

fn agrees_with_petgraph(units: usize, links: &[(usize, usize)]) {
    let mut graph = graph_of(units);
    let mut reference = petgraph::graph::Graph::<(), (), petgraph::Directed, u32>::new();
    let nodes: Vec<petgraph::graph::NodeIndex> =
        (0..units).map(|_| reference.add_node(())).collect();
    let mut last = Ok(());
    for &(from, to) in links.iter() {
        last = graph.add_connection(&(from, 0), &(to, 0));
        reference.add_edge(nodes[from], nodes[to], ());
    }
    let sortable = petgraph::algo::toposort(&reference, None).is_ok();
    assert_eq!(last.is_ok(), sortable);
    let order = graph.get_topological_sorting().unwrap();
    assert_eq!(order.len(), units);
}

#[test]
fn cycles_are_those_that_petgraph_finds() {
    agrees_with_petgraph(3, &[(0, 1), (1, 2)]);
    agrees_with_petgraph(3, &[(0, 1), (1, 2), (2, 0)]);
    agrees_with_petgraph(4, &[(3, 2), (2, 1), (1, 0), (3, 0)]);
    agrees_with_petgraph(4, &[(3, 2), (2, 1), (1, 0), (0, 2)]);
    agrees_with_petgraph(2, &[(0, 1), (1, 0)]);
    agrees_with_petgraph(2, &[(1, 1)]);
    agrees_with_petgraph(5, &[(0, 4), (4, 1), (1, 3), (3, 2), (0, 2)]);
    agrees_with_petgraph(5, &[(0, 4), (4, 1), (1, 3), (3, 2), (2, 4)]);
}
