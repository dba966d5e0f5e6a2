use pcm_flow::graph::Graph;
use pcm_flow::TestNode;

#[test]
fn lib_cyclic_graph_test_1() {
    let mut graph = Graph::<[f32; 2]>::new(1);
    let n1 = graph.add_processor(Box::new(TestNode {}));
    let n2 = graph.add_processor(Box::new(TestNode {}));
    let n3 = graph.add_processor(Box::new(TestNode {}));
    let n4 = graph.add_processor(Box::new(TestNode {}));
    graph.add_connection(&(n1, 0), &(n2, 0)).unwrap();
    graph.add_connection(&(n2, 0), &(n3, 0)).unwrap();
    graph.add_connection(&(n3, 0), &(n4, 0)).unwrap();
    graph.add_connection(&(n1, 0), &(n4, 0)).unwrap();
}

#[test]
fn lib_cyclic_graph_test_2() {
    let mut graph = Graph::<[f32; 2]>::new(1);
    let n1 = graph.add_processor(Box::new(TestNode {}));
    let n2 = graph.add_processor(Box::new(TestNode {}));
    let n3 = graph.add_processor(Box::new(TestNode {}));
    let n4 = graph.add_processor(Box::new(TestNode {}));
    graph.add_connection(&(n1, 0), &(n2, 0)).unwrap();
    graph.add_connection(&(n1, 0), &(n3, 0)).unwrap();
    graph.add_connection(&(n1, 0), &(n4, 0)).unwrap();
    graph.add_connection(&(n2, 0), &(n4, 0)).unwrap();
}

#[test]
fn lib_cyclic_graph_test_3() {
    let mut graph = Graph::<[f32; 2]>::new(1);
    let n1 = graph.add_processor(Box::new(TestNode {}));
    let n2 = graph.add_processor(Box::new(TestNode {}));
    let n3 = graph.add_processor(Box::new(TestNode {}));
    let n4 = graph.add_processor(Box::new(TestNode {}));
    graph.add_connection(&(n1, 0), &(n2, 0)).unwrap();
    graph.add_connection(&(n2, 0), &(n3, 0)).unwrap();
    graph.add_connection(&(n3, 0), &(n4, 0)).unwrap();
    match graph.add_connection(&(n4, 0), &(n1, 0)) {
        Ok(_) => {
            panic!();
        }
        _ => {}
    }
}

#[test]
fn lib_cyclic_graph_test_4() {
    let mut graph = Graph::<[f32; 2]>::new(1);
    let n1 = graph.add_processor(Box::new(TestNode {}));
    let n2 = graph.add_processor(Box::new(TestNode {}));
    let n3 = graph.add_processor(Box::new(TestNode {}));
    let n4 = graph.add_processor(Box::new(TestNode {}));
    graph.add_connection(&(n1, 0), &(n2, 0)).unwrap();
    graph.add_connection(&(n2, 0), &(n3, 0)).unwrap();
    graph.add_connection(&(n3, 0), &(n4, 0)).unwrap();
    graph.add_connection(&(n2, 0), &(n4, 0)).unwrap();
    graph.add_connection(&(n1, 0), &(n3, 0)).unwrap();
    match graph.add_connection(&(n4, 0), &(n1, 0)) {
        Ok(_) => {
            panic!();
        }
        _ => {}
    }
}

#[test]
fn lib_topologic_sorting_test_1() {
    let mut graph = Graph::<[f32; 2]>::new(1);
    let n1 = graph.add_processor(Box::new(TestNode {}));
    let n2 = graph.add_processor(Box::new(TestNode {}));
    let n3 = graph.add_processor(Box::new(TestNode {}));
    let n4 = graph.add_processor(Box::new(TestNode {}));
    graph.add_connection(&(n1, 0), &(n2, 0)).unwrap();
    graph.add_connection(&(n2, 0), &(n3, 0)).unwrap();
    graph.add_connection(&(n3, 0), &(n4, 0)).unwrap();
    graph.add_connection(&(n2, 0), &(n4, 0)).unwrap();
    assert_eq!(graph.get_topological_sorting(), Some(vec![n1, n2, n3, n4]));
}

#[test]
fn lib_topologic_sorting_test_2() {
    let mut graph = Graph::<[f32; 2]>::new(1);
    let n1 = graph.add_processor(Box::new(TestNode {}));
    let n2 = graph.add_processor(Box::new(TestNode {}));
    let n3 = graph.add_processor(Box::new(TestNode {}));
    let n4 = graph.add_processor(Box::new(TestNode {}));
    let n5 = graph.add_processor(Box::new(TestNode {}));
    let n6 = graph.add_processor(Box::new(TestNode {}));
    graph.add_connection(&(n6, 0), &(n5, 0)).unwrap();
    graph.add_connection(&(n6, 0), &(n4, 0)).unwrap();
    graph.add_connection(&(n6, 0), &(n3, 0)).unwrap();
    graph.add_connection(&(n6, 0), &(n2, 0)).unwrap();
    graph.add_connection(&(n6, 0), &(n1, 0)).unwrap();
    graph.add_connection(&(n5, 0), &(n4, 0)).unwrap();
    graph.add_connection(&(n5, 0), &(n3, 0)).unwrap();
    graph.add_connection(&(n5, 0), &(n2, 0)).unwrap();
    graph.add_connection(&(n5, 0), &(n1, 0)).unwrap();
    graph.add_connection(&(n4, 0), &(n3, 0)).unwrap();
    graph.add_connection(&(n4, 0), &(n2, 0)).unwrap();
    graph.add_connection(&(n4, 0), &(n1, 0)).unwrap();
    graph.add_connection(&(n3, 0), &(n2, 0)).unwrap();
    graph.add_connection(&(n3, 0), &(n1, 0)).unwrap();
    graph.add_connection(&(n2, 0), &(n1, 0)).unwrap();
    assert_eq!(graph.get_topological_sorting(), Some(vec![n6, n5, n4, n3, n2, n1]));
}

#[test]
fn pass_through_test() {
    let mut graph = Graph::<[f32; 2]>::new(1);
    let n1 = graph.add_processor(Box::new(TestNode {}));
    let n2 = graph.add_processor(Box::new(TestNode {}));
    let n3 = graph.add_processor(Box::new(TestNode {}));
    graph.add_connection(&(n1, 0), &(n2, 0)).unwrap();
    graph.add_connection(&(n2, 0), &(n3, 0)).unwrap();
    graph.set_input_amt(1);
    graph.connect_input(0, (n1, 0)).unwrap();
    let input: Vec<Vec<[f32; 2]>> = vec![vec![[4.0, 1.0]]];
    let mut output: Vec<Vec<[f32; 2]>> = vec![vec![]];
    graph.process_graph(&input, &mut output);
    assert_eq!(output, vec![Vec::<[f32; 2]>::new()]);
}
