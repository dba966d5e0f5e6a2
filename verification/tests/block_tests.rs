use pcm_flow::engine::Unit;
use pcm_flow::frame::empty_buffer;
use pcm_flow::frame::has_shape;
use pcm_flow::frame::BufferSet;
use pcm_flow::frame::FrameSet;
use pcm_flow::frame::Kit;
use pcm_flow::graph::Graph;
use pcm_flow::node::Node;
use pcm_flow::processor::Processor;
use pcm_flow::TestNode;
use std::cell::Cell;
use std::rc::Rc;

type Stereo = [f32; 2];

/// Copies its only input to its only output.
struct Through {}

impl Processor<Stereo> for Through {
    fn process(&mut self, inputs: &BufferSet<Stereo>, outputs: &mut BufferSet<Stereo>) {
        for s in 0..inputs.len() {
            outputs[s][0] = inputs[s][0];
        }
    }
    fn inputs_amt(&self) -> usize {
        1
    }
    fn outputs_amt(&self) -> usize {
        1
    }
}

/// Doubles one frame at a time.
struct Doubler {}

impl Processor<Stereo> for Doubler {
    fn frame_process(&mut self, inputs: &FrameSet<Stereo>, outputs: &mut FrameSet<Stereo>) {
        outputs[0] = [inputs[0][0] * 2.0, inputs[0][1] * 2.0];
    }
    fn inputs_amt(&self) -> usize {
        1
    }
    fn outputs_amt(&self) -> usize {
        1
    }
}

/// Puts its only input out on two ports, negated on the second.
struct Splitter {}

impl Processor<Stereo> for Splitter {
    fn frame_process(&mut self, inputs: &FrameSet<Stereo>, outputs: &mut FrameSet<Stereo>) {
        outputs[0] = inputs[0];
        outputs[1] = [-inputs[0][0], -inputs[0][1]];
    }
    fn inputs_amt(&self) -> usize {
        1
    }
    fn outputs_amt(&self) -> usize {
        2
    }
}

/// Puts out its first input minus its second.
struct Difference {}

impl Processor<Stereo> for Difference {
    fn frame_process(&mut self, inputs: &FrameSet<Stereo>, outputs: &mut FrameSet<Stereo>) {
        outputs[0] = [inputs[0][0] - inputs[1][0], inputs[0][1] - inputs[1][1]];
    }
    fn inputs_amt(&self) -> usize {
        2
    }
    fn outputs_amt(&self) -> usize {
        1
    }
}

/// Puts out what it was handed one frame earlier.
struct Delay {
    held: Stereo,
}

impl Processor<Stereo> for Delay {
    fn frame_process(&mut self, inputs: &FrameSet<Stereo>, outputs: &mut FrameSet<Stereo>) {
        outputs[0] = self.held;
        self.held = inputs[0];
    }
    fn inputs_amt(&self) -> usize {
        1
    }
    fn outputs_amt(&self) -> usize {
        1
    }
}

/// Throws its output block away.
struct Vandal {}

impl Processor<Stereo> for Vandal {
    fn process(&mut self, _inputs: &BufferSet<Stereo>, outputs: &mut BufferSet<Stereo>) {
        outputs.clear();
    }
    fn inputs_amt(&self) -> usize {
        1
    }
    fn outputs_amt(&self) -> usize {
        1
    }
}

/// Puts out a constant.
struct Source {
    frame: Stereo,
}

impl Processor<Stereo> for Source {
    fn frame_process(&mut self, _inputs: &FrameSet<Stereo>, outputs: &mut FrameSet<Stereo>) {
        outputs[0] = self.frame;
    }
    fn inputs_amt(&self) -> usize {
        0
    }
    fn outputs_amt(&self) -> usize {
        1
    }
}

fn run(graph: &mut Graph<Stereo>, input: &BufferSet<Stereo>, outputs: usize) -> BufferSet<Stereo> {
    let mut output = vec![vec![[9.0, 9.0]; outputs]; input.len()];
    graph.process(input, &mut output);
    output
}

#[test]
fn frames_are_added_channel_by_channel() {
    let kit = Kit::<Stereo>::new();
    assert_eq!(kit.silence(), [0.0, 0.0]);
    assert_eq!(kit.mix([0.1, 0.2], [0.3, 0.5]), [0.4, 0.7]);
    assert_eq!(kit.mix([1.5, -2.0], [0.25, 2.0]), [1.75, 0.0]);
    assert_eq!(kit.mix(kit.silence(), [4.1, 6.2]), [4.1, 6.2]);
}

#[test]
fn frames_of_other_widths_are_added_too() {
    let mono = Kit::<[f64; 1]>::new();
    assert_eq!(mono.silence(), [0.0]);
    assert_eq!(mono.mix([0.5], [0.25]), [0.75]);
    let wide = Kit::<[f32; 4]>::new();
    assert_eq!(wide.mix([1.0, 2.0, 3.0, 4.0], [0.5, 0.5, 0.5, 0.5]), [1.5, 2.5, 3.5, 4.5]);
}

#[test]
fn empty_buffers_are_silent() {
    let kit = Kit::<Stereo>::new();
    let block = empty_buffer(&kit, 2, 3);
    assert_eq!(block, vec![vec![[0.0, 0.0]; 2]; 3]);
    assert_eq!(empty_buffer(&kit, 0, 2), vec![Vec::<Stereo>::new(); 2]);
    assert_eq!(empty_buffer(&kit, 2, 0), Vec::<Vec<Stereo>>::new());
}

#[test]
fn shapes_are_told_apart() {
    let block: BufferSet<Stereo> = vec![vec![[0.0, 0.0]; 2]; 3];
    assert!(has_shape(&block, 3, 2));
    assert!(!has_shape(&block, 2, 3));
    assert!(!has_shape(&block, 3, 1));
    let ragged: BufferSet<Stereo> = vec![vec![[0.0, 0.0]; 2], vec![[0.0, 0.0]; 1]];
    assert!(!has_shape(&ragged, 2, 2));
    assert!(has_shape(&Vec::<Vec<Stereo>>::new(), 0, 5));
}

#[test]
fn two_sources_into_one_port_are_summed() {
    let mut graph = Graph::<Stereo>::new(1);
    let n1 = graph.add_processor(Box::new(Through {}));
    let n2 = graph.add_processor(Box::new(Through {}));
    let n3 = graph.add_processor(Box::new(Through {}));
    graph.add_connection(&(n1, 0), &(n3, 0)).unwrap();
    graph.add_connection(&(n2, 0), &(n3, 0)).unwrap();
    graph.set_input_amt(2);
    graph.set_output_amt(1);
    graph.connect_input(0, (n1, 0)).unwrap();
    graph.connect_input(1, (n2, 0)).unwrap();
    graph.connect_output(0, (n3, 0)).unwrap();
    let input: BufferSet<Stereo> = vec![vec![[0.1, 0.2], [0.3, 0.5]]];
    let mut output: BufferSet<Stereo> = vec![vec![[0.0, 0.0]]];
    graph.process_graph(&input, &mut output);
    assert_eq!(output, vec![vec![[0.4, 0.7]]]);
}

#[test]
fn every_position_of_a_block_is_summed() {
    let mut graph = Graph::<Stereo>::new(3);
    let n1 = graph.add_processor(Box::new(Through {}));
    let n2 = graph.add_processor(Box::new(Doubler {}));
    let n3 = graph.add_processor(Box::new(Through {}));
    graph.add_connection(&(n1, 0), &(n3, 0)).unwrap();
    graph.add_connection(&(n2, 0), &(n3, 0)).unwrap();
    graph.set_input_amt(1);
    graph.set_output_amt(2);
    graph.connect_input(0, (n1, 0)).unwrap();
    graph.connect_input(0, (n2, 0)).unwrap();
    graph.connect_output(0, (n3, 0)).unwrap();
    graph.connect_output(1, (n1, 0)).unwrap();
    graph.connect_output(1, (n2, 0)).unwrap();
    let input: BufferSet<Stereo> = vec![vec![[1.0, 2.0]], vec![[3.0, -4.0]], vec![[0.5, 0.25]]];
    let output = run(&mut graph, &input, 2);
    assert_eq!(
        output,
        vec![
            vec![[3.0, 6.0], [3.0, 6.0]],
            vec![[9.0, -12.0], [9.0, -12.0]],
            vec![[1.5, 0.75], [1.5, 0.75]],
        ]
    );
}

#[test]
fn chain_of_four_passes_the_input_through() {
    let mut graph = Graph::<Stereo>::new(2);
    let a = graph.add_processor(Box::new(Through {}));
    let b = graph.add_processor(Box::new(Through {}));
    let c = graph.add_processor(Box::new(Through {}));
    let d = graph.add_processor(Box::new(Through {}));
    graph.add_connection(&(c, 0), &(d, 0)).unwrap();
    graph.add_connection(&(b, 0), &(c, 0)).unwrap();
    graph.add_connection(&(a, 0), &(b, 0)).unwrap();
    graph.set_input_amt(1);
    graph.set_output_amt(1);
    graph.connect_input(0, (a, 0)).unwrap();
    graph.connect_output(0, (d, 0)).unwrap();
    let input: BufferSet<Stereo> = vec![vec![[4.1, 6.2]], vec![[-0.3, 0.9]]];
    assert_eq!(run(&mut graph, &input, 1), input);
}

#[test]
fn processors_run_after_those_that_feed_them() {
    let mut graph = Graph::<Stereo>::new(1);
    let last = graph.add_processor(Box::new(Through {}));
    let middle = graph.add_processor(Box::new(Doubler {}));
    let first = graph.add_processor(Box::new(Doubler {}));
    graph.add_connection(&(middle, 0), &(last, 0)).unwrap();
    graph.add_connection(&(first, 0), &(middle, 0)).unwrap();
    graph.set_input_amt(1);
    graph.set_output_amt(1);
    graph.connect_input(0, (first, 0)).unwrap();
    graph.connect_output(0, (last, 0)).unwrap();
    assert_eq!(graph.get_topological_sorting(), Some(vec![first, middle, last]));
    assert_eq!(run(&mut graph, &vec![vec![[1.0, -3.0]]], 1), vec![vec![[4.0, -12.0]]]);
}

#[test]
fn one_port_feeds_many() {
    let mut graph = Graph::<Stereo>::new(1);
    let split = graph.add_processor(Box::new(Splitter {}));
    let left = graph.add_processor(Box::new(Doubler {}));
    let right = graph.add_processor(Box::new(Through {}));
    let diff = graph.add_processor(Box::new(Difference {}));
    graph.add_connection(&(split, 0), &(left, 0)).unwrap();
    graph.add_connection(&(split, 0), &(right, 0)).unwrap();
    graph.add_connection(&(split, 1), &(diff, 1)).unwrap();
    graph.add_connection(&(left, 0), &(diff, 0)).unwrap();
    graph.add_connection(&(right, 0), &(diff, 0)).unwrap();
    graph.set_input_amt(1);
    graph.set_output_amt(1);
    graph.connect_input(0, (split, 0)).unwrap();
    graph.connect_output(0, (diff, 0)).unwrap();
    assert_eq!(run(&mut graph, &vec![vec![[1.0, 0.5]]], 1), vec![vec![[4.0, 2.0]]]);
}

#[test]
fn graph_input_replaces_what_an_earlier_one_wrote() {
    let mut graph = Graph::<Stereo>::new(1);
    let unit = graph.add_processor(Box::new(Through {}));
    graph.set_input_amt(2);
    graph.set_output_amt(1);
    graph.connect_input(1, (unit, 0)).unwrap();
    graph.connect_input(0, (unit, 0)).unwrap();
    graph.connect_output(0, (unit, 0)).unwrap();
    let input: BufferSet<Stereo> = vec![vec![[1.0, 1.0], [5.0, 7.0]]];
    assert_eq!(run(&mut graph, &input, 1), vec![vec![[5.0, 7.0]]]);
}

#[test]
fn unwired_graph_output_is_silent() {
    let mut graph = Graph::<Stereo>::new(2);
    let unit = graph.add_processor(Box::new(Through {}));
    graph.set_input_amt(1);
    graph.set_output_amt(2);
    graph.connect_input(0, (unit, 0)).unwrap();
    graph.connect_output(1, (unit, 0)).unwrap();
    let input: BufferSet<Stereo> = vec![vec![[1.0, 2.0]], vec![[3.0, 4.0]]];
    assert_eq!(
        run(&mut graph, &input, 2),
        vec![vec![[0.0, 0.0], [1.0, 2.0]], vec![[0.0, 0.0], [3.0, 4.0]]]
    );
}

#[test]
fn setting_the_inputs_anew_unwires_them() {
    let mut graph = Graph::<Stereo>::new(1);
    let unit = graph.add_processor(Box::new(Through {}));
    graph.set_input_amt(1);
    graph.set_output_amt(1);
    graph.connect_input(0, (unit, 0)).unwrap();
    graph.connect_output(0, (unit, 0)).unwrap();
    assert_eq!(run(&mut graph, &vec![vec![[1.0, 2.0]]], 1), vec![vec![[1.0, 2.0]]]);
    graph.set_input_amt(1);
    assert_eq!(run(&mut graph, &vec![vec![[1.0, 2.0]]], 1), vec![vec![[0.0, 0.0]]]);
    graph.set_output_amt(1);
    graph.connect_input(0, (unit, 0)).unwrap();
    assert_eq!(run(&mut graph, &vec![vec![[1.0, 2.0]]], 1), vec![vec![[0.0, 0.0]]]);
}

#[test]
fn blocks_of_another_shape_are_left_alone() {
    let mut graph = Graph::<Stereo>::new(2);
    let unit = graph.add_processor(Box::new(Through {}));
    graph.set_input_amt(1);
    graph.set_output_amt(1);
    graph.connect_input(0, (unit, 0)).unwrap();
    graph.connect_output(0, (unit, 0)).unwrap();
    let short: BufferSet<Stereo> = vec![vec![[1.0, 2.0]]];
    let mut output: BufferSet<Stereo> = vec![vec![[9.0, 9.0]], vec![[9.0, 9.0]]];
    graph.process(&short, &mut output);
    assert_eq!(output, vec![vec![[9.0, 9.0]], vec![[9.0, 9.0]]]);
    let input: BufferSet<Stereo> = vec![vec![[1.0, 2.0]], vec![[3.0, 4.0]]];
    let mut wide: BufferSet<Stereo> = vec![vec![[9.0, 9.0]; 2]; 2];
    graph.process(&input, &mut wide);
    assert_eq!(wide, vec![vec![[9.0, 9.0]; 2]; 2]);
    let mut fitting: BufferSet<Stereo> = vec![vec![[9.0, 9.0]]; 2];
    graph.process(&input, &mut fitting);
    assert_eq!(fitting, input);
}

#[test]
fn state_of_a_processor_lasts_from_block_to_block() {
    let mut graph = Graph::<Stereo>::new(2);
    let delay = graph.add_processor(Box::new(Delay { held: [0.5, 0.5] }));
    graph.set_input_amt(1);
    graph.set_output_amt(1);
    graph.connect_input(0, (delay, 0)).unwrap();
    graph.connect_output(0, (delay, 0)).unwrap();
    let first: BufferSet<Stereo> = vec![vec![[1.0, 1.0]], vec![[2.0, 2.0]]];
    let second: BufferSet<Stereo> = vec![vec![[3.0, 3.0]], vec![[4.0, 4.0]]];
    assert_eq!(run(&mut graph, &first, 1), vec![vec![[0.5, 0.5]], vec![[1.0, 1.0]]]);
    assert_eq!(run(&mut graph, &second, 1), vec![vec![[2.0, 2.0]], vec![[3.0, 3.0]]]);
}

#[test]
fn same_block_twice_gives_the_same_output() {
    let mut graph = Graph::<Stereo>::new(1);
    let n1 = graph.add_processor(Box::new(Doubler {}));
    let n2 = graph.add_processor(Box::new(Source { frame: [0.25, 0.75] }));
    let n3 = graph.add_processor(Box::new(Through {}));
    graph.add_connection(&(n1, 0), &(n3, 0)).unwrap();
    graph.add_connection(&(n2, 0), &(n3, 0)).unwrap();
    graph.set_input_amt(1);
    graph.set_output_amt(1);
    graph.connect_input(0, (n1, 0)).unwrap();
    graph.connect_output(0, (n3, 0)).unwrap();
    let input: BufferSet<Stereo> = vec![vec![[1.0, 2.0]]];
    let once = run(&mut graph, &input, 1);
    assert_eq!(once, vec![vec![[2.25, 4.75]]]);
    assert_eq!(run(&mut graph, &input, 1), once);
}

#[test]
fn output_block_of_another_shape_counts_as_silence() {
    let mut graph = Graph::<Stereo>::new(2);
    let vandal = graph.add_processor(Box::new(Vandal {}));
    let through = graph.add_processor(Box::new(Through {}));
    graph.add_connection(&(vandal, 0), &(through, 0)).unwrap();
    graph.set_input_amt(1);
    graph.set_output_amt(2);
    graph.connect_input(0, (vandal, 0)).unwrap();
    graph.connect_input(0, (through, 0)).unwrap();
    graph.connect_output(0, (vandal, 0)).unwrap();
    graph.connect_output(1, (through, 0)).unwrap();
    let input: BufferSet<Stereo> = vec![vec![[1.0, 2.0]], vec![[3.0, 4.0]]];
    assert_eq!(
        run(&mut graph, &input, 2),
        vec![vec![[0.0, 0.0], [1.0, 2.0]], vec![[0.0, 0.0], [3.0, 4.0]]]
    );
}

#[test]
fn graph_runs_inside_a_graph() {
    let mut inner = Graph::<Stereo>::new(2);
    let doubler = inner.add_processor(Box::new(Doubler {}));
    let through = inner.add_processor(Box::new(Through {}));
    inner.set_input_amt(2);
    inner.set_output_amt(1);
    inner.connect_input(0, (doubler, 0)).unwrap();
    inner.connect_input(1, (through, 0)).unwrap();
    inner.connect_output(0, (doubler, 0)).unwrap();
    inner.connect_output(0, (through, 0)).unwrap();
    assert_eq!(Processor::inputs_amt(&inner), 2);
    assert_eq!(Processor::outputs_amt(&inner), 1);

    let mut outer = Graph::<Stereo>::new(2);
    let split = outer.add_processor(Box::new(Splitter {}));
    let nested = outer.add_processor(Box::new(inner));
    outer.add_connection(&(split, 0), &(nested, 0)).unwrap();
    outer.add_connection(&(split, 1), &(nested, 1)).unwrap();
    assert!(outer.inport_exists((nested, 1)));
    assert!(!outer.inport_exists((nested, 2)));
    assert!(!outer.outport_exists((nested, 1)));
    outer.set_input_amt(1);
    outer.set_output_amt(1);
    outer.connect_input(0, (split, 0)).unwrap();
    outer.connect_output(0, (nested, 0)).unwrap();
    let input: BufferSet<Stereo> = vec![vec![[1.0, 2.0]], vec![[-3.0, 0.5]]];
    assert_eq!(run(&mut outer, &input, 1), vec![vec![[1.0, 2.0]], vec![[-3.0, 0.5]]]);
}

#[test]
fn graph_with_no_positions_does_nothing() {
    let mut graph = Graph::<Stereo>::new(0);
    let unit = graph.add_processor(Box::new(Through {}));
    graph.set_input_amt(1);
    graph.set_output_amt(1);
    graph.connect_input(0, (unit, 0)).unwrap();
    graph.connect_output(0, (unit, 0)).unwrap();
    let input: BufferSet<Stereo> = vec![];
    assert_eq!(run(&mut graph, &input, 1), Vec::<Vec<Stereo>>::new());
}

#[test]
fn test_node_leaves_its_buffers_alone() {
    let mut node = TestNode {};
    assert_eq!(Node::<Stereo>::inputs_amt(&node), 1);
    assert_eq!(Node::<Stereo>::outputs_amt(&node), 1);
    assert_eq!(Processor::<Stereo>::inputs_amt(&node), 1);
    assert_eq!(Processor::<Stereo>::outputs_amt(&node), 1);
    let mut inputs: Vec<Stereo> = vec![[1.0, 2.0]];
    let mut outputs: Vec<Stereo> = vec![[3.0, 4.0]];
    Node::process(&mut node, &mut inputs, &mut outputs);
    assert_eq!(inputs, vec![[1.0, 2.0]]);
    assert_eq!(outputs, vec![[3.0, 4.0]]);
    let block: BufferSet<Stereo> = vec![vec![[1.0, 2.0]]];
    let mut out: BufferSet<Stereo> = vec![vec![[3.0, 4.0]]];
    Processor::process(&mut node, &block, &mut out);
    assert_eq!(out, vec![vec![[3.0, 4.0]]]);
}

#[test]
fn test_node_in_a_graph_puts_out_silence() {
    let mut graph = Graph::<Stereo>::new(1);
    let unit = graph.add_processor(Box::new(TestNode {}));
    graph.set_input_amt(1);
    graph.set_output_amt(1);
    graph.connect_input(0, (unit, 0)).unwrap();
    graph.connect_output(0, (unit, 0)).unwrap();
    assert_eq!(run(&mut graph, &vec![vec![[1.0, 2.0]]], 1), vec![vec![[0.0, 0.0]]]);
}

#[test]
fn default_block_processing_stops_with_the_shorter_block() {
    let mut doubler = Doubler {};
    let inputs: BufferSet<Stereo> = vec![vec![[1.0, 1.0]], vec![[2.0, 2.0]], vec![[3.0, 3.0]]];
    let mut outputs: BufferSet<Stereo> = vec![vec![[0.0, 0.0]], vec![[0.0, 0.0]]];
    doubler.process(&inputs, &mut outputs);
    assert_eq!(outputs, vec![vec![[2.0, 2.0]], vec![[4.0, 4.0]]]);
}

/// Counts the blocks that it is handed and puts the count out.
struct Counter {
    blocks: Rc<Cell<usize>>,
}

impl Processor<Stereo> for Counter {
    fn process(&mut self, inputs: &BufferSet<Stereo>, outputs: &mut BufferSet<Stereo>) {
        self.blocks.set(self.blocks.get() + 1);
        let count = self.blocks.get() as f32;
        for s in 0..inputs.len() {
            outputs[s][0] = [inputs[s][0][0] + count, inputs[s][0][1] + count];
        }
    }
    fn inputs_amt(&self) -> usize {
        1
    }
    fn outputs_amt(&self) -> usize {
        1
    }
}

#[test]
fn every_processor_runs_once_for_each_block() {
    let mut graph = Graph::<Stereo>::new(1);
    let counts: Vec<Rc<Cell<usize>>> = (0..3).map(|_| Rc::new(Cell::new(0))).collect();
    let last = graph.add_processor(Box::new(Counter { blocks: counts[0].clone() }));
    let first = graph.add_processor(Box::new(Counter { blocks: counts[1].clone() }));
    let apart = graph.add_processor(Box::new(Counter { blocks: counts[2].clone() }));
    graph.add_connection(&(first, 0), &(last, 0)).unwrap();
    graph.set_input_amt(1);
    graph.set_output_amt(1);
    graph.connect_input(0, (first, 0)).unwrap();
    graph.connect_output(0, (last, 0)).unwrap();
    let input: BufferSet<Stereo> = vec![vec![[10.0, 20.0]]];
    assert_eq!(run(&mut graph, &input, 1), vec![vec![[12.0, 22.0]]]);
    assert_eq!((counts[0].get(), counts[1].get(), counts[2].get()), (1, 1, 1));
    assert_eq!(run(&mut graph, &input, 1), vec![vec![[14.0, 24.0]]]);
    assert_eq!((counts[0].get(), counts[1].get(), counts[2].get()), (2, 2, 2));
    assert_eq!(apart, 2);
}

#[test]
fn processors_are_those_that_were_handed_in() {
    let mut graph = Graph::<Stereo>::new(1);
    let one = graph.add_processor(Box::new(Source { frame: [1.0, 10.0] }));
    let two = graph.add_processor(Box::new(Source { frame: [2.0, 20.0] }));
    let three = graph.add_processor(Box::new(Source { frame: [3.0, 30.0] }));
    graph.set_output_amt(3);
    graph.connect_output(0, (three, 0)).unwrap();
    graph.connect_output(1, (one, 0)).unwrap();
    graph.connect_output(2, (two, 0)).unwrap();
    let input: BufferSet<Stereo> = vec![vec![]];
    assert_eq!(run(&mut graph, &input, 3), vec![vec![[3.0, 30.0], [1.0, 10.0], [2.0, 20.0]]]);
}

#[test]
fn unit_runs_its_processor_on_the_block() {
    let count = Rc::new(Cell::new(0));
    let processor: Box<dyn Processor<Stereo>> = Box::new(Counter { blocks: count.clone() });
    let mut unit = Unit::new(processor);
    let input: BufferSet<Stereo> = vec![vec![[1.0, 2.0]], vec![[3.0, 4.0]]];
    let mut output: BufferSet<Stereo> = vec![vec![[0.0, 0.0]], vec![[0.0, 0.0]]];
    unit.run(&input, &mut output);
    assert_eq!(output, vec![vec![[2.0, 3.0]], vec![[4.0, 5.0]]]);
    assert_eq!(count.get(), 1);
    unit.run(&input, &mut output);
    assert_eq!(output, vec![vec![[3.0, 4.0]], vec![[5.0, 6.0]]]);
    assert_eq!(count.get(), 2);
}

/// Clips its input at 0.5 and -0.5.
struct Clip {}

impl Processor<Stereo> for Clip {
    fn process(&mut self, inputs: &BufferSet<Stereo>, outputs: &mut BufferSet<Stereo>) {
        for channel in 0..2 {
            for sample in 0..inputs.len() {
                outputs[sample][0][channel] = inputs[sample][0][channel].min(0.5).max(-0.5);
            }
        }
    }
    fn inputs_amt(&self) -> usize {
        1
    }
    fn outputs_amt(&self) -> usize {
        1
    }
}

/// Puts out the sum of its two inputs.
struct Sum {}

impl Processor<Stereo> for Sum {
    fn process(&mut self, inputs: &BufferSet<Stereo>, outputs: &mut BufferSet<Stereo>) {
        for channel in 0..2 {
            for sample in 0..inputs.len() {
                outputs[sample][0][channel] =
                    inputs[sample][0][channel] + inputs[sample][1][channel];
            }
        }
    }
    fn inputs_amt(&self) -> usize {
        2
    }
    fn outputs_amt(&self) -> usize {
        1
    }
}

/// A delay on a ring whose index moves on with every sample of every channel.
struct Ring {
    ringbuffer: Vec<Vec<f32>>,
    index: usize,
}

impl Processor<Stereo> for Ring {
    fn process(&mut self, inputs: &BufferSet<Stereo>, outputs: &mut BufferSet<Stereo>) {
        for channel in 0..2 {
            for sample in 0..inputs.len() {
                outputs[sample][0][channel] = self.ringbuffer[self.index][channel];
                self.ringbuffer[self.index][channel] = inputs[sample][0][channel];
                self.index += 1;
                if self.index >= self.ringbuffer.len() {
                    self.index = 0;
                }
            }
        }
    }
    fn inputs_amt(&self) -> usize {
        1
    }
    fn outputs_amt(&self) -> usize {
        1
    }
}

#[test]
fn clipped_signal_and_its_echo_are_mixed() {
    let mut graph = Graph::<Stereo>::new(1);
    let mixer = graph.add_processor(Box::new(Sum {}));
    let distortion = graph.add_processor(Box::new(Clip {}));
    let delay =
        graph.add_processor(Box::new(Ring { ringbuffer: vec![vec![0.0; 2]; 10], index: 0 }));
    graph.add_connection(&(distortion, 0), &(mixer, 0)).unwrap();
    graph.add_connection(&(delay, 0), &(mixer, 1)).unwrap();
    graph.set_input_amt(1);
    graph.set_output_amt(1);
    graph.connect_input(0, (distortion, 0)).unwrap();
    graph.connect_input(0, (delay, 0)).unwrap();
    graph.connect_output(0, (mixer, 0)).unwrap();
    let input: BufferSet<Stereo> = vec![vec![[3.1, 3.1]]];
    let mut output: BufferSet<Stereo> = vec![vec![[0.0, 0.0]]];
    graph.process(&input, &mut output);
    assert_eq!(output[0][0][0], 0.5);
    for _ in 0..8 {
        graph.process(&input, &mut output);
    }
    assert_eq!(output[0][0][0], 0.5 + 3.1);
}

#[test]
fn frame_that_adding_to_silence_changes_is_not_passed_on_as_it_is() {
    let mut graph = Graph::<Stereo>::new(1);
    let first = graph.add_processor(Box::new(Through {}));
    let second = graph.add_processor(Box::new(Through {}));
    graph.add_connection(&(first, 0), &(second, 0)).unwrap();
    graph.set_input_amt(1);
    graph.set_output_amt(1);
    graph.connect_input(0, (first, 0)).unwrap();
    graph.connect_output(0, (second, 0)).unwrap();
    let input: BufferSet<Stereo> = vec![vec![[-0.0, 1.5]]];
    let output = run(&mut graph, &input, 1);
    assert_eq!(output[0][0][0].to_bits(), 0.0f32.to_bits());
    assert_ne!(output[0][0][0].to_bits(), input[0][0][0].to_bits());
    assert_eq!(output[0][0][1].to_bits(), 1.5f32.to_bits());
}

#[test]
fn graph_adds_as_the_sample_crate_adds() {
    let mut graph = Graph::<Stereo>::new(1);
    let one = graph.add_processor(Box::new(Source { frame: [0.25, -1.0] }));
    let two = graph.add_processor(Box::new(Source { frame: [0.5, 3.0] }));
    graph.set_output_amt(1);
    graph.connect_output(0, (one, 0)).unwrap();
    graph.connect_output(0, (two, 0)).unwrap();
    let input: BufferSet<Stereo> = vec![vec![]];
    let quiet = <Stereo as sample::Frame>::equilibrium();
    let expected =
        sample::Frame::add_amp(sample::Frame::add_amp(quiet, [0.25, -1.0]), [0.5, 3.0]);
    assert_eq!(run(&mut graph, &input, 1), vec![vec![expected]]);
    assert_eq!(expected, [0.75, 2.0]);
}
