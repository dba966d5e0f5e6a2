//! The contract between the engine and the processors that it runs.

use crate::frame::BufferSet;
use crate::frame::FrameSet;
use vstd::prelude::*;

verus! {

/// A signal processor with a fixed number of input and output ports.
///
/// An implementation overrides either [`Processor::process`], to work on
/// whole blocks, or [`Processor::frame_process`], to work on one position of
/// the block at a time. One that overrides neither leaves its outputs as the
/// engine prepared them.
pub trait Processor<F> {
    /// Reads a block from `inputs` and writes a block to `outputs`. Both hold
    /// one frame set for each position of the block; a frame set holds one
    /// frame for each input port, or for each output port.
    ///
    /// Unless overridden, hands the frame sets of each position to
    /// [`Processor::frame_process`], position by position, as far as both
    /// blocks reach.
    fn process(&mut self, inputs: &BufferSet<F>, outputs: &mut BufferSet<F>)
        ensures
            old(self).puts_out(inputs@, old(outputs)@, final(outputs)@) || ({
                &&& final(outputs)@.len() == old(outputs)@.len()
                &&& forall|i: int|
                    reach(inputs@, old(outputs)@) <= i < old(outputs)@.len()
                        ==> #[trigger] final(outputs)@[i] == old(outputs)@[i]
                &&& exists|states: Seq<&mut Self>, sets: Seq<&mut FrameSet<F>>|
                    {
                        &&& #[trigger] states.len() == reach(inputs@, old(outputs)@)
                        &&& #[trigger] sets.len() == reach(inputs@, old(outputs)@)
                        &&& states.len() > 0 ==> &*states[0] == &*old(self)
                        &&& forall|i: int|
                            0 <= i < states.len() - 1 ==> &*final(#[trigger] states[i])
                                == &*states[i + 1]
                        &&& &*final(self) == if states.len() > 0 {
                            &*final(states[states.len() - 1])
                        } else {
                            &*old(self)
                        }
                        &&& forall|i: int|
                            0 <= i < reach(inputs@, old(outputs)@) ==> {
                                &&& *(#[trigger] sets[i]) == old(outputs)@[i]
                                &&& *final(sets[i]) == final(outputs)@[i]
                                &&& call_ensures(
                                    Self::frame_process,
                                    (states[i], &inputs@[i], sets[i]),
                                    (),
                                )
                            }
                    }
            }),
        default_ensures
            final(outputs)@.len() == old(outputs)@.len(),
            forall|i: int|
                reach(inputs@, old(outputs)@) <= i < old(outputs)@.len()
                    ==> #[trigger] final(outputs)@[i] == old(outputs)@[i],
            exists|states: Seq<&mut Self>, sets: Seq<&mut FrameSet<F>>|
                {
                    &&& #[trigger] states.len() == reach(inputs@, old(outputs)@)
                    &&& #[trigger] sets.len() == reach(inputs@, old(outputs)@)
                    &&& states.len() > 0 ==> &*states[0] == &*old(self)
                    &&& forall|i: int|
                        0 <= i < states.len() - 1 ==> &*final(#[trigger] states[i])
                            == &*states[i + 1]
                    &&& &*final(self) == if states.len() > 0 {
                        &*final(states[states.len() - 1])
                    } else {
                        &*old(self)
                    }
                    &&& forall|i: int|
                        0 <= i < reach(inputs@, old(outputs)@) ==> {
                            &&& *(#[trigger] sets[i]) == old(outputs)@[i]
                            &&& *final(sets[i]) == final(outputs)@[i]
                            &&& call_ensures(
                                Self::frame_process,
                                (states[i], &inputs@[i], sets[i]),
                                (),
                            )
                        }
                },
    {
        let mut i: usize = 0;
        assert(Seq::<&mut Self>::empty().len() == 0);
        assert(Seq::<&mut FrameSet<F>>::empty().len() == 0);
        while i < inputs.len() && i < outputs.len()
            invariant
                i <= reach(inputs@, old(outputs)@),
                outputs@.len() == old(outputs)@.len(),
                forall|j: int| i <= j < outputs@.len() ==> #[trigger] outputs@[j] == old(outputs)@[j],
                exists|states: Seq<&mut Self>, sets: Seq<&mut FrameSet<F>>|
                    {
                        &&& #[trigger] states.len() == i
                        &&& #[trigger] sets.len() == i
                        &&& states.len() > 0 ==> &*states[0] == &*old(self)
                        &&& forall|j: int|
                            0 <= j < states.len() - 1 ==> &*final(#[trigger] states[j])
                                == &*states[j + 1]
                        &&& &*self == if states.len() > 0 {
                            &*final(states[states.len() - 1])
                        } else {
                            &*old(self)
                        }
                        &&& forall|j: int|
                            0 <= j < i ==> {
                                &&& *(#[trigger] sets[j]) == old(outputs)@[j]
                                &&& *final(sets[j]) == outputs@[j]
                                &&& call_ensures(
                                    Self::frame_process,
                                    (states[j], &inputs@[j], sets[j]),
                                    (),
                                )
                            }
                    },
            decreases inputs@.len() - i,
        {
            let ghost before = outputs@;
            let ghost earlier = &*self;
            self.frame_process(&inputs[i], &mut outputs[i]);
            proof {
                let (states, sets) = choose|states: Seq<&mut Self>, sets: Seq<&mut FrameSet<F>>|
                    {
                        &&& #[trigger] states.len() == i
                        &&& #[trigger] sets.len() == i
                        &&& states.len() > 0 ==> &*states[0] == &*old(self)
                        &&& forall|j: int|
                            0 <= j < states.len() - 1 ==> &*final(#[trigger] states[j])
                                == &*states[j + 1]
                        &&& earlier == if states.len() > 0 {
                            &*final(states[states.len() - 1])
                        } else {
                            &*old(self)
                        }
                        &&& forall|j: int|
                            0 <= j < i ==> {
                                &&& *(#[trigger] sets[j]) == old(outputs)@[j]
                                &&& *final(sets[j]) == before[j]
                                &&& call_ensures(
                                    Self::frame_process,
                                    (states[j], &inputs@[j], sets[j]),
                                    (),
                                )
                            }
                    };
                let (state, set) = choose|state: &mut Self, set: &mut FrameSet<F>|
                    &*state == earlier && &*final(state) == &*self && *set == before[i as int]
                        && *final(set) == outputs@[i as int] && #[trigger] call_ensures(
                        Self::frame_process,
                        (state, &inputs@[i as int], set),
                        (),
                    );
                let longer = states.push(state);
                let more = sets.push(set);
                assert(longer.len() == i + 1 && more.len() == i + 1);
                assert forall|j: int|
                    0 <= j < longer.len() - 1 implies &*final(#[trigger] longer[j])
                    == &*longer[j + 1] by {}
                assert forall|j: int| 0 <= j < i + 1 implies {
                    &&& *(#[trigger] more[j]) == old(outputs)@[j]
                    &&& *final(more[j]) == outputs@[j]
                    &&& call_ensures(Self::frame_process, (longer[j], &inputs@[j], more[j]), ())
                } by {}
            }
            i += 1;
        }
    }

    /// Reads the frames of one position of the block from `inputs`, one for
    /// each input port, and writes those of the output ports to `outputs`.
    ///
    /// Unless overridden, does nothing.
    fn frame_process(&mut self, inputs: &FrameSet<F>, outputs: &mut FrameSet<F>)
        default_ensures
            *final(outputs) == *old(outputs),
    {
    }

    /// The number of input ports.
    fn inputs_amt(&self) -> (amt: usize)
        ensures
            self.has_inputs(amt),
    ;

    /// The number of output ports.
    fn outputs_amt(&self) -> (amt: usize)
        ensures
            self.has_outputs(amt),
    ;

    /// `after` is a block that the processor, as it is, may make of the block
    /// `before` when it is handed the block `inputs`. A verified
    /// implementation that overrides [`Processor::process`] says here what it
    /// writes; of any other implementation nothing is known.
    open spec fn puts_out(
        &self,
        inputs: Seq<FrameSet<F>>,
        before: Seq<FrameSet<F>>,
        after: Seq<FrameSet<F>>,
    ) -> bool {
        true
    }

    /// `amt` is a number of input ports that the processor may report. A
    /// verified implementation says here which number it reports; of any
    /// other implementation nothing is known.
    open spec fn has_inputs(&self, amt: usize) -> bool {
        true
    }

    /// `amt` is a number of output ports that the processor may report. A
    /// verified implementation says here which number it reports; of any
    /// other implementation nothing is known.
    open spec fn has_outputs(&self, amt: usize) -> bool {
        true
    }
}

/// The number of positions that both blocks have: as far as the block
/// processing of a processor reaches that does not override it.
pub open spec fn reach<F>(inputs: Seq<FrameSet<F>>, outputs: Seq<FrameSet<F>>) -> nat {
    if inputs.len() < outputs.len() {
        inputs.len()
    } else {
        outputs.len()
    }
}

} // verus!
