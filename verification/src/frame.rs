//! Frames and blocks of frames.
//!
//! A frame holds one sample per channel. Its arithmetic is that of the
//! `sample` crate: the engine only asks for the frame at equilibrium and for
//! the sum of two frames, and the two functions that make these calls are the
//! only code of the library that is taken on trust. Frames are limited to
//! floating-point sample formats, whose sums cannot overflow.
//!
//! Nothing is known here of what a sum is, only that it is what the call
//! returned. A [`Kit`] holds the two calls, and its relations
//! [`Kit::is_silence`] and [`Kit::is_sum`] name what they return, so that
//! contracts can say which frames were added to which.

use sample::FloatSample;
use sample::Frame;
use vstd::prelude::*;

verus! {

/// One frame for each port of a processor, at one position of a block.
pub type FrameSet<F> = Vec<F>;

/// A block: one frame set for each position.
pub type BufferSet<F> = Vec<FrameSet<F>>;

/// Calls `sample::Frame::equilibrium`, which builds the frame whose channels
/// all hold the equilibrium of the sample format. Nothing is claimed of the
/// result.
#[verifier::external_body]
fn equilibrium<F>() -> (frame: F) where F: Frame, F::Sample: FloatSample {
    F::equilibrium()
}

/// Calls `sample::Frame::add_amp` on `a` with `b` in its signed form
/// (`sample::Frame::to_signed_frame`), which adds the two frames channel by
/// channel. With a floating-point sample format neither call can fail.
/// Nothing is claimed of the result.
#[verifier::external_body]
fn add_amp<F>(a: F, b: F) -> (sum: F) where F: Frame, F::Sample: FloatSample {
    a.add_amp(b.to_signed_frame())
}

/// An arithmetic of frames: the frame at equilibrium and the sum of two
/// frames, each with the relation that names what it returns.
trait Arithmetic<F> {
    spec fn is_silence(&self, frame: F) -> bool;

    spec fn is_sum(&self, a: F, b: F, sum: F) -> bool;

    fn silence(&self) -> (frame: F)
        ensures
            self.is_silence(frame),
    ;

    fn mix(&self, a: F, b: F) -> (sum: F)
        ensures
            self.is_sum(a, b, sum),
    ;
}

/// An arithmetic made of two functions that can be called on all frames.
#[verifier::reject_recursive_types(F)]
struct Calls<F, S: Fn() -> F, M: Fn(F, F) -> F> {
    silence: S,
    mix: M,
    frames: core::marker::PhantomData<F>,
}

impl<F, S: Fn() -> F, M: Fn(F, F) -> F> Calls<F, S, M> {
    #[verifier::type_invariant]
    spec fn total(&self) -> bool {
        &&& call_requires(self.silence, ())
        &&& forall|a: F, b: F| call_requires(self.mix, (a, b))
    }
}

impl<F, S: Fn() -> F, M: Fn(F, F) -> F> Arithmetic<F> for Calls<F, S, M> {
    closed spec fn is_silence(&self, frame: F) -> bool {
        call_ensures(self.silence, (), frame)
    }

    closed spec fn is_sum(&self, a: F, b: F, sum: F) -> bool {
        call_ensures(self.mix, (a, b), sum)
    }

    fn silence(&self) -> (frame: F) {
        proof {
            use_type_invariant(self);
        }
        (self.silence)()
    }

    fn mix(&self, a: F, b: F) -> (sum: F) {
        proof {
            use_type_invariant(self);
        }
        (self.mix)(a, b)
    }
}

/// The arithmetic of the frames of a graph: how a frame at equilibrium is
/// made, and how two frames are added.
#[verifier::reject_recursive_types(F)]
pub struct Kit<F> {
    arithmetic: Box<dyn Arithmetic<F>>,
}

impl<F> Kit<F> {
    /// `frame` is a frame that this arithmetic returns as the frame at
    /// equilibrium.
    pub closed spec fn is_silence(&self, frame: F) -> bool {
        self.arithmetic.is_silence(frame)
    }

    /// `sum` is a frame that this arithmetic returns as the sum of `a` and
    /// `b`.
    pub closed spec fn is_sum(&self, a: F, b: F, sum: F) -> bool {
        self.arithmetic.is_sum(a, b, sum)
    }

    /// `total` is what is left after the frames of `parts` have been added to
    /// `start` one after the other, first to last.
    pub open spec fn is_mix(&self, start: F, parts: Seq<F>, total: F) -> bool
        decreases parts.len(),
    {
        if parts.len() == 0 {
            total == start
        } else {
            exists|before: F|
                self.is_mix(start, parts.drop_last(), before) && #[trigger] self.is_sum(
                    before,
                    parts.last(),
                    total,
                )
        }
    }

    /// `block` holds `len` frame sets of `width` frames each, all of them at
    /// equilibrium.
    pub open spec fn is_silent_block(&self, block: Seq<Vec<F>>, len: nat, width: nat) -> bool {
        &&& is_block(block, len, width)
        &&& forall|s: int, p: int|
            0 <= s < len && 0 <= p < width ==> self.is_silence(#[trigger] block[s]@[p])
    }

    /// Adding one more frame extends a mix.
    pub proof fn lemma_mix_push(&self, start: F, parts: Seq<F>, before: F, part: F, total: F)
        requires
            self.is_mix(start, parts, before),
            self.is_sum(before, part, total),
        ensures
            self.is_mix(start, parts.push(part), total),
    {
        assert(parts.push(part).drop_last() =~= parts);
        assert(parts.push(part).last() == part);
    }

    /// A mix of a mix is the mix of the two lists of frames, one after the
    /// other.
    pub proof fn lemma_mix_concat(
        &self,
        start: F,
        first: Seq<F>,
        middle: F,
        second: Seq<F>,
        total: F,
    )
        requires
            self.is_mix(start, first, middle),
            self.is_mix(middle, second, total),
        ensures
            self.is_mix(start, first + second, total),
        decreases second.len(),
    {
        if second.len() != 0 {
            let before = choose|before: F|
                self.is_mix(middle, second.drop_last(), before) && #[trigger] self.is_sum(
                    before,
                    second.last(),
                    total,
                );
            self.lemma_mix_concat(start, first, middle, second.drop_last(), before);
            assert((first + second).drop_last() =~= first + second.drop_last());
            assert((first + second).last() == second.last());
        }
    }

    /// The frame at equilibrium.
    pub fn silence(&self) -> (frame: F)
        ensures
            self.is_silence(frame),
    {
        self.arithmetic.silence()
    }

    /// The channel-wise sum of two frames.
    pub fn mix(&self, a: F, b: F) -> (sum: F)
        ensures
            self.is_sum(a, b, sum),
    {
        self.arithmetic.mix(a, b)
    }
}

impl<F> Kit<F> where F: Frame + 'static, F::Sample: FloatSample {
    /// The arithmetic of the `sample` crate: the frame at equilibrium is that
    /// of `sample::Frame::equilibrium`, and the sum of two frames is that of
    /// `sample::Frame::add_amp`.
    pub fn new() -> (kit: Self)
        ensures
            forall|frame: F| #[trigger] kit.is_silence(frame) <==> is_equilibrium(frame),
            forall|a: F, b: F, sum: F| #[trigger]
                kit.is_sum(a, b, sum) <==> is_amp_sum(a, b, sum),
    {
        let calls = Calls {
            silence: equilibrium::<F>,
            mix: add_amp::<F>,
            frames: core::marker::PhantomData,
        };
        proof {
            calls.lemma_relations();
        }
        Kit { arithmetic: Box::new(calls) }
    }
}

impl<F> Kit<F> where F: Frame, F::Sample: FloatSample {
    /// This arithmetic is that of the `sample` crate: its frames at
    /// equilibrium are those that `sample::Frame::equilibrium` returns, and
    /// its sums are those that `sample::Frame::add_amp` returns.
    pub open spec fn is_sample(&self) -> bool {
        &&& forall|frame: F| #[trigger] self.is_silence(frame) <==> is_equilibrium(frame)
        &&& forall|a: F, b: F, sum: F| #[trigger]
            self.is_sum(a, b, sum) <==> is_amp_sum(a, b, sum)
    }

    /// With the arithmetic of the `sample` crate, a mix is a chain of
    /// `sample::Frame::add_amp`.
    pub proof fn lemma_sample_mix(&self, start: F, parts: Seq<F>, total: F)
        requires
            self.is_sample(),
        ensures
            self.is_mix(start, parts, total) <==> is_amp_mix(start, parts, total),
        decreases parts.len(),
    {
        if parts.len() != 0 {
            assert forall|before: F|
                self.is_mix(start, parts.drop_last(), before) <==> #[trigger] is_amp_mix(
                    start,
                    parts.drop_last(),
                    before,
                ) by {
                self.lemma_sample_mix(start, parts.drop_last(), before);
            }
            if self.is_mix(start, parts, total) {
                let before = choose|before: F|
                    self.is_mix(start, parts.drop_last(), before) && #[trigger] self.is_sum(
                        before,
                        parts.last(),
                        total,
                    );
                assert(is_amp_mix(start, parts.drop_last(), before));
                assert(is_amp_sum(before, parts.last(), total));
            }
            if is_amp_mix(start, parts, total) {
                let before = choose|before: F|
                    is_amp_mix(start, parts.drop_last(), before) && #[trigger] is_amp_sum(
                        before,
                        parts.last(),
                        total,
                    );
                assert(self.is_mix(start, parts.drop_last(), before));
                assert(self.is_sum(before, parts.last(), total));
            }
        }
    }
}

/// `total` is what is left after the frames of `parts` have been added to
/// `start` one after the other, first to last, each by
/// `sample::Frame::add_amp`.
pub open spec fn is_amp_mix<F>(start: F, parts: Seq<F>, total: F) -> bool where
    F: Frame,
    F::Sample: FloatSample,

    decreases parts.len(),
{
    if parts.len() == 0 {
        total == start
    } else {
        exists|before: F|
            is_amp_mix(start, parts.drop_last(), before) && #[trigger] is_amp_sum(
                before,
                parts.last(),
                total,
            )
    }
}

/// Adding `frame` to a frame at equilibrium gives `frame`, whatever
/// `sample::Frame::equilibrium` and `sample::Frame::add_amp` return.
pub open spec fn is_kept<F>(frame: F) -> bool where F: Frame, F::Sample: FloatSample {
    forall|quiet: F, sum: F|
        is_equilibrium(quiet) && #[trigger] is_amp_sum(quiet, frame, sum) ==> sum == frame
}

/// `frame` is a frame that `sample::Frame::equilibrium` returns.
pub closed spec fn is_equilibrium<F>(frame: F) -> bool where F: Frame, F::Sample: FloatSample {
    call_ensures(equilibrium::<F>, (), frame)
}

/// `sum` is a frame that `sample::Frame::add_amp` returns for `a` and the
/// signed form of `b`.
pub closed spec fn is_amp_sum<F>(a: F, b: F, sum: F) -> bool where
    F: Frame,
    F::Sample: FloatSample,
{
    call_ensures(add_amp::<F>, (a, b), sum)
}

impl<F, S: Fn() -> F, M: Fn(F, F) -> F> Calls<F, S, M> {
    /// The relations of this arithmetic are those of its two functions.
    proof fn lemma_relations(&self)
        ensures
            forall|frame: F| #[trigger]
                self.is_silence(frame) <==> call_ensures(self.silence, (), frame),
            forall|a: F, b: F, sum: F| #[trigger]
                self.is_sum(a, b, sum) <==> call_ensures(self.mix, (a, b), sum),
    {
    }
}

/// `block` holds `len` frame sets of `width` frames each.
pub open spec fn is_block<F>(block: Seq<Vec<F>>, len: nat, width: nat) -> bool {
    &&& block.len() == len
    &&& forall|s: int| 0 <= s < block.len() ==> (#[trigger] block[s])@.len() == width
}

/// A block of `outer_size` frame sets of `inner_size` frames, all at
/// equilibrium.
pub fn empty_buffer<F: Copy>(kit: &Kit<F>, inner_size: usize, outer_size: usize) -> (block:
    BufferSet<F>)
    ensures
        kit.is_silent_block(block@, outer_size as nat, inner_size as nat),
{
    let quiet = kit.silence();
    let mut block: BufferSet<F> = Vec::new();
    let mut s: usize = 0;
    while s < outer_size
        invariant
            s <= outer_size,
            kit.is_silence(quiet),
            is_block(block@, s as nat, inner_size as nat),
            forall|i: int, p: int|
                0 <= i < s && 0 <= p < inner_size ==> #[trigger] block@[i]@[p] == quiet,
        decreases outer_size - s,
    {
        let mut set: FrameSet<F> = Vec::new();
        let mut p: usize = 0;
        while p < inner_size
            invariant
                p <= inner_size,
                set@.len() == p,
                forall|i: int| 0 <= i < p ==> #[trigger] set@[i] == quiet,
            decreases inner_size - p,
        {
            set.push(quiet);
            p += 1;
        }
        block.push(set);
        s += 1;
    }
    block
}

/// Tells whether `block` holds `len` frame sets of `width` frames each.
pub fn has_shape<F>(block: &BufferSet<F>, len: usize, width: usize) -> (fits: bool)
    ensures
        fits == is_block(block@, len as nat, width as nat),
{
    if block.len() != len {
        return false;
    }
    let mut s: usize = 0;
    while s < len
        invariant
            s <= len,
            block@.len() == len,
            forall|i: int| 0 <= i < s ==> (#[trigger] block@[i])@.len() == width,
        decreases len - s,
    {
        if block[s].len() != width {
            return false;
        }
        s += 1;
    }
    true
}

} // verus!
