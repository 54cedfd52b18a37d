//! The echo: a delay line of fixed length with feedback.

use crate::single::Single;
use vstd::arithmetic::div_mod::{
    lemma_add_mod_noop, lemma_fundamental_div_mod_converse, lemma_mod_bound, lemma_mod_twice,
    lemma_small_mod,
};
use vstd::prelude::*;

verus! {

/// A delay line in a ring buffer. Its view is the line itself: the samples that are
/// on their way, the next one to come out first.
#[derive(Debug)]
pub struct RingBufferDelay {
    buffer: Vec<Single>,
    write_idx: usize,
    feedback: Single,
}

impl View for RingBufferDelay {
    type V = Seq<Single>;

    closed spec fn view(&self) -> Seq<Single> {
        self.buffer@.skip(self.write_idx as int) + self.buffer@.take(self.write_idx as int)
    }
}

impl RingBufferDelay {
    /// The position lies in the ring, which is never empty, and the line is as long as the
    /// ring.
    pub open spec fn wf(&self) -> bool {
        0 <= self.position() < self.slots().len() && self@.len() == self.slots().len()
    }

    /// The share of a delayed sample that goes round again.
    pub closed spec fn spec_feedback(&self) -> Single {
        self.feedback
    }

    /// The samples as they lie in the ring.
    pub closed spec fn slots(&self) -> Seq<Single> {
        self.buffer@
    }

    /// The slot of the ring that is read, and then written, next.
    pub closed spec fn position(&self) -> int {
        self.write_idx as int
    }

    /// A silent delay line for `samples` samples, and for one at the least.
    pub fn new(samples: usize, feedback: Single) -> (r: RingBufferDelay)
        ensures
            r.wf(),
            r@ == Seq::new(
                (if samples == 0 {
                    1
                } else {
                    samples
                }) as nat,
                |i: int| Single::zero(),
            ),
            r.slots() == r@,
            r.position() == 0,
            r.spec_feedback() == feedback,
    {
        let len: usize = if samples == 0 {
            1
        } else {
            samples
        };
        let mut buffer: Vec<Single> = Vec::with_capacity(len);
        while buffer.len() < len
            invariant
                buffer.len() <= len,
                forall|i: int| 0 <= i < buffer.len() ==> buffer[i] == Single::zero(),
            decreases len - buffer.len(),
        {
            buffer.push(Single::zero());
        }
        RingBufferDelay { buffer, write_idx: 0, feedback }
    }

    /// The share of a delayed sample that goes round again.
    #[verifier::when_used_as_spec(spec_feedback)]
    pub fn feedback(&self) -> (r: Single)
        ensures
            r == self.spec_feedback(),
    {
        self.feedback
    }

    /// The sample that comes out of the line now.
    pub fn delayed(&self) -> (r: Single)
        requires
            self.wf(),
        ensures
            r == self@[0],
            r == self.slots()[self.position()],
            self@.len() > 0,
    {
        self.buffer[self.write_idx]
    }

    /// Moves the line on by one sample: the one that came out leaves, and `sample`
    /// goes in at the far end.
    pub fn store(&mut self, sample: Single)
        requires
            old(self).wf(),
        ensures
            final(self).wf(),
            final(self)@ == old(self)@.drop_first().push(sample),
            final(self)@.len() == old(self)@.len(),
            final(self).slots() == old(self).slots().update(old(self).position(), sample),
            final(self).position() == next_position(old(self).position(), old(self).slots().len()),
            final(self).spec_feedback() == old(self).spec_feedback(),
    {
        let len: usize = self.buffer.len();
        let idx: usize = self.write_idx;
        self.buffer[idx] = sample;
        self.write_idx = (idx + 1) % len;
        proof {
            if idx + 1 == len {
                lemma_fundamental_div_mod_converse(len as int, len as int, 1, 0);
            } else {
                lemma_small_mod((idx + 1) as nat, len as nat);
            }
        }
        assert(self@ =~= old(self)@.drop_first().push(sample));
    }
}

/// The position after `position` in a ring of `len` slots.
pub open spec fn next_position(position: int, len: nat) -> int {
    (position + 1) % (len as int)
}

/// The slots of the ring and the position in it after each of `samples` in turn has been
/// stored.
pub open spec fn ring_after(slots: Seq<Single>, position: int, samples: Seq<Single>) -> (
    Seq<Single>,
    int,
)
    decreases samples.len(),
{
    if samples.len() == 0 {
        (slots, position)
    } else {
        let (earlier, at) = ring_after(slots, position, samples.drop_last());
        (earlier.update(at, samples.last()), next_position(at, slots.len()))
    }
}

proof fn lemma_ring_after(slots: Seq<Single>, position: int, samples: Seq<Single>)
    requires
        0 <= position < slots.len(),
        samples.len() <= slots.len(),
    ensures
        ({
            let n = slots.len() as int;
            let (after, at) = ring_after(slots, position, samples);
            &&& after.len() == n
            &&& at == (position + samples.len()) % n
            &&& forall|k: int|
                0 <= k < n ==> #[trigger] after[(position + k) % n] == if k < samples.len() {
                    samples[k]
                } else {
                    slots[(position + k) % n]
                }
        }),
    decreases samples.len(),
{
    let n = slots.len() as int;
    if samples.len() == 0 {
        lemma_small_mod(position as nat, n as nat);
    } else {
        let front = samples.drop_last();
        lemma_ring_after(slots, position, front);
        let (earlier, at) = ring_after(slots, position, front);
        let (after, _) = ring_after(slots, position, samples);
        let last = samples.len() - 1;
        lemma_mod_bound(position + last, n);
        lemma_add_mod_noop(position + last, 1, n);
        lemma_add_mod_noop((position + last) % n, 1, n);
        lemma_mod_twice(position + last, n);
        assert forall|k: int| 0 <= k < n implies #[trigger] after[(position + k) % n] == (if k
            < samples.len() {
            samples[k]
        } else {
            slots[(position + k) % n]
        }) by {
            lemma_mod_bound(position + k, n);
            lemma_place(position, k, n);
            lemma_place(position, last, n);
            assert(earlier[(position + k) % n] == if k < front.len() {
                front[k]
            } else {
                slots[(position + k) % n]
            });
        }
    }
}

/// Less than a round further on, the position is that many slots further, or a round less.
proof fn lemma_place(position: int, k: int, n: int)
    requires
        0 <= position < n,
        0 <= k < n,
    ensures
        (position + k) % n == if position + k < n {
            position + k
        } else {
            position + k - n
        },
{
    if position + k < n {
        lemma_fundamental_div_mod_converse(position + k, n, 0, position + k);
    } else {
        lemma_fundamental_div_mod_converse(position + k, n, 1, position + k - n);
    }
}

/// As many stores as the ring has slots go once round it: the position is back where it
/// was, and each slot, from there on, has been written once. What comes out before a store
/// is what the slot held at the start of the round.
pub proof fn law_round_rewrites_every_slot(
    slots: Seq<Single>,
    position: int,
    samples: Seq<Single>,
    k: int,
)
    requires
        0 <= position < slots.len(),
        samples.len() == slots.len(),
        0 <= k < slots.len(),
    ensures
        ({
            let n = slots.len() as int;
            let (after, at) = ring_after(slots, position, samples);
            let (before, slot) = ring_after(slots, position, samples.take(k));
            &&& at == position
            &&& after.len() == n
            &&& after[(position + k) % n] == samples[k]
            &&& slot == (position + k) % n
            &&& before[slot] == slots[(position + k) % n]
        }),
{
    let n = slots.len() as int;
    lemma_ring_after(slots, position, samples);
    lemma_ring_after(slots, position, samples.take(k));
    lemma_fundamental_div_mod_converse(position + n, n, 1, position);
}

/// The line after each of `samples` in turn has been stored.
pub open spec fn after_stores(line: Seq<Single>, samples: Seq<Single>) -> Seq<Single>
    decreases samples.len(),
{
    if samples.len() == 0 {
        line
    } else {
        after_stores(line, samples.drop_last()).drop_first().push(samples.last())
    }
}

/// The line is a queue of fixed length: it always holds the last samples that went
/// in, in the order in which they did.
pub proof fn law_line_holds_latest(line: Seq<Single>, samples: Seq<Single>)
    requires
        line.len() > 0,
    ensures
        after_stores(line, samples) == (line + samples).skip(samples.len() as int),
    decreases samples.len(),
{
    if samples.len() == 0 {
        assert((line + samples).skip(0) =~= line);
    } else {
        law_line_holds_latest(line, samples.drop_last());
        assert((line + samples.drop_last()).skip(samples.len() - 1).drop_first().push(
            samples.last(),
        ) =~= (line + samples).skip(samples.len() as int));
    }
}

/// A sample comes out exactly as many stores after its own as the line is long.
pub proof fn law_echo_after_line_length(line: Seq<Single>, samples: Seq<Single>, i: int)
    requires
        0 <= i < samples.len(),
        samples.len() == i + line.len(),
    ensures
        after_stores(line, samples)[0] == samples[i],
        after_stores(line, samples).len() == line.len(),
{
    law_line_holds_latest(line, samples);
}

/// Every sample is a number no further from zero than `bound`, in the units of
/// [`crate::single::units`].
pub open spec fn bounded(samples: Seq<Single>, bound: int) -> bool {
    forall|i: int|
        0 <= i < samples.len() ==> !(#[trigger] samples[i]).is_nan() && -bound <= samples[i].value()
            <= bound
}

/// The echo stays bounded: a bound on every sample of the line is a bound on the one that
/// comes out, and survives storing samples within it, however many.
pub proof fn law_line_stays_bounded(line: Seq<Single>, samples: Seq<Single>, bound: int)
    requires
        line.len() > 0,
        bounded(line, bound),
        bounded(samples, bound),
    ensures
        bounded(after_stores(line, samples), bound),
        -bound <= after_stores(line, samples)[0].value() <= bound,
{
    law_line_holds_latest(line, samples);
    let all = line + samples;
    let after = after_stores(line, samples);
    assert forall|i: int| 0 <= i < after.len() implies !(#[trigger] after[i]).is_nan() && -bound
        <= after[i].value() <= bound by {
        let j = i + samples.len();
        assert(after[i] == all[j]);
        if j < line.len() {
            assert(all[j] == line[j]);
        } else {
            assert(all[j] == samples[j - line.len()]);
        }
    }
    assert(!after[0].is_nan());
}

/// A bound on every sample of the line survives one store of a sample within it.
pub proof fn law_store_keeps_bound(line: Seq<Single>, sample: Single, bound: int)
    requires
        line.len() > 0,
        bounded(line, bound),
        !sample.is_nan(),
        -bound <= sample.value() <= bound,
    ensures
        bounded(line.drop_first().push(sample), bound),
{
    let after = line.drop_first().push(sample);
    assert forall|i: int| 0 <= i < after.len() implies !(#[trigger] after[i]).is_nan() && -bound
        <= after[i].value() <= bound by {
        if i < line.len() - 1 {
            assert(after[i] == line[i + 1]);
        }
    }
}

} // verus!
