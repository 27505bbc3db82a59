//! A ring of training samples: new ones take the place of the oldest.
use vstd::prelude::*;
use crate::pcg32::{
    after, law_rounding_is_to_the_nearest, law_unit_is_the_part_of_the_draw, output, round_single, round_to_single, seeded,
    spacing, unit_numerator, Pcg32,
};
use crate::scalar::Scalar;

verus! {

/// Number of samples that are kept.
pub const RING_CAPACITY: usize = 131072;

/// One training sample: features, and the radiance to learn.
#[derive(Clone, Copy, Debug)]
pub struct Sample {
    pub input: [Scalar; 9],
    pub target: [Scalar; 3],
}

/// A ring of training samples.
pub struct NircRingBuffer {
    data: Vec<Sample>,
    /// Number of samples ever pushed.
    write_idx: usize,
    pushed: Ghost<Seq<Sample>>,
}

/// Number of samples that a ring holds after some were pushed.
pub open spec fn held(pushes: int) -> int {
    if pushes < RING_CAPACITY {
        pushes
    } else {
        RING_CAPACITY as int
    }
}

/// Which of the pushed samples is in a slot: the last one whose turn it was.
pub open spec fn latest(pushes: int, slot: int) -> int {
    let last = pushes - 1;
    last - (last - slot) % RING_CAPACITY as int
}

/// The slot that a draw picks among the held ones.
pub open spec fn picked(draw: u32, held: int) -> int {
    let slot = round_to_single((unit_numerator(draw) * held) as nat) / 0x1_0000_0000;
    if slot < held {
        slot as int
    } else {
        held - 1
    }
}

impl NircRingBuffer {
    /// All samples ever pushed, in order.
    pub closed spec fn pushed(self) -> Seq<Sample> {
        self.pushed@
    }

    /// Whether every held sample is in the slot whose turn it was.
    pub closed spec fn is_sound(self) -> bool {
        &&& self.data.len() == RING_CAPACITY
        &&& self.write_idx == self.pushed@.len()
        &&& forall|j: int|
            0 <= j < self.pushed@.len() && self.pushed@.len() - RING_CAPACITY <= j ==> self.data@[j
                % RING_CAPACITY as int] == #[trigger] self.pushed@[j]
    }

    /// A ring without samples.
    pub fn new() -> (r: NircRingBuffer)
        ensures
            r.is_sound(),
            r.pushed() == Seq::<Sample>::empty(),
    {
        let zero = Sample { input: [Scalar::zero();9], target: [Scalar::zero();3] };
        let mut data: Vec<Sample> = Vec::new();
        let mut i: usize = 0;
        while i < RING_CAPACITY
            invariant
                i <= RING_CAPACITY,
                data.len() == i,
            decreases RING_CAPACITY - i,
        {
            data.push(zero);
            i = i + 1;
        }
        NircRingBuffer { data, write_idx: 0, pushed: Ghost(Seq::empty()) }
    }

    /// Adds a sample.
    pub fn push(&mut self, sample: Sample)
        requires
            old(self).is_sound(),
            old(self).pushed().len() < usize::MAX,
        ensures
            final(self).is_sound(),
            final(self).pushed() == old(self).pushed().push(sample),
    {
        let slot: usize = self.write_idx % RING_CAPACITY;
        self.data[slot] = sample;
        self.write_idx = self.write_idx + 1;
        proof {
            let before = self.pushed@;
            let n = before.len() as int;
            let all = before.push(sample);
            self.pushed@ = all;
            assert forall|j: int| 0 <= j < all.len() && all.len() - RING_CAPACITY <= j implies self.data@[j
                % RING_CAPACITY as int] == #[trigger] all[j] by {
                if j < n {
                    assert(all[j] == before[j]);
                    assert(j % RING_CAPACITY as int != n % RING_CAPACITY as int);
                }
            }
        }
    }

    /// Number of slots that have been written (capped at `RING_CAPACITY`).
    pub fn filled(&self) -> (r: usize)
        requires
            self.is_sound(),
        ensures
            r == held(self.pushed().len() as int),
    {
        if self.write_idx < RING_CAPACITY {
            self.write_idx
        } else {
            RING_CAPACITY
        }
    }

    /// Reads `count` random samples, or as many as are held. The choice is
    /// seeded from the number of pushes.
    pub fn read_random_batch(&self, count: usize) -> (r: Vec<Sample>)
        requires
            self.is_sound(),
        ensures
            r.len() == (if count < held(self.pushed().len() as int) {
                count as int
            } else {
                held(self.pushed().len() as int)
            }),
            forall|i: int|
                0 <= i < r.len() ==> #[trigger] r[i] == self.pushed()[latest(
                    self.pushed().len() as int,
                    picked(
                        output(after(seeded(self.pushed().len() as u64, 1), i as nat).state),
                        held(self.pushed().len() as int),
                    ),
                )],
            forall|i: int| 0 <= i < r.len() ==> self.pushed().contains(#[trigger] r[i]),
    {
        let filled: usize = self.filled();
        let mut batch: Vec<Sample> = Vec::new();
        if filled == 0 {
            return batch;
        }
        let ghost pushes = self.pushed().len() as int;
        let ghost start = seeded(self.pushed().len() as u64, 1);
        let mut rng = Pcg32::from_seed(self.write_idx as u64, 1);
        let n: usize = if count < filled { count } else { filled };
        let mut i: usize = 0;
        while i < n
            invariant
                i <= n <= filled,
                self.is_sound(),
                0 < filled,
                filled == held(pushes),
                pushes == self.pushed().len(),
                start == seeded(self.pushed().len() as u64, 1),
                rng@ == after(start, i as nat),
                batch.len() == i,
                forall|j: int|
                    0 <= j < i ==> #[trigger] batch[j] == self.pushed()[latest(
                        pushes,
                        picked(output(after(start, j as nat).state), filled as int),
                    )],
                forall|j: int| 0 <= j < i ==> self.pushed().contains(#[trigger] batch[j]),
            decreases n - i,
        {
            let draw: u32 = rng.next_u32();
            let slot: usize = pick_slot(draw, filled);
            proof {
                lemma_latest(pushes, slot as int);
                assert(self.pushed@[latest(pushes, slot as int)] == self.data@[slot as int]);
            }
            batch.push(self.data[slot]);
            i = i + 1;
        }
        batch
    }
}

/// The last turn of a slot is among the held samples.
proof fn lemma_latest(pushes: int, slot: int)
    requires
        0 <= slot < held(pushes),
    ensures
        0 <= latest(pushes, slot) < pushes,
        pushes - RING_CAPACITY <= latest(pushes, slot),
        latest(pushes, slot) % RING_CAPACITY as int == slot,
{
    let last = pushes - 1;
    let c = RING_CAPACITY as int;
    let d = (last - slot) % c;
    assert((last - d) % c == slot) by {
        assert(last - d == slot + c * ((last - slot) / c));
    }
    if pushes <= c {
        assert(latest(pushes, slot) == slot);
    }
}

/// The slot that a draw picks among the held ones.
fn pick_slot(draw: u32, held: usize) -> (r: usize)
    requires
        0 < held <= RING_CAPACITY,
    ensures
        r == picked(draw, held as int),
        r < held,
{
    let n: u64 = round_single(draw as u64);
    let n: u64 = if n >= 0x1_0000_0000 { 0xffff_ff00 } else { n };
    assert(n * held <= 0xffff_ffff * 131072) by (nonlinear_arith)
        requires
            n <= 0xffff_ffff,
            held <= 131072,
    ;
    let product: u64 = round_single(n * (held as u64));
    let slot: u64 = product / 0x1_0000_0000;
    if slot < held as u64 {
        slot as usize
    } else {
        held - 1
    }
}

/// A ring holds as many samples as were pushed until it is full, and its slots
/// hold the samples pushed last: each slot one of these, each of these in a slot.
pub proof fn law_ring_keeps_the_latest(pushes: int, j: int)
    requires
        0 <= j < pushes,
        pushes - RING_CAPACITY <= j,
    ensures
        held(pushes) == (if pushes < RING_CAPACITY {
            pushes
        } else {
            RING_CAPACITY as int
        }),
        latest(pushes, j % RING_CAPACITY as int) == j,
{
    let c = RING_CAPACITY as int;
    let last = pushes - 1;
    let slot = j % c;
    assert((last - slot) % c == (last - j) % c) by {
        assert(last - slot == (last - j) + c * (j / c));
        vstd::arithmetic::div_mod::lemma_mod_multiples_vanish(j / c, last - j, c);
    }
    assert((last - j) % c == last - j);
}

/// A draw picks a slot that is held, and as far along the held ones as the draw is
/// along all draws, up to rounding.
pub proof fn law_draws_pick_in_proportion(draw: u32, held: int)
    requires
        0 < held <= RING_CAPACITY,
    ensures
        0 <= picked(draw, held) < held,
        picked(draw, held) * 0x1_0000_0000 <= draw * held + 0x1_0000_0000,
        draw * held <= (picked(draw, held) + 2) * 0x1_0000_0000,
{
    let n = unit_numerator(draw);
    let p = (n * held) as nat;
    law_unit_is_the_part_of_the_draw(draw);
    law_rounding_is_to_the_nearest(p);
    let q = spacing(p);
    let r = round_to_single(p);
    assert(0 <= n * held < 0x1_0000_0000 * held) by (nonlinear_arith)
        requires
            0 <= n < 0x1_0000_0000,
            0 < held,
    ;
    assert(-0x100 * held <= n * held - draw * held <= 0x100 * held) by (nonlinear_arith)
        requires
            -0x100 < n - draw < 0x100,
            0 < held,
    ;
    assert(q <= 0x200 * held) by (nonlinear_arith)
        requires
            q == 1 || q * 0x80_0000 <= p,
            p < 0x1_0000_0000 * held,
            0 < held,
    ;
}

} // verus!
