use crate::fixed_point::{floor_bits, FixedPoint, ONE_BITS};
use vstd::prelude::*;

verus! {

/// The state that seed 0 stands for.
pub const ZERO_SEED_HIGH: u32 = 0xd67c_e1e8;

pub const ZERO_SEED_LOW: u32 = 0x42cf_adf8;

/// Mixed into a nonzero seed to form the high word.
pub const SEED_MASK: u32 = 0xbead_29ba;

/// How often a fresh state from a nonzero seed is advanced.
pub const SEED_CYCLES: usize = 32;

/// One advance of the state `(high, low)`: the halves of `high` are swapped,
/// `low` is added to give the new high word, and `low` is added again to give
/// the new low word, both modulo 2^32.
#[verifier::opaque]
pub open spec fn cycle(s: (u32, u32)) -> (u32, u32) {
    let swapped = (s.0 as int % 65536) * 65536 + s.0 as int / 65536;
    let high = (swapped + s.1 as int) % 0x1_0000_0000;
    let low = (high + s.1 as int) % 0x1_0000_0000;
    (high as u32, low as u32)
}

/// `h` with its two 16-bit halves swapped.
pub open spec fn rotate16(h: u32) -> u32 {
    (h << 16u32) | (h >> 16u32)
}

/// The swap in `cycle` is the rotation of the high word by 16 bits, so one
/// advance is `high' = rotate16(high) + low` and `low' = high' + low`, both
/// wrapping.
pub proof fn lemma_cycle_rotates(s: (u32, u32))
    ensures
        cycle(s).0 as int == (rotate16(s.0) as int + s.1 as int) % 0x1_0000_0000,
        cycle(s).1 as int == (cycle(s).0 as int + s.1 as int) % 0x1_0000_0000,
{
    reveal(cycle);
    let h = s.0;
    assert(((h << 16u32) | (h >> 16u32)) == (h % 65536u32) * 65536u32 + h / 65536u32) by (bit_vector);
}

/// The state after `n` advances.
pub open spec fn cycles(s: (u32, u32), n: nat) -> (u32, u32)
    decreases n,
{
    if n == 0 {
        s
    } else {
        cycle(cycles(s, (n - 1) as nat))
    }
}

/// The state that a generator seeded with `seed` starts in.
pub open spec fn seeded(seed: u32) -> (u32, u32) {
    if seed == 0 {
        (ZERO_SEED_HIGH, ZERO_SEED_LOW)
    } else {
        cycles((seed ^ SEED_MASK, seed), SEED_CYCLES as nat)
    }
}

/// Bits of the number drawn from state `s` below a number with bits `max`:
/// the advanced high word modulo `max`'s bits read as unsigned.
pub open spec fn draw_bits(s: (u32, u32), max: i32) -> i32 {
    (cycle(s).0 % (max as u32)) as i32
}

/// The integer drawn from state `s` below a positive integer `max`.
#[verifier::opaque]
pub open spec fn uint_draw(s: (u32, u32), max: nat) -> nat {
    ((cycle(s).0 as int % (max as int * 65536)) / 65536) as nat
}

/// The integer drawn below `max` from state `s`, and the state after: zero and
/// no advance for a zero `max`.
pub open spec fn draw_below(s: (u32, u32), max: nat) -> (nat, (u32, u32)) {
    if max == 0 {
        (0, s)
    } else {
        (uint_draw(s, max), cycle(s))
    }
}

/// A deterministic pseudo-random sequence over a 64-bit state.
pub struct Random {
    high: u32,
    low: u32,
}

impl View for Random {
    type V = (u32, u32);

    closed spec fn view(&self) -> (u32, u32) {
        (self.high, self.low)
    }
}

impl Random {
    pub fn new(seed: u32) -> (r: Random)
        ensures
            r@ == seeded(seed),
    {
        if seed == 0 {
            return Random { high: ZERO_SEED_HIGH, low: ZERO_SEED_LOW };
        }
        let mut random = Random { high: seed ^ SEED_MASK, low: seed };
        let mut i: usize = 0;
        while i < SEED_CYCLES
            invariant
                i <= SEED_CYCLES,
                random@ == cycles((seed ^ SEED_MASK, seed), i as nat),
            decreases SEED_CYCLES - i,
        {
            random.cycle_self();
            i += 1;
        }
        random
    }

    /// The current state `(high, low)`.
    pub fn state(&self) -> (r: (u32, u32))
        ensures
            r == self@,
    {
        (self.high, self.low)
    }

    /// A number in `[0, 1)`.
    pub fn next(&mut self) -> (r: FixedPoint)
        ensures
            final(self)@ == cycle(old(self)@),
            r.bits == draw_bits(old(self)@, ONE_BITS),
            0 <= r.bits < ONE_BITS,
    {
        self.next_max(FixedPoint { bits: ONE_BITS })
    }

    /// Zero for a zero `max`, leaving the state as it is; otherwise the state
    /// advances once and the result's bits are the new high word modulo the
    /// bits of `max` read as unsigned.
    pub fn next_max(&mut self, max: FixedPoint) -> (r: FixedPoint)
        ensures
            max.bits == 0 ==> r.bits == 0 && final(self)@ == old(self)@,
            max.bits != 0 ==> r.bits == draw_bits(old(self)@, max.bits) && final(self)@ == cycle(
                old(self)@,
            ),
            max.bits > 0 ==> 0 <= r.bits < max.bits,
    {
        if max.bits == 0 {
            return FixedPoint { bits: 0 };
        }
        self.cycle_self();
        let m: u32 = #[verifier::truncate] (max.bits as u32);
        let mb = max.bits;
        assert(m != 0) by (bit_vector)
            requires
                mb != 0,
                m == mb as u32,
        ;
        let v = self.high % m;
        FixedPoint { bits: #[verifier::truncate] (v as i32) }
    }

    /// An integer below `max` (zero for a zero `max`, leaving the state as it is).
    pub fn next_uint_max(&mut self, max: usize) -> (r: usize)
        requires
            max < 32768,
        ensures
            max == 0 ==> r == 0 && final(self)@ == old(self)@,
            max > 0 ==> r == uint_draw(old(self)@, max as nat) && final(self)@ == cycle(old(self)@),
            max > 0 ==> r < max,
            (r as nat, final(self)@) == draw_below(old(self)@, max as nat),
    {
        let bound = FixedPoint::from_usize(max);
        let v = self.next_max(bound);
        let f = v.floor();
        proof {
            reveal(uint_draw);
            let b = v.bits as int;
            assert(0 <= b);
            assert((b / 65536) * 65536 <= b) by (nonlinear_arith)
                requires
                    0 <= b,
            ;
            assert(0 <= (b / 65536) * 65536) by (nonlinear_arith)
                requires
                    0 <= b,
            ;
            assert(floor_bits(v.bits) == (b / 65536) * 65536);
            assert(((b / 65536) * 65536) / 65536 == b / 65536) by (nonlinear_arith);
            if max > 0 {
                assert(b < max * 65536);
                assert(b / 65536 < max) by (nonlinear_arith)
                    requires
                        0 <= b < max * 65536,
                ;
            }
        }
        f.to_usize()
    }

    fn cycle_self(&mut self)
        ensures
            final(self)@ == cycle(old(self)@),
    {
        let high_high = self.high / 65536;
        let high_low = self.high % 65536;
        let swapped: u32 = high_low * 65536 + high_high;
        let new_high = ((swapped as u64 + self.low as u64) % 0x1_0000_0000) as u32;
        let new_low = ((new_high as u64 + self.low as u64) % 0x1_0000_0000) as u32;
        self.high = new_high;
        self.low = new_low;
        proof {
            reveal(cycle);
        }
    }
}

} // verus!
