//! PCG-XSH-RR random numbers: a 64-bit linear congruential generator whose
//! output is its own state, folded and rotated down to 32 bits.
use vstd::prelude::*;
use vstd::arithmetic::power::pow;
use vstd::arithmetic::power2::pow2;
use crate::scalar::{Scalar, ONE_KEY};

verus! {

/// Multiplier of the congruential generator.
pub const MULTIPLIER: u64 = 6364136223846793005;

/// One more than the largest significand of a single-precision number.
pub const SIGNIFICAND_LIMIT: u64 = 0x100_0000;

/// The state that follows `state` on the stream with increment `inc`.
pub open spec fn next_state(state: u64, inc: u64) -> u64 {
    state.wrapping_mul(MULTIPLIER).wrapping_add(inc)
}

/// `x` rotated right by `r` bits, for `r` below 32.
pub open spec fn rotated_right(x: u32, r: u32) -> u32 {
    if r == 0 {
        x
    } else {
        (x >> r) | (x << ((32 - r) as u32))
    }
}

/// The 32 bits that a state puts out.
pub open spec fn output(state: u64) -> u32 {
    rotated_right((((state >> 18) ^ state) >> 27) as u32, (state >> 59) as u32)
}

/// The increment of the stream with a given number: always odd.
pub open spec fn stream_increment(seq: u64) -> u64 {
    (seq << 1) | 1
}

/// Distance between neighbouring 24-bit significands at `x`: the least power of
/// two that brings `x` below 2^24 when divided out.
pub open spec fn spacing(x: nat) -> nat
    decreases x,
{
    if x < SIGNIFICAND_LIMIT {
        1
    } else {
        2 * spacing(x / 2)
    }
}

/// `x` rounded to 24 significant bits, ties to even.
pub open spec fn round_to_single(x: nat) -> nat {
    let q = spacing(x);
    let below = x / q;
    let rest = x % q;
    if 2 * rest > q || (2 * rest == q && below % 2 == 1) {
        (below + 1) * q
    } else {
        below * q
    }
}

/// The 32-bit draw as a fraction of 2^32 in single precision, kept below one.
pub open spec fn unit_numerator(draw: u32) -> nat {
    let n = round_to_single(draw as nat);
    if n >= 0x1_0000_0000 {
        0xffff_ff00
    } else {
        n
    }
}

/// What a non-negative scalar below one is worth, in units of 2^-55.
pub open spec fn worth(s: Scalar) -> int {
    if s.key == 0 {
        0
    } else {
        (0x80_0000 + s.key % 0x80_0000) * pow2((s.key / 0x80_0000 - 95) as nat)
    }
}

/// Whether a scalar is zero or a fraction of 2^32 below one.
pub open spec fn is_unit(s: Scalar) -> bool {
    s.key == 0 || 95 * 0x80_0000 <= s.key < ONE_KEY
}

/// The single-precision number nearest to `draw` / 2^32 that is below one.
pub open spec fn unit(draw: u32) -> Scalar {
    choose|s: Scalar| #[trigger] is_unit(s) && worth(s) == unit_numerator(draw) * 0x80_0000
}

/// No two fractions are worth the same.
proof fn lemma_worth_tells_apart(a: Scalar, b: Scalar)
    requires
        is_unit(a),
        is_unit(b),
        worth(a) == worth(b),
    ensures
        a == b,
{
    if a.key == 0 || b.key == 0 {
        lemma_worth_positive(a);
        lemma_worth_positive(b);
    } else if a.key / 0x80_0000 < b.key / 0x80_0000 {
        lemma_worth_ordered(a, b);
    } else if b.key / 0x80_0000 < a.key / 0x80_0000 {
        lemma_worth_ordered(b, a);
    } else {
        let p = pow2((a.key / 0x80_0000 - 95) as nat) as int;
        let m = 0x80_0000 + a.key % 0x80_0000;
        let n = 0x80_0000 + b.key % 0x80_0000;
        vstd::arithmetic::power2::lemma_pow2_pos((a.key / 0x80_0000 - 95) as nat);
        assert(m == n) by (nonlinear_arith)
            requires
                m * p == n * p,
                p > 0,
        ;
    }
}

proof fn lemma_worth_positive(a: Scalar)
    requires
        is_unit(a),
    ensures
        worth(a) == 0 <==> a.key == 0,
{
    if a.key != 0 {
        let p = pow2((a.key / 0x80_0000 - 95) as nat) as int;
        vstd::arithmetic::power2::lemma_pow2_pos((a.key / 0x80_0000 - 95) as nat);
        assert((0x80_0000 + a.key % 0x80_0000) * p > 0) by (nonlinear_arith)
            requires
                p > 0,
                a.key >= 0,
        ;
    }
}

proof fn lemma_worth_ordered(a: Scalar, b: Scalar)
    requires
        is_unit(a),
        is_unit(b),
        a.key != 0,
        a.key / 0x80_0000 < b.key / 0x80_0000,
    ensures
        worth(a) < worth(b),
{
    let e = (a.key / 0x80_0000 - 95) as nat;
    let f = (b.key / 0x80_0000 - 95) as nat;
    vstd::arithmetic::power2::lemma_pow2_unfold((e + 1) as nat);
    vstd::arithmetic::power2::lemma_pow2_pos(e);
    if e + 1 < f {
        vstd::arithmetic::power2::lemma_pow2_strictly_increases((e + 1) as nat, f);
    }
    let p = pow2(e) as int;
    let q = pow2(f) as int;
    let m = a.key as int % 0x80_0000;
    let n = b.key as int % 0x80_0000;
    assert((0x80_0000 + m) * p < (0x80_0000 + n) * q) by (nonlinear_arith)
        requires
            0 <= m < 0x80_0000,
            0 <= n,
            p > 0,
            2 * p <= q,
    ;
}

/// A random stream: where it is, and the increment that sets it apart.
pub struct Stream {
    pub state: u64,
    pub inc: u64,
}

impl Stream {
    /// The stream, one draw later.
    pub open spec fn next(self) -> Stream {
        Stream { state: next_state(self.state, self.inc), inc: self.inc }
    }

    /// The number that is drawn next.
    pub open spec fn value(self) -> Scalar {
        unit(output(self.state))
    }
}

/// The stream that a 64-bit state and a stream number give.
pub open spec fn seeded(init_state: u64, init_seq: u64) -> Stream {
    (Stream { state: init_state, inc: stream_increment(init_seq) }).next()
}

/// The stream that a 128-bit seed gives: its low half chooses the stream, and
/// its high half is mixed in between two steps.
pub open spec fn seeded_128(seed: u128) -> Stream {
    let s = (Stream { state: 0, inc: stream_increment(seed as u64) }).next();
    (Stream { state: s.state.wrapping_add((seed >> 64) as u64), inc: s.inc }).next()
}

proof fn lemma_spacing(x: nat)
    ensures
        spacing(x) > 0,
        x / spacing(x) < SIGNIFICAND_LIMIT,
        x >= SIGNIFICAND_LIMIT / 2 ==> x / spacing(x) >= SIGNIFICAND_LIMIT / 2,
        spacing(x) == 1 || spacing(x) <= x,
    decreases x,
{
    if x >= SIGNIFICAND_LIMIT {
        lemma_spacing(x / 2);
        let q = spacing(x / 2);
        vstd::arithmetic::div_mod::lemma_div_denominator(x as int, 2, q as int);
        assert(x / (2 * q) == (x / 2) / q);
    }
}

/// The least power of two that brings `x` below 2^24.
fn spacing_of(x: u64) -> (q: u64)
    requires
        x < 0x100_0000_0000_0000,
    ensures
        q == spacing(x as nat),
{
    let mut q: u64 = 1;
    let mut y: u64 = x;
    while y >= SIGNIFICAND_LIMIT
        invariant
            x < 0x100_0000_0000_0000,
            q * spacing(y as nat) == spacing(x as nat),
            q * y <= x,
            q > 0,
        decreases y,
    {
        proof {
            assert(spacing(y as nat) == 2 * spacing((y / 2) as nat));
            assert(q * (2 * spacing((y / 2) as nat)) == (q * 2) * spacing((y / 2) as nat))
                by (nonlinear_arith);
            assert((q * 2) * (y / 2) <= q * y) by (nonlinear_arith)
                requires
                    q > 0,
                    y >= 0,
            ;
            assert(q <= q * y) by (nonlinear_arith)
                requires
                    q > 0,
                    y >= 1,
            ;
        }
        y = y / 2;
        q = q * 2;
    }
    proof {
        assert(q * 1 == q);
    }
    q
}

/// Rounds a whole number below 2^56 to 24 significant bits, ties to even.
pub fn round_single(x: u64) -> (r: u64)
    requires
        x < 0x100_0000_0000_0000,
    ensures
        r == round_to_single(x as nat),
        r <= 2 * x,
{
    let q = spacing_of(x);
    proof {
        lemma_spacing(x as nat);
    }
    let below: u64 = x / q;
    let rest: u64 = x % q;
    proof {
        vstd::arithmetic::div_mod::lemma_fundamental_div_mod(x as int, q as int);
        assert(q * below <= x);
        assert((below + 1) * q == q * below + q) by (nonlinear_arith);
        assert(below * q == q * below) by (nonlinear_arith);
        assert(q <= x + 1);
        if x > 0 && below == 0 {
            assert(q * 0 == 0);
            assert(x < q);
        }
    }
    if rest > q - rest || (rest == q - rest && below % 2 == 1) {
        (below + 1) * q
    } else {
        below * q
    }
}

/// A random number generator on one of 2^63 streams.
pub struct Pcg32 {
    state: u64,
    inc: u64,
}

impl View for Pcg32 {
    type V = Stream;

    open spec fn view(&self) -> Stream {
        Stream { state: self.state(), inc: self.inc() }
    }
}

impl Pcg32 {
    #[verifier::type_invariant]
    spec fn increment_is_odd(self) -> bool {
        self.inc % 2 == 1
    }

    /// The current state of the congruential generator.
    pub closed spec fn state(self) -> u64 {
        self.state
    }

    /// The increment that selects the stream.
    pub closed spec fn inc(self) -> u64 {
        self.inc
    }

    /// A generator on stream `init_seq`, stepped once from `init_state`.
    pub fn from_seed(init_state: u64, init_seq: u64) -> (rng: Pcg32)
        ensures
            rng@ == seeded(init_state, init_seq),
            rng@.inc % 2 == 1,
    {
        let inc: u64 = (init_seq << 1) | 1;
        assert(((init_seq << 1) | 1) % 2 == 1) by (bit_vector);
        let mut rng = Pcg32 { state: init_state, inc };
        let _ = rng.next_u32();
        rng
    }

    /// A generator whose stream is the low half of `seed` and whose state mixes
    /// in the high half between two warm-up steps.
    pub fn from_seed_128(seed: u128) -> (rng: Pcg32)
        ensures
            rng@ == seeded_128(seed),
            rng@.inc % 2 == 1,
    {
        let init_state: u64 = #[verifier::truncate] ((seed >> 64) as u64);
        let init_seq: u64 = #[verifier::truncate] (seed as u64);
        let inc: u64 = (init_seq << 1) | 1;
        assert(((init_seq << 1) | 1) % 2 == 1) by (bit_vector);
        let mut rng = Pcg32 { state: 0, inc };
        let _ = rng.next_u32();
        rng.state = rng.state.wrapping_add(init_state);
        let _ = rng.next_u32();
        rng
    }

    /// The next 32 random bits.
    pub fn next_u32(&mut self) -> (r: u32)
        ensures
            r == output(old(self)@.state),
            final(self)@ == old(self)@.next(),
            final(self)@.inc % 2 == 1,
    {
        proof {
            use_type_invariant(&*self);
        }
        let old_state: u64 = self.state;
        self.state = old_state.wrapping_mul(MULTIPLIER).wrapping_add(self.inc);
        let xorshifted: u32 = #[verifier::truncate] ((((old_state >> 18) ^ old_state) >> 27) as u32);
        let rot: u32 = #[verifier::truncate] ((old_state >> 59) as u32);
        assert((old_state >> 59) < 32) by (bit_vector);
        assert((old_state >> 59) as u32 == old_state >> 59);
        if rot == 0 {
            xorshifted
        } else {
            (xorshifted >> rot) | (xorshifted << (32 - rot))
        }
    }

    /// The next random number in the half-open interval from zero to one.
    pub fn next_f32(&mut self) -> (r: Scalar)
        ensures
            r == old(self)@.value(),
            0 <= r.key < ONE_KEY,
            worth(r) == unit_numerator(output(old(self)@.state)) * 0x80_0000,
            final(self)@ == old(self)@.next(),
            final(self)@.inc % 2 == 1,
    {
        let draw = self.next_u32();
        unit_scalar(draw)
    }
}

/// The single-precision number nearest to `draw` / 2^32 that is below one.
pub fn unit_scalar(draw: u32) -> (r: Scalar)
    ensures
        r == unit(draw),
        0 <= r.key < ONE_KEY,
        worth(r) == unit_numerator(draw) * 0x80_0000,
{
    let n: u64 = round_single(draw as u64);
    if n == 0 {
        proof {
            lemma_unit_is(draw, Scalar { key: 0 });
        }
        return Scalar { key: 0 };
    }
    let n: u64 = if n >= 0x1_0000_0000 { 0xffff_ff00 } else { n };
    // Normalize: `n * 2^23 == significand * 2^power`, with a 24-bit significand.
    let mut significand: u64 = n;
    let mut power: u64 = 23;
    proof {
        vstd::arithmetic::power2::lemma2_to64();
        lemma_rounded_is_short(draw);
        assert(significand * 1 == n);
    }
    while significand >= SIGNIFICAND_LIMIT
        invariant
            0 < significand < 0x1_0000_0000,
            significand * pow2(power as nat) == n * 0x80_0000,
            significand >= SIGNIFICAND_LIMIT ==> significand % 2 == 0,
            is_short(significand as int),
            23 <= power,
            significand * pow2((power - 23) as nat) == n,
            n < 0x1_0000_0000,
        decreases significand,
    {
        proof {
            lemma_halve(significand as int, power as nat);
            lemma_halve(significand as int, (power - 23) as nat);
            lemma_short_halves(significand as int);
            lemma_power_bound(significand as int, (power - 23) as nat, n as int);
        }
        significand = significand / 2;
        power = power + 1;
    }
    while significand < 0x80_0000
        invariant
            0 < significand < SIGNIFICAND_LIMIT,
            significand * pow2(power as nat) == n * 0x80_0000,
            n < 0x1_0000_0000,
            n > 0,
        decreases SIGNIFICAND_LIMIT - significand,
    {
        proof {
            if power == 0 {
                vstd::arithmetic::power2::lemma2_to64();
                assert(significand * 1 == n * 0x80_0000);
                assert(false);
            }
            vstd::arithmetic::power2::lemma_pow2_unfold(power as nat);
            assert(significand * (2 * pow2((power - 1) as nat)) == (significand * 2) * pow2(
                (power - 1) as nat,
            )) by (nonlinear_arith);
        }
        significand = significand * 2;
        power = power - 1;
    }
    proof {
        lemma_power_below_32(significand as int, power as nat, n as int);
    }
    let key: u64 = (power + 95) * 0x80_0000 + (significand - 0x80_0000);
    proof {
        assert(key < ONE_KEY);
        assert(key / 0x80_0000 == power + 95);
        assert(key % 0x80_0000 == significand - 0x80_0000);
        lemma_unit_is(draw, Scalar { key: key as i32 });
    }
    Scalar { key: key as i32 }
}

proof fn lemma_unit_is(draw: u32, s: Scalar)
    requires
        is_unit(s),
        worth(s) == unit_numerator(draw) * 0x80_0000,
    ensures
        unit(draw) == s,
{
    lemma_worth_tells_apart(unit(draw), s);
}

/// `n` is the significand `m` scaled by 2^k.
spec fn scaled(n: int, m: int, k: nat) -> bool {
    n == m * pow2(k) && 0 < m < SIGNIFICAND_LIMIT
}

/// `n` has at most 24 significant bits.
spec fn is_short(n: int) -> bool {
    exists|m: int, k: nat| scaled(n, m, k)
}

proof fn lemma_halve(s: int, p: nat)
    requires
        s % 2 == 0,
    ensures
        (s / 2) * pow2((p + 1) as nat) == s * pow2(p),
{
    vstd::arithmetic::power2::lemma_pow2_unfold((p + 1) as nat);
    let h = s / 2;
    let w = pow2(p) as int;
    assert(h * (2 * w) == (2 * h) * w) by (nonlinear_arith);
}

proof fn lemma_power_bound(s: int, p: nat, n: int)
    requires
        s >= 1,
        s * pow2(p) == n,
        n < 0x1_0000_0000,
    ensures
        p < 32,
{
    if p >= 32 {
        vstd::arithmetic::power2::lemma2_to64();
        if p > 32 {
            vstd::arithmetic::power2::lemma_pow2_strictly_increases(32, p);
        }
        let w = pow2(p) as int;
        assert(s * w >= w) by (nonlinear_arith)
            requires
                s >= 1,
                w >= 0,
        ;
        assert(false);
    }
}

proof fn lemma_power_below_32(s: int, p: nat, n: int)
    requires
        s >= 0x80_0000,
        s * pow2(p) == n * 0x80_0000,
        0 < n < 0x1_0000_0000,
    ensures
        p < 32,
{
    if p >= 32 {
        vstd::arithmetic::power2::lemma2_to64();
        if p > 32 {
            vstd::arithmetic::power2::lemma_pow2_strictly_increases(32, p);
        }
        let w = pow2(p) as int;
        assert(s * w >= 0x80_0000 * w) by (nonlinear_arith)
            requires
                s >= 0x80_0000,
                w >= 0,
        ;
        assert(false);
    }
}

/// A number that is a short significand times a power of two keeps that shape
/// when it is too long for a significand and gets halved.
proof fn lemma_short_halves(s: int)
    requires
        is_short(s),
        s >= SIGNIFICAND_LIMIT,
    ensures
        s % 2 == 0,
        is_short(s / 2),
        s / 2 >= SIGNIFICAND_LIMIT ==> (s / 2) % 2 == 0,
{
    let (m, k) = choose|m: int, k: nat| scaled(s, m, k);
    vstd::arithmetic::power2::lemma2_to64();
    if k == 0 {
        assert(m * 1 == m);
        assert(false);
    }
    vstd::arithmetic::power2::lemma_pow2_unfold(k);
    let w = pow2((k - 1) as nat) as int;
    assert(m * (2 * w) == 2 * (m * w)) by (nonlinear_arith);
    assert(scaled(s / 2, m, (k - 1) as nat));
    if s / 2 >= SIGNIFICAND_LIMIT {
        if k == 1 {
            assert(m * 1 == m);
            assert(false);
        }
        vstd::arithmetic::power2::lemma_pow2_unfold((k - 1) as nat);
        let w2 = pow2((k - 2) as nat) as int;
        assert(m * (2 * w2) == 2 * (m * w2)) by (nonlinear_arith);
    }
}

proof fn lemma_spacing_is_power(x: nat) -> (k: nat)
    ensures
        spacing(x) == pow2(k),
    decreases x,
{
    if x < SIGNIFICAND_LIMIT {
        vstd::arithmetic::power2::lemma2_to64();
        0
    } else {
        let k = lemma_spacing_is_power(x / 2);
        vstd::arithmetic::power2::lemma_pow2_unfold((k + 1) as nat);
        k + 1
    }
}

/// A draw, rounded and kept below one, is a short significand times a power of two.
proof fn lemma_rounded_is_short(draw: u32)
    ensures
        ({
            let n = unit_numerator(draw) as int;
            &&& n > 0 ==> is_short(n)
            &&& n >= SIGNIFICAND_LIMIT ==> n % 2 == 0
        }),
{
    let n = unit_numerator(draw) as int;
    let x = draw as nat;
    vstd::arithmetic::power2::lemma2_to64();
    let k = lemma_spacing_is_power(x);
    lemma_spacing(x);
    let q = spacing(x);
    if n > 0 {
        if round_to_single(x) >= 0x1_0000_0000 {
            assert(scaled(n, 0xff_ffff, 8));
        } else {
            let below = x / q;
            let up = 2 * (x % q) > q || (2 * (x % q) == q && below % 2 == 1);
            let m: int = if up { below as int + 1 } else { below as int };
            assert(n == m * q);
            if m == SIGNIFICAND_LIMIT {
                vstd::arithmetic::power2::lemma_pow2_adds(24, k);
                assert(scaled(n, 1, (24 + k) as nat));
            } else {
                if m <= 0 {
                    assert(m * q <= 0) by (nonlinear_arith)
                        requires
                            m <= 0,
                            q >= 0,
                    ;
                }
                assert(scaled(n, m, k));
            }
        }
        if n >= SIGNIFICAND_LIMIT {
            lemma_short_halves(n);
        }
    }
}

/// Bit `i` of a rotated word is the bit that stood `r` places above it, around
/// the end of the word.
pub proof fn law_rotation_moves_bits(x: u32, r: u32, i: u32)
    requires
        r < 32,
        i < 32,
    ensures
        (rotated_right(x, r) >> i) & 1 == (x >> ((i + r) % 32) as u32) & 1,
{
    let j: u32 = ((i + r) % 32) as u32;
    if r == 0 {
    } else {
        let l: u32 = (32 - r) as u32;
        assert((((x >> r) | (x << l)) >> i) & 1 == (x >> j) & 1) by (bit_vector)
            requires
                0 < r < 32,
                i < 32,
                l == 32 - r,
                j == (i + r) % 32,
        ;
    }
}

/// Stepping loses nothing: two states of one stream with the same successor are
/// the same state.
pub proof fn law_step_is_injective(a: u64, b: u64, inc: u64)
    requires
        next_state(a, inc) == next_state(b, inc),
    ensures
        a == b,
{
    let m: int = 0x1_0000_0000_0000_0000;
    let inverse: int = 13877824140714322085;
    let pa = (a * MULTIPLIER) % m;
    let pb = (b * MULTIPLIER) % m;
    assert(pa == pb);
    assert(MULTIPLIER * inverse == 4787856489426250814int * m + 1);
    assert((MULTIPLIER * inverse) % m == 1);
    lemma_undo(a as int, MULTIPLIER as int, inverse, m);
    lemma_undo(b as int, MULTIPLIER as int, inverse, m);
}

/// A number times a factor, modulo `m`, is undone by the factor's inverse.
pub proof fn lemma_undo(x: int, f: int, g: int, m: int)
    requires
        m > 1,
        0 <= x < m,
        (f * g) % m == 1,
    ensures
        (((x * f) % m) * g) % m == x,
{
    vstd::arithmetic::div_mod::lemma_mul_mod_noop_left(x * f, g, m);
    assert((x * f) * g == x * (f * g)) by (nonlinear_arith);
    vstd::arithmetic::div_mod::lemma_mul_mod_noop_right(x, f * g, m);
    assert(x * 1 == x);
    vstd::arithmetic::div_mod::lemma_small_mod(x as nat, m as nat);
}

/// The stream after a number of steps.
pub open spec fn after(s: Stream, n: nat) -> Stream
    decreases n,
{
    if n == 0 {
        s
    } else {
        after(s, (n - 1) as nat).next()
    }
}

/// The first `n` powers of the multiplier, added up.
spec fn power_sum(n: nat) -> int
    decreases n,
{
    if n == 0 {
        0
    } else {
        MULTIPLIER * power_sum((n - 1) as nat) + 1
    }
}

/// Whether a number can be halved `k` times.
spec fn halves(k: nat, x: int) -> bool
    decreases k,
{
    k == 0 || (x % 2 == 0 && halves((k - 1) as nat, x / 2))
}

proof fn lemma_halves_is_divisible(k: nat, x: int)
    ensures
        halves(k, x) <==> x % pow2(k) as int == 0,
    decreases k,
{
    vstd::arithmetic::power2::lemma_pow2_pos(k);
    if k == 0 {
        vstd::arithmetic::power2::lemma2_to64();
    } else {
        vstd::arithmetic::power2::lemma_pow2_unfold(k);
        let p = pow2((k - 1) as nat) as int;
        vstd::arithmetic::power2::lemma_pow2_pos((k - 1) as nat);
        lemma_halves_is_divisible((k - 1) as nat, x / 2);
        vstd::arithmetic::div_mod::lemma_fundamental_div_mod(x, 2 * p);
        let q = x / (2 * p);
        assert((2 * p) * q == 2 * (p * q)) by (nonlinear_arith);
        if x % (2 * p) == 0 {
            assert(x / 2 == p * q);
            vstd::arithmetic::div_mod::lemma_mod_multiples_basic(q, p);
            assert(p * q == q * p) by (nonlinear_arith);
        }
        if x % 2 == 0 && (x / 2) % p == 0 {
            vstd::arithmetic::div_mod::lemma_fundamental_div_mod(x / 2, p);
            let r = (x / 2) / p;
            assert(x == 2 * (p * r));
            assert(2 * (p * r) == r * (2 * p)) by (nonlinear_arith);
            vstd::arithmetic::div_mod::lemma_mod_multiples_basic(r, 2 * p);
        }
    }
}

/// An odd factor changes nothing in how often a number can be halved.
proof fn lemma_halves_odd_factor(k: nat, x: int, odd: int)
    requires
        odd % 2 == 1,
    ensures
        halves(k, x * odd) <==> halves(k, x),
    decreases k,
{
    if k > 0 {
        let h = odd / 2;
        assert(odd == 2 * h + 1);
        assert(x * odd == 2 * (x * h) + x) by (nonlinear_arith)
            requires
                odd == 2 * h + 1,
        ;
        if x % 2 == 0 {
            let y = x / 2;
            assert(x * odd == 2 * (y * odd)) by (nonlinear_arith)
                requires
                    x == 2 * y,
            ;
            lemma_halves_odd_factor((k - 1) as nat, y, odd);
        }
    }
}

proof fn lemma_power_sum_splits(m: nat, n: nat)
    ensures
        power_sum(m + n) == power_sum(m) * pow(MULTIPLIER as int, n) + power_sum(n),
    decreases n,
{
    let a = MULTIPLIER as int;
    reveal(pow);
    if n > 0 {
        lemma_power_sum_splits(m, (n - 1) as nat);
        let p = pow(a, (n - 1) as nat);
        let s = power_sum(m);
        let t = power_sum((n - 1) as nat);
        assert(pow(a, n) == a * p);
        assert(a * (s * p + t) == s * (a * p) + a * t) by (nonlinear_arith);
        assert((m + n - 1) as nat == m + (n - 1) as nat);
    } else {
        assert(pow(a, 0) == 1);
    }
}

proof fn lemma_power_mod_four(n: nat)
    ensures
        pow(MULTIPLIER as int, n) % 4 == 1,
    decreases n,
{
    reveal(pow);
    if n > 0 {
        lemma_power_mod_four((n - 1) as nat);
        let a = MULTIPLIER as int;
        let p = pow(a, (n - 1) as nat);
        let q = p / 4;
        assert(p == 4 * q + 1);
        assert(a * p == 4 * (a * q) + a) by (nonlinear_arith)
            requires
                p == 4 * q + 1,
        ;
    }
}

proof fn lemma_power_sum_parity(n: nat)
    ensures
        power_sum(n) % 2 == n % 2,
    decreases n,
{
    if n > 0 {
        lemma_power_sum_parity((n - 1) as nat);
        let t = power_sum((n - 1) as nat);
        let h: int = 3182068111923396502;
        assert(MULTIPLIER * t == 2 * (h * t) + t) by (nonlinear_arith)
            requires
                MULTIPLIER == 2 * h + 1,
        ;
    }
}

/// The sum of powers can be halved as often as their number.
proof fn lemma_power_sum_halves(k: nat, n: nat)
    ensures
        halves(k, power_sum(n)) <==> halves(k, n as int),
    decreases k,
{
    lemma_power_sum_parity(n);
    if k > 0 && n % 2 == 0 {
        let m = n / 2;
        lemma_power_sum_splits(m, m);
        lemma_power_mod_four(m);
        let s = power_sum(m);
        let p = pow(MULTIPLIER as int, m);
        let odd = (p + 1) / 2;
        assert(s * p + s == 2 * (s * odd)) by (nonlinear_arith)
            requires
                p + 1 == 2 * odd,
        ;
        assert(m + m == n);
        lemma_halves_odd_factor((k - 1) as nat, s, odd);
        lemma_power_sum_halves((k - 1) as nat, m);
    }
}

/// The state after some steps, from the first one.
proof fn lemma_state_after(s: Stream, n: nat)
    ensures
        after(s, n).inc == s.inc,
        after(s, n).state == (s.state + power_sum(n) * ((MULTIPLIER - 1) * s.state + s.inc))
            % 0x1_0000_0000_0000_0000,
    decreases n,
{
    let m: int = 0x1_0000_0000_0000_0000;
    let a = MULTIPLIER as int;
    let x = s.state as int;
    let c = s.inc as int;
    let d = (a - 1) * x + c;
    if n == 0 {
        assert(power_sum(0) * d == 0);
    } else {
        lemma_state_after(s, (n - 1) as nat);
        let t = power_sum((n - 1) as nat);
        let y = x + t * d;
        let before = after(s, (n - 1) as nat).state as int;
        assert(before == y % m);
        assert(after(s, n).state == ((before * a) % m + c) % m);
        vstd::arithmetic::div_mod::lemma_add_mod_noop(before * a, c, m);
        vstd::arithmetic::div_mod::lemma_mod_twice(before * a, m);
        vstd::arithmetic::div_mod::lemma_add_mod_noop((before * a) % m, c, m);
        vstd::arithmetic::div_mod::lemma_mul_mod_noop_left(y, a, m);
        vstd::arithmetic::div_mod::lemma_add_mod_noop(y * a, c, m);
        assert(y * a + c == x + (a * t + 1) * d) by (nonlinear_arith)
            requires
                y == x + t * d,
                d == (a - 1) * x + c,
        ;
    }
}

/// A stream runs through all its states: its state first comes back after 2^64
/// steps. Its increment never changes.
pub proof fn law_period_is_full(s: Stream, n: nat)
    requires
        s.inc % 2 == 1,
        0 < n <= 0x1_0000_0000_0000_0000,
    ensures
        after(s, n).inc == s.inc,
        after(s, n).state == s.state <==> n == 0x1_0000_0000_0000_0000,
{
    let m: int = 0x1_0000_0000_0000_0000;
    let d = (MULTIPLIER - 1) * s.state + s.inc;
    let p = power_sum(n) * d;
    vstd::arithmetic::power2::lemma2_to64();
    vstd::arithmetic::power2::lemma2_to64_rest();
    lemma_state_after(s, n);
    let h = (MULTIPLIER - 1) / 2;
    assert((MULTIPLIER - 1) * s.state == 2 * (h * s.state)) by (nonlinear_arith)
        requires
            MULTIPLIER - 1 == 2 * h,
    ;
    assert(d % 2 == 1);
    lemma_halves_odd_factor(64, power_sum(n), d);
    lemma_power_sum_halves(64, n);
    lemma_halves_is_divisible(64, p);
    lemma_halves_is_divisible(64, n as int);
    assert(p % m == 0 <==> (n as int) % m == 0);
    let x = s.state as int;
    vstd::arithmetic::div_mod::lemma_fundamental_div_mod(x + p, m);
    vstd::arithmetic::div_mod::lemma_fundamental_div_mod(p, m);
    if p % m == 0 {
        vstd::arithmetic::div_mod::lemma_mod_multiples_vanish(p / m, x, m);
        vstd::arithmetic::div_mod::lemma_small_mod(x as nat, m as nat);
    } else if (x + p) % m == x {
        vstd::arithmetic::div_mod::lemma_mod_multiples_basic((x + p) / m, m);
    }
}

/// Rounding moves a number by no more than half the distance to its neighbours, to
/// a multiple of that distance, and leaves a number that needs no rounding alone.
/// The distance is a power of two and at most the 2^23rd part of a number that is
/// rounded.
pub proof fn law_rounding_is_to_the_nearest(x: nat)
    ensures
        2 * (round_to_single(x) - x) <= spacing(x),
        2 * (x - round_to_single(x)) <= spacing(x),
        exists|m: nat| round_to_single(x) == #[trigger] (m * spacing(x)),
        x < SIGNIFICAND_LIMIT ==> round_to_single(x) == x,
        spacing(x) == 1 || spacing(x) * (SIGNIFICAND_LIMIT / 2) <= x,
{
    lemma_spacing(x);
    let q = spacing(x);
    let below = x / q;
    vstd::arithmetic::div_mod::lemma_fundamental_div_mod(x as int, q as int);
    assert((below + 1) * q == q * below + q) by (nonlinear_arith);
    assert(below * q == q * below) by (nonlinear_arith);
    assert(round_to_single(x) == (below + 1) * q || round_to_single(x) == below * q);
    if x < SIGNIFICAND_LIMIT {
        assert(q == 1);
        assert(x / 1 == x && x % 1 == 0);
        assert(x * 1 == x);
    } else {
        assert(q * (SIGNIFICAND_LIMIT / 2) <= x) by (nonlinear_arith)
            requires
                below >= SIGNIFICAND_LIMIT / 2,
                q * below <= x,
        ;
    }
}

/// A draw becomes the part of one that it is of 2^32, up to the rounding of the last
/// bits, and is never one.
pub proof fn law_unit_is_the_part_of_the_draw(draw: u32)
    ensures
        unit_numerator(draw) < 0x1_0000_0000,
        -0x100 < unit_numerator(draw) - draw < 0x100,
        draw < SIGNIFICAND_LIMIT ==> unit_numerator(draw) == draw,
{
    law_rounding_is_to_the_nearest(draw as nat);
    let q = spacing(draw as nat);
    assert(q <= 0x1ff) by (nonlinear_arith)
        requires
            q == 1 || q * (SIGNIFICAND_LIMIT / 2) <= draw,
            draw <= 0xffff_ffff,
    ;
}

} // verus!
