//! The difficulty retarget and the compact encoding of targets.
use vstd::prelude::*;
use super::compact::{spec_compact_target_bytes, u256_from_compact};
use super::u256::{spec_le_value, u256_modulus, u256_wrapping_mul_u64, u256_div_u64, u256_lt, lemma_le_value_injective,
    pow256, lemma_le_value_bound, lemma_le_value_zero};
use super::compact::byte_of;

verus! {

broadcast use vstd::seq_lib::group_seq_properties;

/// Blocks between two difficulty adjustments.
pub const DIFFICULTY_ADJUSTMENT_INTERVAL: u64 = 2016;

/// The time those blocks are meant to take: two weeks, in seconds.
pub const POW_TARGET_TIMESPAN: u64 = 1209600;

/// The easiest target allowed, `2^224 - 1`, as 32 little-endian bytes.
pub const POW_LIMIT: [u8; 32] = [
    255, 255, 255, 255, 255, 255, 255, 255, 255, 255, 255, 255, 255, 255, 255, 255,
    255, 255, 255, 255, 255, 255, 255, 255, 255, 255, 255, 255, 0, 0, 0, 0,
];

/// How many bytes a little-endian number takes once its zero top bytes are dropped.
pub open spec fn spec_significant_bytes(b: Seq<u8>) -> nat
    decreases b.len(),
{
    if b.len() == 0 {
        0
    } else if b.last() != 0 {
        b.len()
    } else {
        spec_significant_bytes(b.drop_last())
    }
}

/// Byte `i` of `b`, or zero outside it.
pub open spec fn spec_byte_or_zero(b: Seq<u8>, i: int) -> nat {
    if 0 <= i < b.len() {
        b[i] as nat
    } else {
        0
    }
}

/// The compact encoding of a little-endian number: its size in bytes, then
/// its three top bytes; when the top one has its high bit set, the mantissa
/// is moved down a byte and the size grows by one.
pub open spec fn spec_compact_of_bytes(b: Seq<u8>) -> u32 {
    let size = spec_significant_bytes(b) as int;
    let m2 = spec_byte_or_zero(b, size - 1);
    let m1 = spec_byte_or_zero(b, size - 2);
    let m0 = spec_byte_or_zero(b, size - 3);
    if m2 >= 0x80 {
        ((size + 1) * 0x1000000 + m2 * 0x100 + m1) as u32
    } else {
        (size * 0x1000000 + m2 * 0x10000 + m1 * 0x100 + m0) as u32
    }
}

proof fn lemma_significant_bytes_bound(b: Seq<u8>)
    ensures
        spec_significant_bytes(b) <= b.len(),
        spec_significant_bytes(b) > 0 ==> b[spec_significant_bytes(b) - 1] != 0,
    decreases b.len(),
{
    if b.len() > 0 && b.last() == 0 {
        lemma_significant_bytes_bound(b.drop_last());
    }
}

/// Byte `i` of `b`, or zero outside it.
fn byte_or_zero(b: &[u8; 32], i: i64) -> (r: u8)
    ensures
        r as nat == spec_byte_or_zero(b@, i as int),
{
    if 0 <= i && i < 32 {
        b[i as usize]
    } else {
        0
    }
}

/// The compact encoding of a 256-bit number.
pub fn compact_from_u256(b: &[u8; 32]) -> (r: u32)
    ensures
        r == spec_compact_of_bytes(b@),
{
    let mut size: usize = 32;
    assert(b@.take(32) =~= b@);
    while size > 0 && b[size - 1] == 0
        invariant
            size <= 32,
            spec_significant_bytes(b@) == spec_significant_bytes(b@.take(size as int)),
        decreases size,
    {
        assert(b@.take(size as int).drop_last() =~= b@.take(size - 1));
        size = size - 1;
    }
    proof {
        if size > 0 {
            assert(b@.take(size as int).last() == b@[size - 1]);
        }
        lemma_significant_bytes_bound(b@);
    }
    assert(spec_significant_bytes(b@) == size);
    let s: i64 = size as i64;
    let m2: u32 = byte_or_zero(b, s - 1) as u32;
    let m1: u32 = byte_or_zero(b, s - 2) as u32;
    let m0: u32 = byte_or_zero(b, s - 3) as u32;
    let sz: u32 = size as u32;
    if m2 >= 0x80 {
        (sz + 1) * 0x1000000 + m2 * 0x100 + m1
    } else {
        sz * 0x1000000 + m2 * 0x10000 + m1 * 0x100 + m0
    }
}

/// The time the last interval took, held within a quarter and four times
/// the intended timespan.
pub open spec fn spec_clamped_timespan(last_timestamp: u32, first_timestamp: u32) -> int {
    let actual = last_timestamp as int - first_timestamp as int;
    if actual < POW_TARGET_TIMESPAN / 4 {
        (POW_TARGET_TIMESPAN / 4) as int
    } else if actual > POW_TARGET_TIMESPAN * 4 {
        (POW_TARGET_TIMESPAN * 4) as int
    } else {
        actual
    }
}

/// The next target: the old one scaled by how long the last interval took
/// against how long it was meant to take (the product taken modulo `2^256`),
/// and no easier than the limit.
pub open spec fn spec_next_target(last_timestamp: u32, first_timestamp: u32, bits: u32) -> nat {
    let scaled = (spec_le_value(spec_compact_target_bytes(bits)) * spec_clamped_timespan(last_timestamp, first_timestamp))
        % (u256_modulus() as int);
    let t = scaled as nat / (POW_TARGET_TIMESPAN as nat);
    if spec_le_value(POW_LIMIT@) < t {
        spec_le_value(POW_LIMIT@)
    } else {
        t
    }
}

/// The bits that follow an adjustment interval: the compact encoding of
/// the next target.
pub open spec fn spec_next_work_required(last_timestamp: u32, first_timestamp: u32, bits: u32) -> u32 {
    spec_compact_of_bytes(
        choose|t: Seq<u8>| t.len() == 32 && spec_le_value(t) == spec_next_target(last_timestamp, first_timestamp, bits),
    )
}

/// The bits the block after an adjustment interval must carry, given the
/// timestamps of the interval's last and first blocks and the current bits.
pub fn calculate_next_work_required(last_timestamp: u32, first_timestamp: u32, bits: u32) -> (r: u32)
    ensures
        r == spec_next_work_required(last_timestamp, first_timestamp, bits),
{
    let mut actual: i64 = last_timestamp as i64 - first_timestamp as i64;
    if actual < (POW_TARGET_TIMESPAN / 4) as i64 {
        actual = (POW_TARGET_TIMESPAN / 4) as i64;
    }
    if actual > (POW_TARGET_TIMESPAN * 4) as i64 {
        actual = (POW_TARGET_TIMESPAN * 4) as i64;
    }
    assert(actual == spec_clamped_timespan(last_timestamp, first_timestamp));
    let target = u256_from_compact(bits);
    let scaled = u256_wrapping_mul_u64(&target, actual as u64);
    let mut next = u256_div_u64(&scaled, POW_TARGET_TIMESPAN);
    if u256_lt(&POW_LIMIT, &next) {
        next = POW_LIMIT;
    }
    let r = compact_from_u256(&next);
    proof {
        let v = spec_next_target(last_timestamp, first_timestamp, bits);
        assert(next@.len() == 32 && spec_le_value(next@) == v);
        let t = choose|t: Seq<u8>| t.len() == 32 && spec_le_value(t) == v;
        lemma_le_value_injective(t, next@);
    }
    r
}

/// A number's bytes split at `k`: the low `k` bytes, plus `256^k` times the rest.
proof fn lemma_le_split(s: Seq<u8>, k: int)
    requires
        0 <= k <= s.len(),
    ensures
        spec_le_value(s) == spec_le_value(s.take(k)) + pow256(k as nat) * spec_le_value(s.skip(k)),
    decreases k,
{
    if k == 0 {
        assert(s.skip(0) =~= s);
        assert(s.take(0) =~= Seq::<u8>::empty());
        assert(spec_le_value(s.take(0)) == 0);
        assert(pow256(0) == 1);
        let v = spec_le_value(s);
        assert(v == 0 + 1 * v);
    } else {
        let t = s.drop_first();
        lemma_le_split(t, k - 1);
        assert(s.take(k).drop_first() =~= t.take(k - 1));
        assert(s.skip(k) =~= t.skip(k - 1));
        assert(s.take(k)[0] == s[0]);
        let a = spec_le_value(t.take(k - 1));
        let b = spec_le_value(t.skip(k - 1));
        let p = pow256((k - 1) as nat);
        assert(spec_le_value(s) == s[0] as nat + 256 * spec_le_value(t));
        assert(spec_le_value(s.take(k)) == s[0] as nat + 256 * a);
        assert(spec_le_value(t) == a + p * b);
        let pk = pow256(k as nat);
        assert(pk == 256 * p);
        let s0 = s[0] as nat;
        assert(s0 + 256 * (a + p * b) == (s0 + 256 * a) + pk * b) by (nonlinear_arith)
            requires pk == 256 * p;
    }
}

/// Every number below `256^n` has `n` little-endian bytes.
proof fn lemma_value_has_bytes(v: nat, n: nat)
    requires
        v < pow256(n),
    ensures
        exists|s: Seq<u8>| s.len() == n && spec_le_value(s) == v,
    decreases n,
{
    if n == 0 {
        assert(spec_le_value(Seq::<u8>::empty()) == 0);
    } else {
        let p = pow256((n - 1) as nat);
        assert(pow256(n) == 256 * p);
        assert(v / 256 < p) by (nonlinear_arith)
            requires v < 256 * p;
        lemma_value_has_bytes(v / 256, (n - 1) as nat);
        let r = choose|r: Seq<u8>| r.len() == n - 1 && spec_le_value(r) == v / 256;
        let s = seq![(v % 256) as u8] + r;
        assert(s.drop_first() =~= r);
        assert(spec_le_value(s) == v);
    }
}

/// The target of the easiest bits, `0xffff * 256^26`.
proof fn lemma_limit_bits_target()
    ensures
        spec_le_value(spec_compact_target_bytes(0x1d00ffff)) == 0xffff * pow256(26),
        spec_compact_target_bytes(0x1d00ffff).len() == 32,
{
    let t = spec_compact_target_bytes(0x1d00ffff);
    assert((0x1d00ffffu32 >> 24u32) == 29) by (bit_vector);
    assert((0x1d00ffffu32 & 0x007fffffu32) == 0x00ffffu32) by (bit_vector);
    assert((0x00ffffu32 & 0xffu32) == 0xffu32) by (bit_vector);
    assert(((0x00ffffu32 >> 8u32) & 0xffu32) == 0xffu32) by (bit_vector);
    assert(((0x00ffffu32 >> 16u32) & 0xffu32) == 0u32) by (bit_vector);
    assert(byte_of(0x00ffffu32, 0) == 0xff);
    assert(byte_of(0x00ffffu32, 1) == 0xff);
    assert(byte_of(0x00ffffu32, 2) == 0);
    lemma_le_split(t, 26);
    assert forall|i: int| 0 <= i < t.take(26).len() implies t.take(26)[i] == 0 by {
        assert(t.take(26)[i] == t[i]);
    }
    lemma_le_value_zero(t.take(26));
    let u = t.skip(26);
    assert(u =~= seq![0xffu8, 0xff, 0, 0, 0, 0]);
    reveal_with_fuel(spec_le_value, 7);
    assert(spec_le_value(u) == 0xffff);
    assert(spec_le_value(t.take(26)) == 0);
    assert(spec_le_value(t) == 0 + pow256(26) * spec_le_value(u));
    assert(spec_le_value(t) == pow256(26) * 0xffff);
}

/// The highest two bytes of a number `v` with `0xffff * 256^26 <= v < 256^28`
/// are `ff ff`, at bytes 27 and 26, and nothing is above them; so its
/// compact encoding is the easiest bits.
proof fn lemma_compact_near_limit(t: Seq<u8>)
    requires
        t.len() == 32,
        0xffff * pow256(26) <= spec_le_value(t) < 0x10000 * pow256(26),
    ensures
        spec_compact_of_bytes(t) == 0x1d00ffff,
{
    lemma_le_split(t, 26);
    lemma_le_value_bound(t.take(26));
    let lo = spec_le_value(t.take(26));
    let hi = spec_le_value(t.skip(26));
    let p = pow256(26);
    assert(p > 0) by {
        lemma_pow256_positive(26);
    }
    assert(hi == 0xffff) by (nonlinear_arith)
        requires
            0xffff * p <= lo + p * hi,
            lo + p * hi < 0x10000 * p,
            lo < p,
            p > 0,
    ;
    let u = t.skip(26);
    assert(u.len() == 6);
    let w = u.drop_first().drop_first();
    assert(u.drop_first().drop_first() =~= w);
    let u0 = u[0] as int;
    let u1 = u.drop_first()[0] as int;
    let rest = spec_le_value(w) as int;
    assert(spec_le_value(u) == u0 + 256 * spec_le_value(u.drop_first()));
    assert(spec_le_value(u.drop_first()) == u1 + 256 * rest);
    assert(u0 == 255 && u1 == 255 && rest == 0) by (nonlinear_arith)
        requires
            u0 + 256 * (u1 + 256 * rest) == 0xffff,
            0 <= u0 < 256,
            0 <= u1 < 256,
            rest >= 0,
    ;
    lemma_le_value_zero(w);
    assert(t[26] == 0xff && t[27] == 0xff);
    assert(t[28] == w[0] && t[29] == w[1] && t[30] == w[2] && t[31] == w[3]);
    assert(t.drop_last().drop_last().drop_last().drop_last() =~= t.take(28));
    let d1 = t.drop_last();
    let d2 = d1.drop_last();
    let d3 = d2.drop_last();
    let d4 = d3.drop_last();
    assert(t.last() == 0);
    assert(spec_significant_bytes(t) == spec_significant_bytes(d1));
    assert(d1.last() == t[30]);
    assert(spec_significant_bytes(d1) == spec_significant_bytes(d2));
    assert(d2.last() == t[29]);
    assert(spec_significant_bytes(d2) == spec_significant_bytes(d3));
    assert(d3.last() == t[28]);
    assert(spec_significant_bytes(d3) == spec_significant_bytes(d4));
    assert(d4.last() == t[27]);
    assert(spec_significant_bytes(d4) == 28);
    assert(spec_significant_bytes(t) == 28);
}

/// The limit lies between `0xffff * 256^26` and `0x10000 * 256^26`.
proof fn lemma_pow_limit_bounds()
    ensures
        0xffff * pow256(26) <= spec_le_value(POW_LIMIT@) < 0x10000 * pow256(26),
{
    let p = pow256(26);
    let limit = spec_le_value(POW_LIMIT@);
    assert(pow256(27) == 256 * p);
    assert(pow256(28) == 256 * pow256(27));
    lemma_le_split(POW_LIMIT@, 28);
    assert forall|i: int| 0 <= i < POW_LIMIT@.skip(28).len() implies POW_LIMIT@.skip(28)[i] == 0 by {
        assert(POW_LIMIT@.skip(28)[i] == POW_LIMIT@[28 + i]);
    }
    lemma_le_value_zero(POW_LIMIT@.skip(28));
    lemma_le_value_bound(POW_LIMIT@.take(28));
    assert(pow256(28) == 0x10000 * p);
    assert(limit < 0x10000 * p);
    assert(POW_LIMIT@.take(28)[26] == 0xff && POW_LIMIT@.take(28)[27] == 0xff);
    lemma_le_split(POW_LIMIT@.take(28), 26);
    assert(POW_LIMIT@.take(28).skip(26) =~= seq![0xffu8, 0xff]);
    reveal_with_fuel(spec_le_value, 3);
    assert(spec_le_value(POW_LIMIT@.take(28).skip(26)) == 0xffff);
    assert(limit >= 0xffff * p) by (nonlinear_arith)
        requires limit == spec_le_value(POW_LIMIT@.take(28).take(26)) + p * 0xffff;
}

proof fn lemma_pow256_positive(n: nat)
    ensures
        pow256(n) > 0,
    decreases n,
{
    if n > 0 {
        lemma_pow256_positive((n - 1) as nat);
    }
}

/// After an interval of at least the intended two weeks, the easiest bits
/// stay the easiest bits: the target cannot get harder when blocks came
/// slower than meant, and it is capped at the limit. (`last_timestamp` is
/// the interval's last block, `first_timestamp` its first.)
pub proof fn law_slow_interval_keeps_easiest_bits(last_timestamp: u32, first_timestamp: u32)
    requires
        last_timestamp as int - first_timestamp as int >= POW_TARGET_TIMESPAN,
    ensures
        spec_next_work_required(last_timestamp, first_timestamp, 0x1d00ffff) == 0x1d00ffff,
{
    lemma_limit_bits_target();
    let a = spec_le_value(spec_compact_target_bytes(0x1d00ffff));
    let p = pow256(26);
    lemma_pow256_positive(26);
    let ts = spec_clamped_timespan(last_timestamp, first_timestamp);
    assert(POW_TARGET_TIMESPAN <= ts <= POW_TARGET_TIMESPAN * 4);
    assert(u256_modulus() == pow256(32));
    assert(pow256(27) == 256 * p);
    assert(pow256(28) == 256 * pow256(27));
    assert(pow256(29) == 256 * pow256(28));
    assert(pow256(30) == 256 * pow256(29));
    assert(pow256(31) == 256 * pow256(30));
    assert(pow256(32) == 256 * pow256(31));
    let q = pow256(32);
    let q27 = pow256(27);
    let q28 = pow256(28);
    let q29 = pow256(29);
    let q30 = pow256(30);
    let q31 = pow256(31);
    assert(q == 0x10000 * 0x10000 * 0x10000 * p) by (nonlinear_arith)
        requires
            q27 == 256 * p,
            q28 == 256 * q27,
            q29 == 256 * q28,
            q30 == 256 * q29,
            q31 == 256 * q30,
            q == 256 * q31,
    ;
    assert(a * ts < u256_modulus()) by (nonlinear_arith)
        requires
            a == 0xffff * p,
            ts <= 4838400,
            u256_modulus() == 0x10000 * 0x10000 * 0x10000 * p,
            p > 0,
    ;
    assert((a * ts) % (u256_modulus() as int) == a * ts) by (nonlinear_arith)
        requires 0 <= a * ts < u256_modulus();
    let x = (a * ts) as nat;
    assert(x >= a * 1209600) by (nonlinear_arith)
        requires x == a * ts, ts >= 1209600, a >= 0;
    let t = x / (POW_TARGET_TIMESPAN as nat);
    assert(t >= a) by (nonlinear_arith)
        requires x >= a * 1209600, t == x / 1209600, a >= 0;
    lemma_pow_limit_bounds();
    let v = spec_next_target(last_timestamp, first_timestamp, 0x1d00ffff);
    assert(0xffff * p <= v < 0x10000 * p);
    assert(v < pow256(32)) by (nonlinear_arith)
        requires v < 0x10000 * p, pow256(32) == 0x10000 * 0x10000 * 0x10000 * p, p > 0;
    lemma_value_has_bytes(v, 32);
    let c = choose|c: Seq<u8>| c.len() == 32 && spec_le_value(c) == v;
    lemma_compact_near_limit(c);
}

/// The number `0x3fffc0 * 256^25`, a quarter of the easiest bits' target,
/// has the compact encoding `0x1c3fffc0`.
proof fn lemma_compact_quarter_limit(t: Seq<u8>)
    requires
        t.len() == 32,
        spec_le_value(t) == 0x3fffc0 * pow256(25),
    ensures
        spec_compact_of_bytes(t) == 0x1c3fffc0,
{
    let c = Seq::new(32, |i: int| if i == 25 { 0xc0u8 } else if i == 26 { 0xffu8 } else if i == 27 { 0x3fu8 } else { 0u8 });
    lemma_le_split(c, 25);
    assert forall|i: int| 0 <= i < c.take(25).len() implies c.take(25)[i] == 0 by {
        assert(c.take(25)[i] == c[i]);
    }
    lemma_le_value_zero(c.take(25));
    assert(c.skip(25) =~= seq![0xc0u8, 0xff, 0x3f, 0, 0, 0, 0]);
    reveal_with_fuel(spec_le_value, 8);
    assert(spec_le_value(c.skip(25)) == 0x3fffc0);
    assert(spec_le_value(c) == 0x3fffc0 * pow256(25));
    lemma_le_value_injective(t, c);
    let d1 = c.drop_last();
    let d2 = d1.drop_last();
    let d3 = d2.drop_last();
    let d4 = d3.drop_last();
    assert(c.last() == 0);
    assert(spec_significant_bytes(c) == spec_significant_bytes(d1));
    assert(d1.last() == c[30]);
    assert(spec_significant_bytes(d1) == spec_significant_bytes(d2));
    assert(d2.last() == c[29]);
    assert(spec_significant_bytes(d2) == spec_significant_bytes(d3));
    assert(d3.last() == c[28]);
    assert(spec_significant_bytes(d3) == spec_significant_bytes(d4));
    assert(d4.last() == c[27]);
    assert(spec_significant_bytes(d4) == 28);
    assert(spec_byte_or_zero(c, 27) == 0x3f);
    assert(spec_byte_or_zero(c, 26) == 0xff);
    assert(spec_byte_or_zero(c, 25) == 0xc0);
}

/// After an interval of at most half a week, a quarter of the intended two
/// weeks, the easiest bits give way to a target four times harder,
/// `0x1c3fffc0`: the adjustment is held to a factor of four however fast
/// the blocks came. (`last_timestamp` is the interval's last block,
/// `first_timestamp` its first.)
pub proof fn law_fast_interval_quarters_easiest_target(last_timestamp: u32, first_timestamp: u32)
    requires
        last_timestamp as int - first_timestamp as int <= POW_TARGET_TIMESPAN / 4,
    ensures
        spec_next_work_required(last_timestamp, first_timestamp, 0x1d00ffff) == 0x1c3fffc0,
{
    lemma_limit_bits_target();
    lemma_pow_limit_bounds();
    let a = spec_le_value(spec_compact_target_bytes(0x1d00ffff));
    let p25 = pow256(25);
    let p = pow256(26);
    assert(p == 256 * p25);
    lemma_pow256_positive(25);
    let ts = spec_clamped_timespan(last_timestamp, first_timestamp);
    assert(ts == 302400);
    assert(u256_modulus() == pow256(32));
    assert(pow256(27) == 256 * p);
    assert(pow256(28) == 256 * pow256(27));
    assert(pow256(29) == 256 * pow256(28));
    assert(pow256(30) == 256 * pow256(29));
    assert(pow256(31) == 256 * pow256(30));
    assert(pow256(32) == 256 * pow256(31));
    let q = pow256(32);
    let q27 = pow256(27);
    let q28 = pow256(28);
    let q29 = pow256(29);
    let q30 = pow256(30);
    let q31 = pow256(31);
    assert(q == 0x10000 * 0x10000 * 0x10000 * p) by (nonlinear_arith)
        requires
            q27 == 256 * p,
            q28 == 256 * q27,
            q29 == 256 * q28,
            q30 == 256 * q29,
            q31 == 256 * q30,
            q == 256 * q31,
    ;
    assert(a * ts < u256_modulus()) by (nonlinear_arith)
        requires
            a == 0xffff * p,
            ts == 302400,
            u256_modulus() == 0x10000 * 0x10000 * 0x10000 * p,
            p > 0,
    ;
    assert((a * ts) % (u256_modulus() as int) == a * ts) by (nonlinear_arith)
        requires 0 <= a * ts < u256_modulus();
    let k = 0x3fffc0 * p25;
    assert(a * ts == k * 1209600) by (nonlinear_arith)
        requires a == 0xffff * p, p == 256 * p25, ts == 302400, k == 0x3fffc0 * p25;
    assert((k * 1209600) as nat / (POW_TARGET_TIMESPAN as nat) == k) by (nonlinear_arith)
        requires k >= 0;
    assert(k < 0xffff * p) by (nonlinear_arith)
        requires k == 0x3fffc0 * p25, p == 256 * p25, p25 > 0;
    let v = spec_next_target(last_timestamp, first_timestamp, 0x1d00ffff);
    assert(v == k);
    assert(v < pow256(32)) by (nonlinear_arith)
        requires v < 0xffff * p, pow256(32) == 0x10000 * 0x10000 * 0x10000 * p, p > 0;
    lemma_value_has_bytes(v, 32);
    let c = choose|c: Seq<u8>| c.len() == 32 && spec_le_value(c) == v;
    lemma_compact_quarter_limit(c);
}

} // verus!
