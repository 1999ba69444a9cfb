//! 256-bit unsigned numbers, held as 32 little-endian bytes.
use vstd::prelude::*;

verus! {

broadcast use vstd::seq_lib::group_seq_properties;

/// `256^n`.
pub open spec fn pow256(n: nat) -> nat
    decreases n,
{
    if n == 0 {
        1
    } else {
        256 * pow256((n - 1) as nat)
    }
}

/// `2^256`, one more than the largest 256-bit number.
pub open spec fn u256_modulus() -> nat {
    pow256(32)
}

/// The number whose little-endian bytes are `s`.
pub open spec fn spec_le_value(s: Seq<u8>) -> nat
    decreases s.len(),
{
    if s.len() == 0 {
        0
    } else {
        s[0] as nat + 256 * spec_le_value(s.drop_first())
    }
}

/// A number of `n` bytes is below `256^n`, and below `256^(n-1)` times one
/// more than its top byte.
pub proof fn lemma_le_value_bound(s: Seq<u8>)
    ensures
        spec_le_value(s) < pow256(s.len()),
        s.len() > 0 ==> spec_le_value(s) < pow256((s.len() - 1) as nat) * (s.last() as nat + 1),
    decreases s.len(),
{
    if s.len() > 0 {
        let t = s.drop_first();
        lemma_le_value_bound(t);
        if s.len() == 1 {
            assert(t.len() == 0);
            assert(s.last() == s[0]);
            assert(pow256(0) == 1);
            assert(spec_le_value(t) == 0);
            assert(spec_le_value(s) == s[0] as nat);
            assert(((s.len() - 1) as nat) == 0);
            let l = s.last() as nat + 1;
            assert(pow256(0) * l == l) by (nonlinear_arith)
                requires pow256(0) == 1;
        } else {
            assert(pow256((s.len() - 1) as nat) == 256 * pow256((t.len() - 1) as nat));
            assert(t.last() == s.last());
            let p = pow256((t.len() - 1) as nat);
            let l = s.last() as nat + 1;
            assert(spec_le_value(t) + 1 <= p * l);
            assert(spec_le_value(s) == s[0] as nat + 256 * spec_le_value(t));
            let v = spec_le_value(s);
            let vt = spec_le_value(t);
            let s0 = s[0] as nat;
            assert(v < (256 * p) * l) by (nonlinear_arith)
                requires
                    v == s0 + 256 * vt,
                    vt + 1 <= p * l,
                    s0 < 256,
            ;
            assert(spec_le_value(s) < pow256((s.len() - 1) as nat) * (s.last() as nat + 1));
        }
    }
}

/// A number is zero exactly when all of its bytes are.
pub proof fn lemma_le_value_zero(s: Seq<u8>)
    ensures
        spec_le_value(s) == 0 <==> (forall|i: int| 0 <= i < s.len() ==> s[i] == 0),
    decreases s.len(),
{
    if s.len() > 0 {
        lemma_le_value_zero(s.drop_first());
        if spec_le_value(s) == 0 {
            assert forall|i: int| 0 <= i < s.len() implies s[i] == 0 by {
                if i > 0 {
                    assert(s[i] == s.drop_first()[i - 1]);
                }
            }
        }
        if forall|i: int| 0 <= i < s.len() ==> s[i] == 0 {
            assert forall|i: int| 0 <= i < s.drop_first().len() implies s.drop_first()[i] == 0 by {
                assert(s.drop_first()[i] == s[i + 1]);
            }
        }
    }
}

pub proof fn lemma_pow256_32()
    ensures
        pow256(31) * 128 < pow256(32) - 1,
        pow256(32) == 256 * pow256(31),
{
    reveal_with_fuel(pow256, 33);
}

/// A 32-byte number whose lowest byte is zero is not the largest 256-bit number.
pub proof fn lemma_low_byte_zero(s: Seq<u8>)
    requires
        s.len() == 32,
        s[0] == 0,
    ensures
        spec_le_value(s) + 1 < u256_modulus(),
{
    lemma_le_value_bound(s.drop_first());
    lemma_pow256_32();
    assert(spec_le_value(s) == 256 * spec_le_value(s.drop_first()));
}

/// A 32-byte number whose top byte is below 0x80 is below `2^255`, so
/// neither it nor one more than it is the largest 256-bit number.
pub proof fn lemma_top_byte_small(s: Seq<u8>)
    requires
        s.len() == 32,
        s[31] < 0x80,
    ensures
        spec_le_value(s) < pow256(31) * 128,
        spec_le_value(s) + 1 < u256_modulus(),
{
    lemma_le_value_bound(s);
    lemma_pow256_32();
    assert(pow256(31) * (s.last() as nat + 1) <= pow256(31) * 128) by (nonlinear_arith)
        requires s.last() < 0x80;
}

/// Two byte strings of one length hold the same number only when they are equal.
pub proof fn lemma_le_value_injective(a: Seq<u8>, b: Seq<u8>)
    requires
        a.len() == b.len(),
        spec_le_value(a) == spec_le_value(b),
    ensures
        a == b,
    decreases a.len(),
{
    if a.len() > 0 {
        let va = spec_le_value(a.drop_first());
        let vb = spec_le_value(b.drop_first());
        let a0 = a[0] as nat;
        let b0 = b[0] as nat;
        assert(a0 == b0 && va == vb) by (nonlinear_arith)
            requires
                a0 + 256 * va == b0 + 256 * vb,
                a0 < 256,
                b0 < 256,
        ;
        lemma_le_value_injective(a.drop_first(), b.drop_first());
        assert(a =~= seq![a[0]] + a.drop_first());
        assert(b =~= seq![b[0]] + b.drop_first());
    } else {
        assert(a =~= b);
    }
}

/// Bytes that are each 255 minus the other's make up `256^n - 1` together.
proof fn lemma_complement_value(s: Seq<u8>, t: Seq<u8>)
    requires
        s.len() == t.len(),
        forall|i: int| 0 <= i < s.len() ==> #[trigger] t[i] as int == 255 - s[i] as int,
    ensures
        spec_le_value(s) + spec_le_value(t) == pow256(s.len()) - 1,
    decreases s.len(),
{
    if s.len() > 0 {
        assert forall|i: int| 0 <= i < s.drop_first().len() implies #[trigger] t.drop_first()[i] as int
            == 255 - s.drop_first()[i] as int by {
            assert(t.drop_first()[i] == t[i + 1] && s.drop_first()[i] == s[i + 1]);
        }
        lemma_complement_value(s.drop_first(), t.drop_first());
        assert(t[0] as int == 255 - s[0] as int);
        assert(pow256(s.len()) == 256 * pow256((s.len() - 1) as nat));
    }
}

/// The complement of a 256-bit number: every bit flipped, `2^256 - 1 - a`.
pub fn u256_not(a: &[u8; 32]) -> (r: [u8; 32])
    ensures
        spec_le_value(r@) == u256_modulus() - 1 - spec_le_value(a@),
{
    let mut r = [0u8; 32];
    let mut i: usize = 0;
    while i < 32
        invariant
            i <= 32,
            forall|j: int| 0 <= j < i ==> #[trigger] r@[j] as int == 255 - a@[j] as int,
        decreases 32 - i,
    {
        r[i] = 255 - a[i];
        i = i + 1;
    }
    proof {
        lemma_complement_value(a@, r@);
    }
    r
}

/// The number one.
pub fn u256_one() -> (r: [u8; 32])
    ensures
        spec_le_value(r@) == 1,
{
    let mut r = [0u8; 32];
    r[0] = 1;
    proof {
        assert forall|i: int| 0 <= i < r@.drop_first().len() implies r@.drop_first()[i] == 0 by {
            assert(r@.drop_first()[i] == r@[i + 1]);
        }
        lemma_le_value_zero(r@.drop_first());
    }
    r
}

/// The work needed to meet target `t`: `!t / (t + 1) + 1`, that is
/// `(2^256 - 1 - t) / (t + 1) + 1`, the expected number of hashes.
pub(crate) fn u256_work_from_target(target: &[u8; 32]) -> (r: [u8; 32])
    requires
        0 < spec_le_value(target@),
        spec_le_value(target@) + 1 < u256_modulus(),
    ensures
        spec_le_value(r@) == (u256_modulus() - 1 - spec_le_value(target@)) as nat / (spec_le_value(target@) + 1) + 1,
{
    let one = u256_one();
    let inverted = u256_not(target);
    let divisor = u256_checked_add(target, &one).unwrap();
    let quotient = u256_div(&inverted, &divisor);
    proof {
        let t = spec_le_value(target@);
        let n = (u256_modulus() - 1 - t) as nat;
        assert(n / (t + 1) <= n) by (nonlinear_arith)
            requires t >= 0;
    }
    u256_checked_add(&quotient, &one).unwrap()
}

/// Calls `/` on two `primitive_types::U256`: the quotient rounded down.
/// `/` panics on a zero divisor.
#[verifier::external_body]
pub(crate) fn u256_div(a: &[u8; 32], b: &[u8; 32]) -> (r: [u8; 32])
    requires
        spec_le_value(b@) > 0,
    ensures
        spec_le_value(r@) == spec_le_value(a@) / spec_le_value(b@),
{
    (primitive_types::U256::from_little_endian(a) / primitive_types::U256::from_little_endian(b)).to_little_endian()
}

/// Calls `primitive_types::U256::checked_add`: the sum, or `None` when it
/// does not fit in 256 bits.
#[verifier::external_body]
pub(crate) fn u256_checked_add(a: &[u8; 32], b: &[u8; 32]) -> (r: Option<[u8; 32]>)
    ensures
        r is Some <==> spec_le_value(a@) + spec_le_value(b@) < u256_modulus(),
        r matches Some(s) ==> spec_le_value(s@) == spec_le_value(a@) + spec_le_value(b@),
{
    primitive_types::U256::from_little_endian(a)
        .checked_add(primitive_types::U256::from_little_endian(b))
        .map(|v| v.to_little_endian())
}

/// Calls `<` on two `primitive_types::U256`, which orders them as numbers.
#[verifier::external_body]
pub(crate) fn u256_lt(a: &[u8; 32], b: &[u8; 32]) -> (r: bool)
    ensures
        r == (spec_le_value(a@) < spec_le_value(b@)),
{
    primitive_types::U256::from_little_endian(a) < primitive_types::U256::from_little_endian(b)
}

/// Calls `primitive_types::U256::overflowing_mul` with `U256::from(m)` and
/// keeps the product: the low 256 bits of `a * m`.
#[verifier::external_body]
pub(crate) fn u256_wrapping_mul_u64(a: &[u8; 32], m: u64) -> (r: [u8; 32])
    ensures
        spec_le_value(r@) == (spec_le_value(a@) * (m as nat)) % u256_modulus(),
{
    primitive_types::U256::from_little_endian(a).overflowing_mul(primitive_types::U256::from(m)).0.to_little_endian()
}

/// Calls `/` on `primitive_types::U256` with `U256::from(d)`: the quotient
/// rounded down. `/` panics on a zero divisor.
#[verifier::external_body]
pub(crate) fn u256_div_u64(a: &[u8; 32], d: u64) -> (r: [u8; 32])
    requires
        d > 0,
    ensures
        spec_le_value(r@) == spec_le_value(a@) / (d as nat),
{
    (primitive_types::U256::from_little_endian(a) / primitive_types::U256::from(d)).to_little_endian()
}

} // verus!
