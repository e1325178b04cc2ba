//! Big-endian byte strings read as natural numbers.
use vstd::prelude::*;

use vstd::arithmetic::div_mod::lemma_fundamental_div_mod_converse_div;
use vstd::arithmetic::power2::{lemma2_to64, lemma_pow2_adds, pow2};

verus! {

/// The number that a big-endian byte string denotes.
pub open spec fn be_value(s: Seq<u8>) -> nat
    decreases s.len(),
{
    if s.len() == 0 {
        0
    } else {
        be_value(s.drop_last()) * 256 + (s.last() as nat)
    }
}

/// `256^k`.
pub open spec fn pow256(k: nat) -> nat
    decreases k,
{
    if k == 0 {
        1
    } else {
        256 * pow256((k - 1) as nat)
    }
}

/// The largest 256-bit number, `2^256 - 1`.
pub open spec fn max_u256() -> nat {
    (pow256(32) - 1) as nat
}

/// A byte string as `BigUint::to_bytes_be` renders a number: no leading zero
/// byte, and a single zero byte for zero.
pub open spec fn is_minimal(s: Seq<u8>) -> bool {
    s.len() >= 1 && (s.len() > 1 ==> s[0] != 0)
}

/// The number of bytes in the minimal big-endian rendering of `v`.
pub open spec fn byte_len(v: nat) -> nat
    decreases v,
{
    if v < 256 {
        1
    } else {
        1 + byte_len(v / 256)
    }
}

pub open spec fn zeros(k: nat) -> Seq<u8> {
    Seq::new(k, |i: int| 0u8)
}

pub open spec fn ones(k: nat) -> Seq<u8> {
    Seq::new(k, |i: int| 0xffu8)
}

pub proof fn lemma_pow256_pos(k: nat)
    ensures
        pow256(k) >= 1,
    decreases k,
{
    if k > 0 {
        lemma_pow256_pos((k - 1) as nat);
    }
}

pub proof fn lemma_pow256_mono(a: nat, b: nat)
    requires
        a <= b,
    ensures
        pow256(a) <= pow256(b),
    decreases b,
{
    if a < b {
        lemma_pow256_mono(a, (b - 1) as nat);
        lemma_pow256_pos((b - 1) as nat);
    }
}

pub proof fn lemma_pow256_adds(a: nat, b: nat)
    ensures
        pow256(a + b) == pow256(a) * pow256(b),
    decreases b,
{
    if b > 0 {
        lemma_pow256_adds(a, (b - 1) as nat);
        assert((a + b - 1) as nat == a + ((b - 1) as nat));
        assert(pow256(a + b) == 256 * pow256((a + b - 1) as nat));
        assert(pow256(b) == 256 * pow256((b - 1) as nat));
        assert(pow256(a) * (256 * pow256((b - 1) as nat)) == 256 * (pow256(a) * pow256(
            (b - 1) as nat,
        ))) by (nonlinear_arith);
    } else {
        assert(pow256(0) == 1);
        assert(a + b == a);
    }
}

/// `256^k` is `2^(8k)`.
pub proof fn lemma_pow256_pow2(k: nat)
    ensures
        pow256(k) == pow2(8 * k),
    decreases k,
{
    if k == 0 {
        lemma2_to64();
    } else {
        lemma_pow256_pow2((k - 1) as nat);
        lemma_pow2_adds(8 * ((k - 1) as nat), 8);
        lemma2_to64();
        assert(8 * ((k - 1) as nat) + 8 == 8 * k);
    }
}

pub proof fn lemma_be_value_append(a: Seq<u8>, b: Seq<u8>)
    ensures
        be_value(a + b) == be_value(a) * pow256(b.len()) + be_value(b),
    decreases b.len(),
{
    if b.len() == 0 {
        assert(a + b =~= a);
        assert(pow256(0) == 1);
        assert(be_value(b) == 0);
    } else {
        let b2 = b.drop_last();
        lemma_be_value_append(a, b2);
        assert((a + b).drop_last() =~= a + b2);
        assert((a + b).last() == b.last());
        assert(be_value(a + b) == be_value(a + b2) * 256 + (b.last() as nat));
        assert(be_value(b) == be_value(b2) * 256 + (b.last() as nat));
        assert(pow256(b.len()) == 256 * pow256(b2.len()));
        let x = be_value(a);
        let p = pow256(b2.len());
        let y = be_value(b2);
        assert((x * p + y) * 256 + (b.last() as nat) == x * (256 * p) + (y * 256 + (b.last() as nat)))
            by (nonlinear_arith);
    }
}

pub proof fn lemma_be_value_bound(s: Seq<u8>)
    ensures
        be_value(s) < pow256(s.len()),
    decreases s.len(),
{
    if s.len() > 0 {
        lemma_be_value_bound(s.drop_last());
        let v = be_value(s.drop_last());
        let p = pow256((s.len() - 1) as nat);
        assert(v * 256 + (s.last() as nat) < 256 * p) by (nonlinear_arith)
            requires
                v < p,
                (s.last() as nat) <= 255,
        ;
    }
}

pub proof fn lemma_be_value_single(x: u8)
    ensures
        be_value(seq![x]) == x as nat,
{
    assert(seq![x].drop_last() =~= Seq::<u8>::empty());
    assert(be_value(Seq::<u8>::empty()) == 0);
}

/// A leading non-zero byte puts the value at or above `256^(len-1)`.
pub proof fn lemma_be_value_lower(s: Seq<u8>)
    requires
        s.len() >= 1,
        s[0] != 0,
    ensures
        be_value(s) >= pow256((s.len() - 1) as nat),
{
    let rest = s.drop_first();
    assert(seq![s[0]] + rest =~= s);
    lemma_be_value_append(seq![s[0]], rest);
    lemma_be_value_single(s[0]);
    let p = pow256(rest.len());
    assert((s[0] as nat) * p >= p) by (nonlinear_arith)
        requires
            (s[0] as nat) >= 1,
    ;
}

pub proof fn lemma_be_value_zeros(k: nat)
    ensures
        be_value(zeros(k)) == 0,
    decreases k,
{
    if k > 0 {
        assert(zeros(k).drop_last() =~= zeros((k - 1) as nat));
        lemma_be_value_zeros((k - 1) as nat);
    }
}

pub proof fn lemma_be_value_ones(k: nat)
    ensures
        be_value(ones(k)) == pow256(k) - 1,
    decreases k,
{
    if k > 0 {
        assert(ones(k).drop_last() =~= ones((k - 1) as nat));
        lemma_be_value_ones((k - 1) as nat);
        lemma_pow256_pos((k - 1) as nat);
    }
}

/// Leading zero bytes do not change the value.
pub proof fn lemma_be_value_leading_zeros(s: Seq<u8>, i: int)
    requires
        0 <= i <= s.len(),
        forall|j: int| 0 <= j < i ==> s[j] == 0,
    ensures
        be_value(s) == be_value(s.subrange(i, s.len() as int)),
{
    let z = s.subrange(0, i);
    let t = s.subrange(i, s.len() as int);
    assert(z =~= zeros(i as nat));
    assert(z + t =~= s);
    lemma_be_value_append(z, t);
    lemma_be_value_zeros(i as nat);
}

/// The minimal rendering of a number has `byte_len` bytes.
pub proof fn lemma_byte_len(v: nat, len: nat)
    requires
        len >= 1,
        v < pow256(len),
        len == 1 || v >= pow256((len - 1) as nat),
    ensures
        byte_len(v) == len,
    decreases len,
{
    if len > 1 {
        let p = pow256((len - 2) as nat);
        assert(pow256((len - 1) as nat) == 256 * p);
        assert(pow256(len) == 256 * (256 * p));
        lemma_pow256_pos((len - 2) as nat);
        assert(v >= 256);
        assert(v / 256 < 256 * p) by (nonlinear_arith)
            requires
                v < 256 * (256 * p),
        ;
        assert(len - 1 == 1 || v / 256 >= p) by (nonlinear_arith)
            requires
                v >= 256 * p,
        ;
        lemma_byte_len(v / 256, (len - 1) as nat);
    } else {
        reveal_with_fuel(pow256, 2);
    }
}

/// A minimal rendering holds exactly `byte_len` bytes.
pub proof fn lemma_minimal_len(s: Seq<u8>)
    requires
        is_minimal(s),
    ensures
        byte_len(be_value(s)) == s.len(),
        be_value(s) < pow256(s.len()),
        s.len() > 1 ==> be_value(s) >= pow256((s.len() - 1) as nat),
{
    lemma_be_value_bound(s);
    if s.len() > 1 {
        lemma_be_value_lower(s);
    }
    lemma_byte_len(be_value(s), s.len());
}

/// Splitting off the last `k` bytes divides by `256^k`.
pub proof fn lemma_be_value_div(s: Seq<u8>, k: int)
    requires
        0 <= k <= s.len(),
    ensures
        be_value(s) / pow256(k as nat) == be_value(s.subrange(0, s.len() - k)),
{
    let a = s.subrange(0, s.len() - k);
    let b = s.subrange(s.len() - k, s.len() as int);
    assert(a + b =~= s);
    lemma_be_value_append(a, b);
    lemma_be_value_bound(b);
    lemma_pow256_pos(k as nat);
    lemma_fundamental_div_mod_converse_div(
        be_value(s) as int,
        pow256(k as nat) as int,
        be_value(a) as int,
        be_value(b) as int,
    );
}

} // verus!
