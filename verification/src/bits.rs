//! Canonical little-endian bit decomposition of a scalar.
//!
//! The Pedersen hash consumes the 254 little-endian bits of its input; the
//! in-circuit gadget allocates the same sequence, with boolean constraints on
//! each bit and a field-sum constraint that reconstructs the scalar. This
//! module computes that sequence and proves that it determines the value.

use vstd::prelude::*;
use crate::scalar::Scalar;

verus! {

use vstd::arithmetic::power2::pow2;
use vstd::arithmetic::power2::lemma2_to64;
use vstd::arithmetic::power2::lemma_pow2_adds;
use vstd::arithmetic::power2::lemma_pow2_pos;
use vstd::arithmetic::div_mod::lemma_div_denominator;
use vstd::arithmetic::div_mod::lemma_small_mod;
use vstd::arithmetic::div_mod::lemma_mod_breakdown;

/// How many bits of a scalar the hash consumes: the bit length of the field.
pub const SCALAR_BITS: usize = 254;

/// The first `n` little-endian bits of `v`: bit `i` is the parity of
/// `v / 2^i`.
pub open spec fn le_bits_of(v: nat, n: nat) -> Seq<bool>
    decreases n,
{
    if n == 0 {
        Seq::empty()
    } else {
        seq![v % 2 == 1].add(le_bits_of(v / 2, (n - 1) as nat))
    }
}

/// The integer a little-endian bit sequence denotes.
pub open spec fn from_le_bits(bits: Seq<bool>) -> nat
    decreases bits.len(),
{
    if bits.len() == 0 {
        0
    } else {
        (if bits[0] {
            1nat
        } else {
            0nat
        }) + 2 * from_le_bits(bits.drop_first())
    }
}

pub proof fn lemma_le_bits_of_len(v: nat, n: nat)
    ensures
        le_bits_of(v, n).len() == n,
    decreases n,
{
    if n > 0 {
        lemma_le_bits_of_len(v / 2, (n - 1) as nat);
    }
}

/// Appending the next bit extends the decomposition by one position.
proof fn lemma_le_bits_of_snoc(v: nat, n: nat)
    ensures
        le_bits_of(v, n + 1) == le_bits_of(v, n).push(v / pow2(n) % 2 == 1),
    decreases n,
{
    lemma_le_bits_of_len(v, n);
    lemma_le_bits_of_len(v / 2, n);
    if n == 0 {
        lemma2_to64();
        assert(le_bits_of(v, 1) =~= le_bits_of(v, 0).push(v / pow2(0) % 2 == 1));
    } else {
        lemma_le_bits_of_snoc(v / 2, (n - 1) as nat);
        lemma_pow2_pos((n - 1) as nat);
        lemma_div_denominator(v as int, 2, pow2((n - 1) as nat) as int);
        assert(pow2(n) == 2 * pow2((n - 1) as nat)) by {
            lemma_pow2_adds(1, (n - 1) as nat);
            lemma2_to64();
        }
        assert(v / 2 / pow2((n - 1) as nat) == v / pow2(n));
        assert(le_bits_of(v, n + 1) == seq![v % 2 == 1].add(
            le_bits_of(v / 2, (n - 1) as nat).push(v / pow2(n) % 2 == 1),
        ));
        assert(le_bits_of(v, n + 1) =~= le_bits_of(v, n).push(v / pow2(n) % 2 == 1));
    }
}

/// The decomposition of `lo + 2^k * hi` splits at position `k` when `lo`
/// fits in `k` bits.
proof fn lemma_le_bits_of_split(lo: nat, hi: nat, k: nat, m: nat)
    requires
        lo < pow2(k),
    ensures
        le_bits_of((lo + pow2(k) * hi) as nat, (k + m) as nat) == le_bits_of(lo, k).add(
            le_bits_of(hi, m),
        ),
    decreases k,
{
    lemma_pow2_pos(k);
    if k == 0 {
        lemma2_to64();
        assert(lo == 0);
        assert(le_bits_of((lo + pow2(0) * hi) as nat, m) =~= le_bits_of(lo, 0).add(
            le_bits_of(hi, m),
        ));
    } else {
        let k1 = (k - 1) as nat;
        lemma_pow2_pos(k1);
        assert(pow2(k) == 2 * pow2(k1)) by {
            lemma_pow2_adds(1, k1);
            lemma2_to64();
        }
        let v: nat = (lo + pow2(k) * hi) as nat;
        let half: nat = (lo / 2 + pow2(k1) * hi) as nat;
        assert(v == lo + 2 * (pow2(k1) * hi)) by (nonlinear_arith)
            requires
                v == lo + pow2(k) * hi,
                pow2(k) == 2 * pow2(k1),
        ;
        assert(v % 2 == lo % 2 && v / 2 == half) by (nonlinear_arith)
            requires
                v == lo + 2 * (pow2(k1) * hi),
                half == lo / 2 + pow2(k1) * hi,
        ;
        assert(lo / 2 < pow2(k1)) by (nonlinear_arith)
            requires
                lo < pow2(k),
                pow2(k) == 2 * pow2(k1),
        ;
        lemma_le_bits_of_split(lo / 2, hi, k1, m);
        lemma_le_bits_of_len(lo / 2, k1);
        lemma_le_bits_of_len(hi, m);
        assert(le_bits_of(v, (k + m) as nat) == seq![lo % 2 == 1].add(
            le_bits_of(lo / 2, k1).add(le_bits_of(hi, m)),
        ));
        assert(le_bits_of(lo, k) == seq![lo % 2 == 1].add(le_bits_of(lo / 2, k1)));
        assert(le_bits_of(v, (k + m) as nat) =~= le_bits_of(lo, k).add(le_bits_of(hi, m)));
    }
}

/// The field-sum reconstruction law: summing `bits[i] * 2^i` over the first
/// `n` little-endian bits of `v` gives back `v` modulo `2^n`; in particular
/// a value that fits in `n` bits is determined by its decomposition.
pub proof fn lemma_le_bits_round_trip(v: nat, n: nat)
    ensures
        from_le_bits(le_bits_of(v, n)) == v % pow2(n),
        v < pow2(n) ==> from_le_bits(le_bits_of(v, n)) == v,
    decreases n,
{
    lemma_pow2_pos(n);
    lemma_le_bits_of_len(v, n);
    if n == 0 {
        lemma2_to64();
        lemma_small_mod(0, 1);
    } else {
        let n1 = (n - 1) as nat;
        lemma_pow2_pos(n1);
        lemma_le_bits_round_trip(v / 2, n1);
        lemma_le_bits_of_len(v / 2, n1);
        assert(le_bits_of(v, n).drop_first() =~= le_bits_of(v / 2, n1));
        assert(from_le_bits(le_bits_of(v, n)) == (if v % 2 == 1 {
            1nat
        } else {
            0nat
        }) + 2 * (v / 2 % pow2(n1)));
        assert(pow2(n) == 2 * pow2(n1)) by {
            lemma_pow2_adds(1, n1);
            lemma2_to64();
        }
        lemma_mod_breakdown(v as int, 2, pow2(n1) as int);
        assert(v % pow2(n) == 2 * (v / 2 % pow2(n1)) + v % 2);
        if v < pow2(n) {
            lemma_small_mod(v, pow2(n));
        }
    }
}

/// Pushes the low `n` bits of `limb`, least significant first.
fn push_limb_bits(bits: &mut Vec<bool>, limb: u64, n: usize)
    requires
        n <= 64,
    ensures
        final(bits)@ == old(bits)@.add(le_bits_of(limb as nat, n as nat)),
{
    let mut cur: u64 = limb;
    let mut j: usize = 0;
    proof {
        lemma2_to64();
        assert(bits@ =~= bits@.add(le_bits_of(limb as nat, 0)));
    }
    while j < n
        invariant
            j <= n,
            n <= 64,
            cur as nat == limb as nat / pow2(j as nat),
            bits@ == old(bits)@.add(le_bits_of(limb as nat, j as nat)),
        decreases n - j,
    {
        let bit: bool = cur & 1 == 1;
        proof {
            assert(cur & 1 == cur % 2) by (bit_vector);
            lemma_le_bits_of_snoc(limb as nat, j as nat);
            lemma_le_bits_of_len(limb as nat, j as nat);
            assert(old(bits)@.add(le_bits_of(limb as nat, (j + 1) as nat)) =~= old(bits)@.add(
                le_bits_of(limb as nat, j as nat),
            ).push(limb as nat / pow2(j as nat) % 2 == 1));
        }
        bits.push(bit);
        proof {
            assert(cur >> 1u64 == cur / 2) by (bit_vector);
            lemma_pow2_pos(j as nat);
            lemma_div_denominator(limb as int, pow2(j as nat) as int, 2);
            assert(pow2((j + 1) as nat) == pow2(j as nat) * 2) by {
                lemma_pow2_adds(j as nat, 1);
                lemma2_to64();
            }
        }
        cur = cur >> 1u64;
        j = j + 1;
    }
}

/// The 254 canonical little-endian bits of the scalar, exactly the sequence
/// the Pedersen hash and the in-circuit decomposition gadget consume.
pub fn le_bits(s: &Scalar) -> (bits: Vec<bool>)
    ensures
        bits@ == le_bits_of(s.val(), SCALAR_BITS as nat),
        bits@.len() == SCALAR_BITS,
{
    let mut bits: Vec<bool> = Vec::new();
    push_limb_bits(&mut bits, s.l0, 64);
    push_limb_bits(&mut bits, s.l1, 64);
    push_limb_bits(&mut bits, s.l2, 64);
    push_limb_bits(&mut bits, s.l3, 62);
    proof {
        lemma2_to64();
        let p: nat = pow2(64);
        let r2: nat = (s.l2 + p * s.l3) as nat;
        let r1: nat = (s.l1 + p * r2) as nat;
        assert(s.val() == (s.l0 + p * r1) as nat);
        lemma_le_bits_of_split(s.l0 as nat, r1, 64, 190);
        lemma_le_bits_of_split(s.l1 as nat, r2, 64, 126);
        lemma_le_bits_of_split(s.l2 as nat, s.l3 as nat, 64, 62);
        lemma_le_bits_of_len(s.val(), 254);
        lemma_le_bits_of_len(s.l0 as nat, 64);
        lemma_le_bits_of_len(s.l1 as nat, 64);
        lemma_le_bits_of_len(s.l2 as nat, 64);
        lemma_le_bits_of_len(s.l3 as nat, 62);
        lemma_le_bits_of_len(r1, 190);
        lemma_le_bits_of_len(r2, 126);
        assert(bits@ =~= le_bits_of(s.val(), 254));
    }
    bits
}

} // verus!
