//! Bit-packed truth tables: the boolean function of an operator of `n`
//! inputs, stored as a bit vector of length `2^n`.
//!
//! For an input assignment `(b0, ..., b_{n-1})` the addressed bit sits at
//! position `sum b_i * 2^i`, little-endian by argument position
//! ([`spec_index`]). The model of a table is the sequence of its bits.

use bitvec::order::Lsb0;
use bitvec::vec::BitVec;
use vstd::arithmetic::power2::{lemma_pow2_pos, lemma_pow2_strictly_increases, lemma_pow2_unfold, pow2};
use vstd::prelude::*;

verus! {

broadcast use vstd::seq::group_seq_axioms;

/// A bit vector, held behind an opaque wrapper.
#[verifier::external_body]
pub struct Bits {
    inner: BitVec<usize, Lsb0>,
}

/// The bits a bit vector holds, in index order.
pub uninterp spec fn bits_of(v: Bits) -> Seq<bool>;

/// Relies on `BitVec::repeat`: a vector of `len` copies of `bit`.
#[verifier::external_body]
fn bits_repeat(bit: bool, len: usize) -> (r: Bits)
    ensures
        bits_of(r) == Seq::new(len as nat, |i: int| bit),
{
    Bits { inner: BitVec::repeat(bit, len) }
}

/// Relies on the `BitSlice::len` the vector dereferences to.
#[verifier::external_body]
fn bits_len(v: &Bits) -> (r: usize)
    ensures
        r as nat == bits_of(*v).len(),
{
    v.inner.len()
}

/// Relies on `BitSlice::set`: writes one bit in place; it panics on an index
/// out of range, which the precondition keeps out.
#[verifier::external_body]
fn bits_set(v: &mut Bits, i: usize, b: bool)
    requires
        (i as int) < bits_of(*old(v)).len(),
    ensures
        bits_of(*final(v)) == bits_of(*old(v)).update(i as int, b),
{
    v.inner.set(i, b);
}

/// Relies on the `Index` impl of `BitSlice`: reads one bit; it panics on an
/// index out of range, which the precondition keeps out.
#[verifier::external_body]
fn bits_get(v: &Bits, i: usize) -> (r: bool)
    requires
        (i as int) < bits_of(*v).len(),
    ensures
        r == bits_of(*v)[i as int],
{
    v.inner[i]
}

/// Relies on `PartialEq` for `BitVec`: equal lengths and equal bits at every
/// index.
#[verifier::external_body]
fn bits_eq(a: &Bits, b: &Bits) -> (r: bool)
    ensures
        r == (bits_of(*a) == bits_of(*b)),
{
    a.inner == b.inner
}

/// Relies on `Clone` for `BitVec`: the copy holds the same bits.
#[verifier::external_body]
fn bits_clone(v: &Bits) -> (r: Bits)
    ensures
        bits_of(r) == bits_of(*v),
{
    Bits { inner: v.inner.clone() }
}

/// A bit-packed boolean function of `n` inputs.
pub struct TruthTable {
    output: Bits,
}

impl View for TruthTable {
    type V = Seq<bool>;

    closed spec fn view(&self) -> Seq<bool> {
        bits_of(self.output)
    }
}

/// The floor base-two logarithm.
pub open spec fn lg(n: nat) -> nat
    decreases n,
{
    if n <= 1 {
        0
    } else {
        1 + lg(n / 2)
    }
}

/// `lg` inverts `pow2`.
pub proof fn lemma_lg_pow2(n: nat)
    ensures
        lg(pow2(n)) == n,
    decreases n,
{
    if n > 0 {
        lemma_pow2_unfold(n);
        lemma_pow2_pos(n);
        lemma_pow2_pos((n - 1) as nat);
        lemma_lg_pow2((n - 1) as nat);
    } else {
        vstd::arithmetic::power2::lemma2_to64();
    }
}

/// The addressed position of an input assignment: `sum b_i * 2^i`,
/// little-endian by argument position.
pub open spec fn spec_index(values: Seq<bool>) -> nat
    decreases values,
{
    if values.len() == 0 {
        0
    } else {
        (if values[0] {
            1nat
        } else {
            0nat
        }) + 2 * spec_index(values.drop_first())
    }
}

/// The addressed position lies inside a table of `2^n` bits for `n` inputs.
pub proof fn lemma_spec_index_bound(values: Seq<bool>)
    ensures
        spec_index(values) < pow2(values.len()),
    decreases values,
{
    if values.len() > 0 {
        lemma_spec_index_bound(values.drop_first());
        lemma_pow2_unfold(values.len());
        assert(pow2(values.len()) == 2 * pow2((values.len() - 1) as nat));
    } else {
        vstd::arithmetic::power2::lemma2_to64();
    }
}

/// Truth-table round trip: in a well-shaped table, setting the bit of an
/// input assignment and reading the same assignment back returns the stored
/// value.
pub proof fn lemma_truth_table_round_trip(table: Seq<bool>, values: Seq<bool>, b: bool)
    requires
        table.len() == pow2(values.len()),
    ensures
        table.update(spec_index(values) as int, b)[spec_index(values) as int] == b,
{
    lemma_spec_index_bound(values);
}


/// With at least two positions left to halve, doubling the counted power of
/// two stays within the length.
proof fn lemma_lg_le(x: nat, len: nat, c: nat)
    requires
        x >= 2,
        pow2(c) <= len,
        lg(len) == c + lg(x),
    ensures
        pow2(c + 1) <= len,
{
    lemma_pow2_pos(c);
    assert(lg(x) >= 1);
    lemma_lg_mono_pow(len, c + 1);
}

/// If `lg(len) >= m` then `pow2(m) <= len`.
proof fn lemma_lg_mono_pow(len: nat, m: nat)
    requires
        len >= 1,
        lg(len) >= m,
    ensures
        pow2(m) <= len,
    decreases m,
{
    if m > 0 {
        lemma_pow2_unfold(m);
        assert(len > 1);
        lemma_lg_mono_pow(len / 2, (m - 1) as nat);
    } else {
        lemma_pow2_pos(0);
        assert(pow2(0) == 1) by {
            vstd::arithmetic::power2::lemma2_to64();
        }
        assert(len >= 1) by {
            if len == 0 {
                assert(lg(0nat) == 0);
            }
        }
    }
}

impl TruthTable {
    /// Whether the table's length is a power of two, with the bit for every
    /// assignment of its inputs.
    pub open spec fn wf(&self) -> bool {
        exists|n: nat| self@.len() == pow2(n)
    }

    /// Wraps an existing bit vector as a table.
    pub fn new(output: Bits) -> (r: Self)
        ensures
            r@ == bits_of(output),
    {
        TruthTable { output }
    }

    /// The all-false table of `n` inputs.
    pub fn with_var_count(n: u32) -> (r: Self)
        requires
            pow2(n as nat) <= usize::MAX as nat,
        ensures
            r@ == Seq::new(pow2(n as nat), |i: int| false),
            r@.len() == pow2(n as nat),
            r.wf(),
    {
        let mut len: usize = 1;
        let mut i: u32 = 0;
        proof {
            assert(pow2(0) == 1) by {
                vstd::arithmetic::power2::lemma2_to64();
            }
        }
        while i < n
            invariant
                i <= n,
                len as nat == pow2(i as nat),
                pow2(n as nat) <= usize::MAX as nat,
            decreases n - i,
        {
            proof {
                lemma_pow2_unfold((i + 1) as nat);
                if i + 1 < n {
                    lemma_pow2_strictly_increases((i + 1) as nat, n as nat);
                }
            }
            len = len * 2;
            i = i + 1;
        }
        let r = TruthTable { output: bits_repeat(false, len) };
        proof {
            assert(r.wf());
        }
        r
    }

    /// The number of inputs of a well-shaped table.
    pub fn var_count(&self) -> (r: u32)
        requires
            self.wf(),
            self@.len() <= u32::MAX as nat,
        ensures
            r as nat == lg(self@.len()),
            self@.len() == pow2(r as nat),
    {
        let len = bits_len(&self.output);
        proof {
            let n = choose|n: nat| self@.len() == pow2(n);
            lemma_pow2_pos(n);
        }
        let mut x: usize = len;
        let mut c: u32 = 0;
        proof {
            assert(pow2(0) == 1) by {
                vstd::arithmetic::power2::lemma2_to64();
            }
        }
        while x > 1
            invariant
                1 <= x <= len,
                len as nat <= u32::MAX as nat,
                pow2(c as nat) <= len as nat,
                lg(len as nat) == c as nat + lg(x as nat),
            decreases x,
        {
            proof {
                lemma_pow2_unfold((c + 1) as nat);
                assert(pow2((c + 1) as nat) <= len as nat) by {
                    lemma_lg_le(x as nat, len as nat, c as nat);
                }
                assert(c + 1 < 64) by {
                    if c as nat + 1 >= 64 {
                        vstd::arithmetic::power2::lemma2_to64();
                        if c as nat + 1 > 32 {
                            lemma_pow2_strictly_increases(32, (c + 1) as nat);
                        }
                        assert(pow2((c + 1) as nat) >= pow2(32));
                        assert(false);
                    }
                }
            }
            x = x / 2;
            c = c + 1;
        }
        proof {
            let n = choose|n: nat| self@.len() == pow2(n);
            lemma_lg_pow2(n);
        }
        c
    }

    /// The addressed position of an input assignment, per [`spec_index`].
    fn index(&self, values: &[bool]) -> (k: usize)
        requires
            pow2(values@.len()) <= self@.len(),
            self@.len() <= usize::MAX as nat,
        ensures
            k as nat == spec_index(values@),
            (k as int) < self@.len(),
    {
        let n = values.len();
        let mut k: usize = 0;
        let mut p: usize = 1;
        let mut i: usize = 0;
        proof {
            assert(pow2(0) == 1) by {
                vstd::arithmetic::power2::lemma2_to64();
            }
            assert(values@.skip(0) =~= values@);
        }
        while i < n
            invariant
                i <= n,
                n == values@.len(),
                p as nat == pow2(i as nat),
                pow2(values@.len()) <= self@.len() <= usize::MAX as nat,
                spec_index(values@) == k as nat + p as nat * spec_index(values@.skip(i as int)),
                k < p,
            decreases n - i,
        {
            proof {
                lemma_pow2_unfold((i + 1) as nat);
                if ((i + 1) as nat) < values@.len() {
                    lemma_pow2_strictly_increases((i + 1) as nat, values@.len());
                }
                assert(pow2((i + 1) as nat) <= pow2(values@.len()));
                let tail = values@.skip(i as int);
                assert(tail.drop_first() =~= values@.skip(i + 1int));
                assert(tail[0] == values@[i as int]);
                assert(spec_index(tail) == (if values@[i as int] { 1nat } else { 0nat }) + 2
                    * spec_index(values@.skip(i + 1int)));
                assert(k as nat + p as nat * spec_index(tail) == k as nat + (if values@[i as int] {
                    p as nat
                } else {
                    0nat
                }) + (2 * p as nat) * spec_index(values@.skip(i + 1int))) by (nonlinear_arith)
                    requires
                        spec_index(tail) == (if values@[i as int] { 1nat } else { 0nat }) + 2
                            * spec_index(values@.skip(i + 1int)),
                ;
            }
            if values[i] {
                k = k + p;
            }
            p = p * 2;
            i = i + 1;
        }
        proof {
            assert(values@.skip(n as int) =~= Seq::<bool>::empty());
            assert(spec_index(values@.skip(n as int)) == 0);
            assert(spec_index(values@) == k as nat + p as nat * 0);
            lemma_pow2_pos(values@.len());
        }
        k
    }

    /// Sets the bit of an input assignment.
    pub fn set(&mut self, values: &[bool], truthy: bool)
        requires
            pow2(values@.len()) <= old(self)@.len(),
            old(self)@.len() <= usize::MAX as nat,
        ensures
            final(self)@ == old(self)@.update(spec_index(values@) as int, truthy),
            final(self)@.len() == old(self)@.len(),
            (spec_index(values@) as int) < old(self)@.len(),
    {
        let k = self.index(values);
        bits_set(&mut self.output, k, truthy);
    }

    /// Reads the bit of an input assignment.
    pub fn get(&self, values: &[bool]) -> (r: bool)
        requires
            pow2(values@.len()) <= self@.len(),
            self@.len() <= usize::MAX as nat,
        ensures
            r == self@[spec_index(values@) as int],
    {
        let k = self.index(values);
        bits_get(&self.output, k)
    }

    /// Structural equality of two tables: same length, same bits.
    pub fn equals(&self, other: &TruthTable) -> (r: bool)
        ensures
            r == (self@ == other@),
    {
        bits_eq(&self.output, &other.output)
    }

    /// A copy holding the same bits.
    pub fn clone_table(&self) -> (r: TruthTable)
        ensures
            r@ == self@,
    {
        TruthTable { output: bits_clone(&self.output) }
    }
}

} // verus!
