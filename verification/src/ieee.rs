//! Binary floating-point numbers by their IEEE 754 bit patterns.
//!
//! The library compares, selects and negates floating-point numbers without
//! computing with them, and for that the bit pattern is enough.

use vstd::arithmetic::power2::{lemma2_to64, lemma_pow2_pos, lemma_pow2_unfold, pow2};
use vstd::prelude::*;
use vstd::relations::{sorted_by, total_ordering};
use vstd::slice::slice_subrange;

pub mod laws;

verus! {

/// A single-precision number.
#[derive(Debug, Clone, Copy, PartialEq, Eq, Structural)]
pub struct Binary32 {
    pub bits: u32,
}

impl Binary32 {
    /// Whether the pattern is a number greater than 0.
    pub open spec fn positive(self) -> bool {
        0 < self.bits <= 0x7f80_0000
    }

    /// Whether this is a number greater than 0.
    pub fn is_positive(self) -> (r: bool)
        ensures
            r == self.positive(),
    {
        0 < self.bits && self.bits <= 0x7f80_0000
    }
}

/// A double-precision number.
#[derive(Debug, Clone, Copy, PartialEq, Eq, Structural)]
pub struct Binary64 {
    pub bits: u64,
}

/// The size, times 2^1074, of the number with the bit pattern `m`, whose sign
/// bit is clear. An infinity counts as the power of two behind the largest
/// finite number.
pub open spec fn scaled_size(m: nat) -> nat {
    let exponent = m / 0x10_0000_0000_0000;
    let fraction = m % 0x10_0000_0000_0000;
    if exponent == 0 {
        fraction
    } else {
        (0x10_0000_0000_0000 + fraction) * pow2((exponent - 1) as nat)
    }
}

proof fn lemma_scaled_size_step(m: nat)
    ensures
        scaled_size(m) < scaled_size(m + 1),
{
    let e = m / 0x10_0000_0000_0000;
    let f = m % 0x10_0000_0000_0000;
    if f + 1 < 0x10_0000_0000_0000 {
        assert((m + 1) / 0x10_0000_0000_0000 == e && (m + 1) % 0x10_0000_0000_0000 == f + 1);
        if e > 0 {
            let p = pow2((e - 1) as nat);
            lemma_pow2_pos((e - 1) as nat);
            assert((0x10_0000_0000_0000 + f + 1) * p == (0x10_0000_0000_0000 + f) * p + p)
                by (nonlinear_arith);
        }
    } else {
        assert((m + 1) / 0x10_0000_0000_0000 == e + 1 && (m + 1) % 0x10_0000_0000_0000 == 0);
        let q = pow2(e as nat);
        lemma_pow2_pos(e as nat);
        if e > 0 {
            let p = pow2((e - 1) as nat);
            lemma_pow2_unfold(e as nat);
            lemma_pow2_pos((e - 1) as nat);
            assert(q == 2 * p);
            assert(0x10_0000_0000_0000 * q == (0x10_0000_0000_0000 + f) * p + p)
                by (nonlinear_arith)
                requires
                    q == 2 * p,
                    f + 1 == 0x10_0000_0000_0000,
            ;
        } else {
            lemma2_to64();
        }
    }
}

/// A larger pattern with a clear sign bit is a larger number.
pub proof fn lemma_scaled_size_increases(m: nat, n: nat)
    requires
        m < n,
    ensures
        scaled_size(m) < scaled_size(n),
    decreases n - m,
{
    if m + 1 == n {
        lemma_scaled_size_step(m);
    } else {
        lemma_scaled_size_increases(m, (n - 1) as nat);
        lemma_scaled_size_step((n - 1) as nat);
    }
}

impl Binary64 {
    /// The pattern without its sign bit.
    pub open spec fn magnitude(self) -> nat {
        (self.bits % 0x8000_0000_0000_0000) as nat
    }

    /// Whether the sign bit is set.
    pub open spec fn negative(self) -> bool {
        self.bits >= 0x8000_0000_0000_0000
    }

    /// Whether the pattern is not a number.
    pub open spec fn nan(self) -> bool {
        self.magnitude() > 0x7ff0_0000_0000_0000
    }

    /// Whether the pattern is a number other than an infinity.
    pub open spec fn finite(self) -> bool {
        self.magnitude() < 0x7ff0_0000_0000_0000
    }

    /// The number, times 2^1074.
    pub open spec fn scaled(self) -> int {
        if self.negative() {
            -(scaled_size(self.magnitude()) as int)
        } else {
            scaled_size(self.magnitude()) as int
        }
    }

    /// `self < other` as numbers; false when either is not a number.
    pub open spec fn below(self, other: Self) -> bool {
        !self.nan() && !other.nan() && self.scaled() < other.scaled()
    }

    /// `self <= other` as numbers; false when either is not a number.
    pub open spec fn at_most(self, other: Self) -> bool {
        !self.nan() && !other.nan() && self.scaled() <= other.scaled()
    }

    /// The place in the total order: by number, with the negative zero before
    /// the positive one, and the patterns that are no numbers at both ends.
    pub open spec fn rank(self) -> int {
        if self.negative() {
            -(self.magnitude() as int) - 1
        } else {
            self.magnitude() as int
        }
    }

    /// The number with its sign bit flipped.
    pub open spec fn negated(self) -> Self {
        Binary64 {
            bits: if self.negative() {
                (self.bits - 0x8000_0000_0000_0000) as u64
            } else {
                (self.bits + 0x8000_0000_0000_0000) as u64
            },
        }
    }

    /// `magnitude` as an integer of the machine.
    fn size(self) -> (r: u64)
        ensures
            r == self.magnitude(),
    {
        self.bits % 0x8000_0000_0000_0000
    }

    /// Whether the number is neither an infinity nor not a number.
    pub fn is_finite(self) -> (r: bool)
        ensures
            r == self.finite(),
    {
        self.size() < 0x7ff0_0000_0000_0000
    }

    /// A signed integer that orders numbers as they are ordered.
    fn order(self) -> (r: i64)
        ensures
            r == if self.negative() {
                -(self.magnitude() as int)
            } else {
                self.magnitude() as int
            },
    {
        let m: i64 = self.size() as i64;
        if self.bits >= 0x8000_0000_0000_0000 {
            -m
        } else {
            m
        }
    }

    proof fn lemma_order(a: Self, b: Self)
        ensures
            ({
                let x = if a.negative() {
                    -(a.magnitude() as int)
                } else {
                    a.magnitude() as int
                };
                let y = if b.negative() {
                    -(b.magnitude() as int)
                } else {
                    b.magnitude() as int
                };
                (x < y <==> a.scaled() < b.scaled()) && (x == y <==> a.scaled() == b.scaled())
            }),
    {
        let m = a.magnitude();
        let n = b.magnitude();
        assert(scaled_size(0) == 0);
        if m > 0 {
            lemma_scaled_size_increases(0, m);
        }
        if n > 0 {
            lemma_scaled_size_increases(0, n);
        }
        if m < n {
            lemma_scaled_size_increases(m, n);
        } else if n < m {
            lemma_scaled_size_increases(n, m);
        }
    }

    /// `self < other`; false when either is not a number.
    pub fn lt(self, other: Self) -> (r: bool)
        ensures
            r == self.below(other),
    {
        proof {
            Self::lemma_order(self, other);
        }
        self.size() <= 0x7ff0_0000_0000_0000 && other.size() <= 0x7ff0_0000_0000_0000
            && self.order() < other.order()
    }

    /// `self <= other`; false when either is not a number.
    pub fn le(self, other: Self) -> (r: bool)
        ensures
            r == self.at_most(other),
    {
        proof {
            Self::lemma_order(self, other);
        }
        self.size() <= 0x7ff0_0000_0000_0000 && other.size() <= 0x7ff0_0000_0000_0000
            && self.order() <= other.order()
    }

    /// Whether the number is zero, of either sign.
    pub fn is_zero(self) -> (r: bool)
        ensures
            r == (self.magnitude() == 0),
            r == (self.scaled() == 0),
    {
        proof {
            if self.magnitude() > 0 {
                lemma_scaled_size_increases(0, self.magnitude());
            }
        }
        self.size() == 0
    }

    /// The number with its sign flipped.
    pub fn neg(self) -> (r: Self)
        ensures
            r == self.negated(),
            r.scaled() == -self.scaled(),
            r.nan() == self.nan(),
    {
        if self.bits >= 0x8000_0000_0000_0000 {
            Binary64 { bits: self.bits - 0x8000_0000_0000_0000 }
        } else {
            Binary64 { bits: self.bits + 0x8000_0000_0000_0000 }
        }
    }

    /// The number with its sign bit cleared.
    pub fn abs(self) -> (r: Self)
        ensures
            r.bits == self.magnitude(),
    {
        Binary64 { bits: self.size() }
    }

    /// The place in the total order.
    pub fn total_rank(self) -> (r: i64)
        ensures
            r == self.rank(),
    {
        let m: i64 = self.size() as i64;
        if self.bits >= 0x8000_0000_0000_0000 {
            -m - 1
        } else {
            m
        }
    }
}

/// The total order of the bit patterns.
pub open spec fn rank_order() -> spec_fn(Binary64, Binary64) -> bool {
    |a: Binary64, b: Binary64| a.rank() <= b.rank()
}

/// The total order is one.
pub proof fn lemma_rank_order_is_total()
    ensures
        total_ordering(rank_order()),
{
    assert forall|a: Binary64, b: Binary64| a.rank() == b.rank() implies a == b by {}
}

/// Merges two sorted sequences.
fn merged(a: Vec<Binary64>, b: Vec<Binary64>) -> (r: Vec<Binary64>)
    requires
        sorted_by(a@, rank_order()),
        sorted_by(b@, rank_order()),
        a@.len() + b@.len() <= usize::MAX,
    ensures
        sorted_by(r@, rank_order()),
        r@.to_multiset() == a@.to_multiset().add(b@.to_multiset()),
        r@.len() == a@.len() + b@.len(),
{
    broadcast use vstd::seq_lib::group_to_multiset_ensures;
    broadcast use vstd::multiset::group_multiset_axioms;

    let ghost leq = rank_order();
    let mut out: Vec<Binary64> = Vec::new();
    let mut i: usize = 0;
    let mut j: usize = 0;
    assert(a@.take(0).to_multiset() =~= vstd::multiset::Multiset::empty());
    assert(b@.take(0).to_multiset() =~= vstd::multiset::Multiset::empty());
    while i < a.len() || j < b.len()
        invariant
            i <= a@.len(),
            j <= b@.len(),
            leq == rank_order(),
            sorted_by(a@, leq),
            sorted_by(b@, leq),
            sorted_by(out@, leq),
            out@.len() == i + j,
            a@.len() + b@.len() <= usize::MAX,
            out@.to_multiset() =~= a@.take(i as int).to_multiset().add(
                b@.take(j as int).to_multiset(),
            ),
            forall|p: int, q: int|
                0 <= p < out@.len() && i <= q < a@.len() ==> #[trigger] leq(out@[p], a@[q]),
            forall|p: int, q: int|
                0 <= p < out@.len() && j <= q < b@.len() ==> #[trigger] leq(out@[p], b@[q]),
        decreases a@.len() - i + b@.len() - j,
    {
        broadcast use vstd::seq_lib::group_to_multiset_ensures;
        broadcast use vstd::multiset::group_multiset_axioms;

        let ghost before = out@;
        let left: bool = if i >= a.len() {
            false
        } else if j >= b.len() {
            true
        } else {
            a[i].total_rank() <= b[j].total_rank()
        };
        if left {
            proof {
                assert(a@.take(i + 1) =~= a@.take(i as int).push(a@[i as int]));
                assert forall|p: int, q: int|
                    0 <= p < before.push(a@[i as int]).len() && i + 1 <= q < a@.len() implies leq(
                    #[trigger] before.push(a@[i as int])[p],
                    #[trigger] a@[q],
                ) by {
                    assert(leq(a@[i as int], a@[q]));
                    if p < before.len() {
                        assert(leq(before[p], a@[q]));
                    }
                }
                assert forall|p: int, q: int|
                    0 <= p < before.push(a@[i as int]).len() && j <= q < b@.len() implies leq(
                    #[trigger] before.push(a@[i as int])[p],
                    #[trigger] b@[q],
                ) by {
                    if p < before.len() {
                        assert(leq(before[p], b@[q]));
                    } else if q > j {
                        assert(leq(b@[j as int], b@[q]));
                    }
                }
                assert(forall|p: int|
                    0 <= p < before.len() ==> #[trigger] leq(before[p], a@[i as int]));
            }
            out.push(a[i]);
            i = i + 1;
        } else {
            proof {
                assert(b@.take(j + 1) =~= b@.take(j as int).push(b@[j as int]));
                assert forall|p: int, q: int|
                    0 <= p < before.push(b@[j as int]).len() && j + 1 <= q < b@.len() implies leq(
                    #[trigger] before.push(b@[j as int])[p],
                    #[trigger] b@[q],
                ) by {
                    assert(leq(b@[j as int], b@[q]));
                    if p < before.len() {
                        assert(leq(before[p], b@[q]));
                    }
                }
                assert forall|p: int, q: int|
                    0 <= p < before.push(b@[j as int]).len() && i <= q < a@.len() implies leq(
                    #[trigger] before.push(b@[j as int])[p],
                    #[trigger] a@[q],
                ) by {
                    if p < before.len() {
                        assert(leq(before[p], a@[q]));
                    } else if q > i {
                        assert(leq(a@[i as int], a@[q]));
                    }
                }
                assert(forall|p: int|
                    0 <= p < before.len() ==> #[trigger] leq(before[p], b@[j as int]));
            }
            out.push(b[j]);
            j = j + 1;
        }
    }
    assert(a@.take(i as int) =~= a@);
    assert(b@.take(j as int) =~= b@);
    out
}

/// The values in the total order.
pub fn sorted(values: &[Binary64]) -> (r: Vec<Binary64>)
    ensures
        r@ == values@.sort_by(rank_order()),
    decreases values@.len(),
{
    let n: usize = values.len();
    proof {
        lemma_rank_order_is_total();
        values@.lemma_sort_by_ensures(rank_order());
    }
    let out: Vec<Binary64> = if n <= 1 {
        vstd::slice::slice_to_vec(values)
    } else {
        let half: usize = n / 2;
        let left: &[Binary64] = slice_subrange(values, 0, half);
        let right: &[Binary64] = slice_subrange(values, half, n);
        let a: Vec<Binary64> = sorted(left);
        let b: Vec<Binary64> = sorted(right);
        proof {
            left@.lemma_sort_by_ensures(rank_order());
            right@.lemma_sort_by_ensures(rank_order());
            assert(values@ =~= left@ + right@);
            vstd::seq_lib::lemma_multiset_commutative(left@, right@);
            broadcast use vstd::seq_lib::group_to_multiset_ensures;

            assert(a@.len() == a@.to_multiset().len() && b@.len() == b@.to_multiset().len());
            assert(left@.len() == left@.to_multiset().len());
            assert(right@.len() == right@.to_multiset().len());
        }
        merged(a, b)
    };
    proof {
        vstd::seq_lib::lemma_sorted_unique(out@, values@.sort_by(rank_order()), rank_order());
    }
    out
}

/// The value in the middle of the total order (behind the middle of an even
/// number of values); `None` without values.
pub open spec fn middle(values: Seq<Binary64>) -> Option<Binary64> {
    if values.len() == 0 {
        None
    } else {
        Some(values.sort_by(rank_order())[values.len() as int / 2])
    }
}

/// The median of `values` under the total order.
pub fn median(values: &[Binary64]) -> (r: Option<Binary64>)
    ensures
        r == middle(values@),
{
    if values.len() == 0 {
        return None;
    }
    let s: Vec<Binary64> = sorted(values);
    proof {
        lemma_rank_order_is_total();
        values@.lemma_sort_by_ensures(rank_order());
        broadcast use vstd::seq_lib::group_to_multiset_ensures;
        assert(s@.len() == s@.to_multiset().len());
        assert(values@.len() == values@.to_multiset().len());
    }
    Some(s[values.len() / 2])
}

/// The whole number `n` in the unit of [`Binary64::scaled`].
pub open spec fn whole(n: int) -> int {
    n * pow2(1074)
}

/// The number of a pattern with the exponent `e` and the fraction `f`, which is
/// not subnormal and below 2^53, against the whole numbers.
pub proof fn patterns_are_numbers(v: Binary64, e: nat, f: nat)
    requires
        v.bits == e * 0x10_0000_0000_0000 + f,
        f < 0x10_0000_0000_0000,
        1 <= e <= 1075,
    ensures
        !v.nan() && v.finite(),
        v.scaled() * pow2((1075 - e) as nat) == whole((0x10_0000_0000_0000 + f) as int),
{
    let p = pow2((e - 1) as nat) as int;
    let q = pow2((1075 - e) as nat) as int;
    let m = (0x10_0000_0000_0000 + f) as int;
    vstd::arithmetic::power2::lemma_pow2_adds((e - 1) as nat, (1075 - e) as nat);
    assert(v.magnitude() == v.bits);
    assert(v.magnitude() / 0x10_0000_0000_0000 == e && v.magnitude() % 0x10_0000_0000_0000 == f);
    assert(v.scaled() == m * p);
    assert(m * p * q == m * (p * q)) by (nonlinear_arith);
}

/// A number with its sign flipped is its opposite, with the same magnitude, and
/// flipping twice changes nothing.
pub proof fn flipping_gives_the_opposite(v: Binary64)
    ensures
        v.negated().scaled() == -v.scaled(),
        v.negated().magnitude() == v.magnitude(),
        v.negated().negative() != v.negative(),
        v.negated().negated() == v,
{
}

/// Numbers are ordered by their patterns: those with a clear sign bit as the
/// patterns are, the others the other way round and below.
pub proof fn patterns_order_numbers(a: Binary64, b: Binary64)
    requires
        !a.nan(),
        !b.nan(),
    ensures
        !a.negative() && !b.negative() ==> (a.below(b) <==> a.bits < b.bits),
        a.negative() && b.negative() ==> (a.below(b) <==> b.bits < a.bits),
        a.negative() && !b.negative() ==> (a.below(b) <==> a.magnitude() + b.magnitude() > 0),
        !a.negative() && b.negative() ==> !a.below(b),
        a.at_most(b) <==> !b.below(a),
{
    Binary64::lemma_order(a, b);
    Binary64::lemma_order(b, a);
}

/// The median of some values is one of them; no more than half of them lie below
/// it, and fewer than half above it.
pub proof fn median_divides(values: Seq<Binary64>)
    requires
        values.len() > 0,
    ensures
        ({
            let m = middle(values)->0;
            let s = values.sort_by(rank_order());
            &&& middle(values) is Some
            &&& values.contains(m)
            &&& s.to_multiset() == values.to_multiset()
            &&& s.len() == values.len()
            &&& s[values.len() as int / 2] == m
            &&& forall|i: int| 0 <= i < values.len() as int / 2 ==> (#[trigger] s[i]).rank()
                <= m.rank()
            &&& forall|i: int| values.len() as int / 2 <= i < values.len() ==> m.rank() <= (
            #[trigger] s[i]).rank()
        }),
{
    lemma_rank_order_is_total();
    values.lemma_sort_by_ensures(rank_order());
    let s = values.sort_by(rank_order());
    let h = values.len() as int / 2;
    broadcast use vstd::seq_lib::group_to_multiset_ensures;

    assert(s.len() == s.to_multiset().len());
    assert(values.len() == values.to_multiset().len());
    assert(s.to_multiset().contains(s[h]));
    assert(values.to_multiset().contains(s[h]));
    let leq = rank_order();
    assert forall|i: int| 0 <= i < h implies (#[trigger] s[i]).rank() <= s[h].rank() by {
        assert(leq(s[i], s[h]));
    }
    assert forall|i: int| h <= i < values.len() implies s[h].rank() <= (
    #[trigger] s[i]).rank() by {
        if h < i {
            assert(leq(s[h], s[i]));
        }
    }
}

} // verus!
