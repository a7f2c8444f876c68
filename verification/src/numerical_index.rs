use vstd::arithmetic::div_mod::{
    lemma_fundamental_div_mod, lemma_mod_division_less_than_divisor, lemma_mod_multiples_basic,
};
use vstd::prelude::*;

verus! {

/// Rounding an index down to a multiple of a positive alignment never
/// increases it, lands on a multiple, and stays within one alignment of it.
pub proof fn lemma_block_round(x: int, a: int)
    requires
        x >= 0,
        a > 0,
    ensures
        ((x / a) * a) % a == 0,
        (x / a) * a <= x < (x / a) * a + a,
{
    lemma_fundamental_div_mod(x, a);
    lemma_mod_division_less_than_divisor(x, a);
    lemma_mod_multiples_basic(x / a, a);
    assert(a * (x / a) == (x / a) * a) by (nonlinear_arith);
}

/// A multiple of `b` strictly below another multiple of `b` leaves room
/// for one more whole `b`.
pub proof fn lemma_multiple_below(s: int, b: int, m: int)
    requires
        b > 0,
        s % b == 0,
        m % b == 0,
        0 <= s < m,
    ensures
        s + b <= m,
{
    lemma_fundamental_div_mod(s, b);
    lemma_fundamental_div_mod(m, b);
    let q1 = s / b;
    let q2 = m / b;
    assert(q1 < q2) by (nonlinear_arith)
        requires
            b > 0,
            s == b * q1,
            m == b * q2,
            s < m,
    ;
    assert(s + b <= m) by (nonlinear_arith)
        requires
            s == b * q1,
            m == b * q2,
            q1 < q2,
            b > 0,
    ;
}

/// An ordered unsigned integer type with the arithmetic needed to address
/// aligned blocks: zero test, modulo, division, rounding down to a block
/// start, and enumeration of the indices spanned by a block.
///
/// `as_nat` gives the mathematical value of an index; every operation of the
/// trait is specified against it. `spec_max` is the largest representable
/// value, and `from_nat` names the index holding a given value.
pub trait NumericalIndex: Copy {
    /// The mathematical value of this index.
    spec fn as_nat(self) -> nat;

    /// The largest value an index of this type can hold.
    spec fn spec_max() -> nat;

    /// The index whose value is `n`, for `n` within range.
    spec fn from_nat(n: nat) -> Self;

    /// Every index holds a value within range.
    proof fn lemma_in_range(self)
        ensures
            self.as_nat() <= Self::spec_max(),
    ;

    /// `from_nat` inverts `as_nat` on values within range.
    proof fn lemma_from_nat(n: nat)
        requires
            n <= Self::spec_max(),
        ensures
            Self::from_nat(n).as_nat() == n,
    ;

    /// Two indices with the same value are the same index.
    proof fn lemma_injective(self)
        ensures
            Self::from_nat(self.as_nat()) == self,
    ;

    /// True iff the index is zero.
    fn is_zero(self) -> (r: bool)
        ensures
            r <==> self.as_nat() == 0,
    ;

    /// Modulo division of an index.
    fn modulo(self, divisor: Self) -> (r: Self)
        requires
            divisor.as_nat() > 0,
        ensures
            r.as_nat() == self.as_nat() % divisor.as_nat(),
    ;

    /// Division of an index.
    fn divide(self, divisor: Self) -> (r: Self)
        requires
            divisor.as_nat() > 0,
        ensures
            r.as_nat() == self.as_nat() / divisor.as_nat(),
    ;

    /// The beginning of the index's block, given an alignment: the index
    /// rounded down to the nearest multiple of `alignment`.
    fn block(self, alignment: Self) -> (r: Self)
        requires
            alignment.as_nat() > 0,
        ensures
            r.as_nat() == (self.as_nat() / alignment.as_nat()) * alignment.as_nat(),
            r.as_nat() % alignment.as_nat() == 0,
            r.as_nat() <= self.as_nat() < r.as_nat() + alignment.as_nat(),
    ;

    /// The `alignment` consecutive indices beginning at `self`, in order.
    fn range(self, alignment: Self) -> (r: Vec<Self>)
        requires
            alignment.as_nat() <= usize::MAX,
            self.as_nat() + alignment.as_nat() <= Self::spec_max() + 1,
        ensures
            r@.len() == alignment.as_nat(),
            forall|k: int| 0 <= k < r@.len() ==> (#[trigger] r@[k]).as_nat() == self.as_nat() + k,
    ;

    /// Strict order on indices.
    fn lt(self, other: Self) -> (r: bool)
        ensures
            r <==> self.as_nat() < other.as_nat(),
    ;
}

impl NumericalIndex for usize {
    open spec fn as_nat(self) -> nat {
        self as nat
    }

    open spec fn spec_max() -> nat {
        usize::MAX as nat
    }

    open spec fn from_nat(n: nat) -> Self {
        n as usize
    }

    proof fn lemma_in_range(self) {
    }

    proof fn lemma_from_nat(n: nat) {
    }

    proof fn lemma_injective(self) {
    }

    fn is_zero(self) -> bool {
        self == 0
    }

    fn modulo(self, divisor: Self) -> Self {
        self % divisor
    }

    fn divide(self, divisor: Self) -> Self {
        self / divisor
    }

    fn block(self, alignment: Self) -> Self {
        proof {
            lemma_block_round(self as int, alignment as int);
        }
        (self / alignment) * alignment
    }

    fn range(self, alignment: Self) -> Vec<Self> {
        let mut r: Vec<Self> = Vec::new();
        let mut k: usize = 0;
        while k < alignment
            invariant
                k <= alignment,
                self + alignment <= usize::MAX as nat + 1,
                r@.len() == k,
                forall|j: int| 0 <= j < k ==> (#[trigger] r@[j]).as_nat() == self + j,
            decreases alignment - k,
        {
            r.push(self + k);
            k = k + 1;
        }
        r
    }

    fn lt(self, other: Self) -> bool {
        self < other
    }
}

impl NumericalIndex for u8 {
    open spec fn as_nat(self) -> nat {
        self as nat
    }

    open spec fn spec_max() -> nat {
        u8::MAX as nat
    }

    open spec fn from_nat(n: nat) -> Self {
        n as u8
    }

    proof fn lemma_in_range(self) {
    }

    proof fn lemma_from_nat(n: nat) {
    }

    proof fn lemma_injective(self) {
    }

    fn is_zero(self) -> bool {
        self == 0
    }

    fn modulo(self, divisor: Self) -> Self {
        self % divisor
    }

    fn divide(self, divisor: Self) -> Self {
        self / divisor
    }

    fn block(self, alignment: Self) -> Self {
        proof {
            lemma_block_round(self as int, alignment as int);
        }
        (self / alignment) * alignment
    }

    fn range(self, alignment: Self) -> Vec<Self> {
        let mut r: Vec<Self> = Vec::new();
        let mut k: u8 = 0;
        while k < alignment
            invariant
                k <= alignment,
                self + alignment <= u8::MAX as nat + 1,
                r@.len() == k,
                forall|j: int| 0 <= j < k ==> (#[trigger] r@[j]).as_nat() == self + j,
            decreases alignment - k,
        {
            r.push(self + k);
            k = k + 1;
        }
        r
    }

    fn lt(self, other: Self) -> bool {
        self < other
    }
}

impl NumericalIndex for u16 {
    open spec fn as_nat(self) -> nat {
        self as nat
    }

    open spec fn spec_max() -> nat {
        u16::MAX as nat
    }

    open spec fn from_nat(n: nat) -> Self {
        n as u16
    }

    proof fn lemma_in_range(self) {
    }

    proof fn lemma_from_nat(n: nat) {
    }

    proof fn lemma_injective(self) {
    }

    fn is_zero(self) -> bool {
        self == 0
    }

    fn modulo(self, divisor: Self) -> Self {
        self % divisor
    }

    fn divide(self, divisor: Self) -> Self {
        self / divisor
    }

    fn block(self, alignment: Self) -> Self {
        proof {
            lemma_block_round(self as int, alignment as int);
        }
        (self / alignment) * alignment
    }

    fn range(self, alignment: Self) -> Vec<Self> {
        let mut r: Vec<Self> = Vec::new();
        let mut k: u16 = 0;
        while k < alignment
            invariant
                k <= alignment,
                self + alignment <= u16::MAX as nat + 1,
                r@.len() == k,
                forall|j: int| 0 <= j < k ==> (#[trigger] r@[j]).as_nat() == self + j,
            decreases alignment - k,
        {
            r.push(self + k);
            k = k + 1;
        }
        r
    }

    fn lt(self, other: Self) -> bool {
        self < other
    }
}

impl NumericalIndex for u32 {
    open spec fn as_nat(self) -> nat {
        self as nat
    }

    open spec fn spec_max() -> nat {
        u32::MAX as nat
    }

    open spec fn from_nat(n: nat) -> Self {
        n as u32
    }

    proof fn lemma_in_range(self) {
    }

    proof fn lemma_from_nat(n: nat) {
    }

    proof fn lemma_injective(self) {
    }

    fn is_zero(self) -> bool {
        self == 0
    }

    fn modulo(self, divisor: Self) -> Self {
        self % divisor
    }

    fn divide(self, divisor: Self) -> Self {
        self / divisor
    }

    fn block(self, alignment: Self) -> Self {
        proof {
            lemma_block_round(self as int, alignment as int);
        }
        (self / alignment) * alignment
    }

    fn range(self, alignment: Self) -> Vec<Self> {
        let mut r: Vec<Self> = Vec::new();
        let mut k: u32 = 0;
        while k < alignment
            invariant
                k <= alignment,
                self + alignment <= u32::MAX as nat + 1,
                r@.len() == k,
                forall|j: int| 0 <= j < k ==> (#[trigger] r@[j]).as_nat() == self + j,
            decreases alignment - k,
        {
            r.push(self + k);
            k = k + 1;
        }
        r
    }

    fn lt(self, other: Self) -> bool {
        self < other
    }
}

impl NumericalIndex for u64 {
    open spec fn as_nat(self) -> nat {
        self as nat
    }

    open spec fn spec_max() -> nat {
        u64::MAX as nat
    }

    open spec fn from_nat(n: nat) -> Self {
        n as u64
    }

    proof fn lemma_in_range(self) {
    }

    proof fn lemma_from_nat(n: nat) {
    }

    proof fn lemma_injective(self) {
    }

    fn is_zero(self) -> bool {
        self == 0
    }

    fn modulo(self, divisor: Self) -> Self {
        self % divisor
    }

    fn divide(self, divisor: Self) -> Self {
        self / divisor
    }

    fn block(self, alignment: Self) -> Self {
        proof {
            lemma_block_round(self as int, alignment as int);
        }
        (self / alignment) * alignment
    }

    fn range(self, alignment: Self) -> Vec<Self> {
        let mut r: Vec<Self> = Vec::new();
        let mut k: u64 = 0;
        while k < alignment
            invariant
                k <= alignment,
                self + alignment <= u64::MAX as nat + 1,
                r@.len() == k,
                forall|j: int| 0 <= j < k ==> (#[trigger] r@[j]).as_nat() == self + j,
            decreases alignment - k,
        {
            r.push(self + k);
            k = k + 1;
        }
        r
    }

    fn lt(self, other: Self) -> bool {
        self < other
    }
}

impl NumericalIndex for u128 {
    open spec fn as_nat(self) -> nat {
        self as nat
    }

    open spec fn spec_max() -> nat {
        u128::MAX as nat
    }

    open spec fn from_nat(n: nat) -> Self {
        n as u128
    }

    proof fn lemma_in_range(self) {
    }

    proof fn lemma_from_nat(n: nat) {
    }

    proof fn lemma_injective(self) {
    }

    fn is_zero(self) -> bool {
        self == 0
    }

    fn modulo(self, divisor: Self) -> Self {
        self % divisor
    }

    fn divide(self, divisor: Self) -> Self {
        self / divisor
    }

    fn block(self, alignment: Self) -> Self {
        proof {
            lemma_block_round(self as int, alignment as int);
        }
        (self / alignment) * alignment
    }

    fn range(self, alignment: Self) -> Vec<Self> {
        let mut r: Vec<Self> = Vec::new();
        let mut k: u128 = 0;
        while k < alignment
            invariant
                k <= alignment,
                self + alignment <= u128::MAX as nat + 1,
                r@.len() == k,
                forall|j: int| 0 <= j < k ==> (#[trigger] r@[j]).as_nat() == self + j,
            decreases alignment - k,
        {
            r.push(self + k);
            k = k + 1;
        }
        r
    }

    fn lt(self, other: Self) -> bool {
        self < other
    }
}

} // verus!
