//! Fixed-dimension vectors of integer components, and their mathematical model.
use vstd::prelude::*;

verus! {

/// Componentwise sum.
pub open spec fn vadd(a: Seq<int>, b: Seq<int>) -> Seq<int> {
    Seq::new(a.len(), |i: int| a[i] + b[i])
}

/// Componentwise difference.
pub open spec fn vsub(a: Seq<int>, b: Seq<int>) -> Seq<int> {
    Seq::new(a.len(), |i: int| a[i] - b[i])
}

/// Every component scaled by `k`.
pub open spec fn vscale(a: Seq<int>, k: int) -> Seq<int> {
    Seq::new(a.len(), |i: int| a[i] * k)
}

/// The vector of `n` zero components.
pub open spec fn vzero(n: nat) -> Seq<int> {
    Seq::new(n, |i: int| 0int)
}

/// Squared Euclidean norm: the sum of the squared components.
pub open spec fn norm_sq(a: Seq<int>) -> int
    decreases a.len(),
{
    if a.len() == 0 {
        0
    } else {
        norm_sq(a.drop_last()) + a.last() * a.last()
    }
}

/// Every component can be stored in an `i64`.
pub open spec fn fits_i64(a: Seq<int>) -> bool {
    forall|i: int| 0 <= i < a.len() ==> i64::MIN <= #[trigger] a[i] <= i64::MAX
}

/// `d` is the floor of the square root of `n`.
pub open spec fn is_floor_sqrt(n: nat, d: nat) -> bool {
    d * d <= n && n < (d + 1) * (d + 1)
}

/// The largest `d` with `d * d <= n`.
pub open spec fn floor_sqrt(n: nat) -> nat {
    choose|d: nat| is_floor_sqrt(n, d)
}

/// Integer division rounding toward zero, as machine division does.
pub open spec fn div_toward_zero(x: int, y: nat) -> int {
    if x >= 0 {
        x / (y as int)
    } else {
        -((-x) / (y as int))
    }
}

/// Every natural number has a floor square root, so [`floor_sqrt`] is one.
pub proof fn lemma_floor_sqrt_exists(n: nat)
    ensures
        is_floor_sqrt(n, floor_sqrt(n)),
    decreases n,
{
    if n == 0 {
        assert(is_floor_sqrt(0, 0)) by (nonlinear_arith);
    } else {
        lemma_floor_sqrt_exists((n - 1) as nat);
        let d = floor_sqrt((n - 1) as nat);
        if (d + 1) * (d + 1) <= n {
            assert(is_floor_sqrt(n, d + 1)) by (nonlinear_arith)
                requires
                    (d + 1) * (d + 1) <= n,
                    n - 1 < (d + 1) * (d + 1),
            ;
        } else {
            assert(is_floor_sqrt(n, d)) by (nonlinear_arith)
                requires
                    d * d <= n - 1,
                    n < (d + 1) * (d + 1),
            ;
        }
    }
}

/// A floor square root is unique, so [`floor_sqrt`] names it.
pub proof fn lemma_floor_sqrt_unique(n: nat, d: nat)
    requires
        is_floor_sqrt(n, d),
    ensures
        floor_sqrt(n) == d,
{
    assert(is_floor_sqrt(n, floor_sqrt(n)));
    let e = floor_sqrt(n);
    if e < d {
        assert((e + 1) * (e + 1) <= d * d) by (nonlinear_arith)
            requires
                e < d,
        ;
    } else if d < e {
        assert((d + 1) * (d + 1) <= e * e) by (nonlinear_arith)
            requires
                d < e,
        ;
    }
}

/// The squared norm of a prefix grows by the square of the next component.
pub proof fn lemma_norm_sq_prefix_step(a: Seq<int>, i: int)
    requires
        0 <= i < a.len(),
    ensures
        norm_sq(a.take(i + 1)) == norm_sq(a.take(i)) + a[i] * a[i],
{
    assert(a.take(i + 1).drop_last() =~= a.take(i));
}

/// A squared norm is at least the squared norm of any prefix, and at least
/// the square of any component.
pub proof fn lemma_norm_sq_bounds(a: Seq<int>, i: int)
    requires
        0 <= i <= a.len(),
    ensures
        0 <= norm_sq(a.take(i)) <= norm_sq(a),
        i < a.len() ==> a[i] * a[i] <= norm_sq(a),
    decreases a.len() - i,
{
    if i == a.len() {
        assert(a.take(i) =~= a);
        lemma_norm_sq_nonneg(a);
    } else {
        lemma_norm_sq_prefix_step(a, i);
        lemma_norm_sq_bounds(a, i + 1);
        lemma_norm_sq_nonneg(a.take(i));
        assert(a[i] * a[i] >= 0) by (nonlinear_arith);
    }
}

/// A squared norm is never negative.
pub proof fn lemma_norm_sq_nonneg(a: Seq<int>)
    ensures
        norm_sq(a) >= 0,
    decreases a.len(),
{
    if a.len() > 0 {
        lemma_norm_sq_nonneg(a.drop_last());
        assert(a.last() * a.last() >= 0) by (nonlinear_arith);
    }
}

/// Floor square root of `n`, for `n < 2^66`.
pub fn isqrt(n: u128) -> (r: u64)
    requires
        n < 0x4_0000_0000_0000_0000,
    ensures
        is_floor_sqrt(n as nat, r as nat),
        r < 0x2_0000_0000,
{
    let mut lo: u128 = 0;
    let mut hi: u128 = 0x2_0000_0000;
    assert(hi * hi == 0x4_0000_0000_0000_0000);
    while hi - lo > 1
        invariant
            lo < hi <= 0x2_0000_0000,
            lo * lo <= n,
            n < hi * hi,
        decreases hi - lo,
    {
        let mid = lo + (hi - lo) / 2;
        assert(mid * mid <= 0x4_0000_0000_0000_0000) by (nonlinear_arith)
            requires
                mid <= 0x2_0000_0000,
        ;
        if mid * mid <= n {
            lo = mid;
        } else {
            hi = mid;
        }
    }
    assert(hi == lo + 1);
    lo as u64
}

/// A vector with a fixed number of `i64` components.
#[derive(Debug)]
pub struct Vector {
    components: Vec<i64>,
}

impl View for Vector {
    type V = Seq<int>;

    closed spec fn view(&self) -> Seq<int> {
        Seq::new(self.components@.len(), |i: int| self.components@[i] as int)
    }
}

impl Vector {
    /// The vector whose components are `components`, in order.
    pub fn new(components: Vec<i64>) -> (r: Vector)
        ensures
            r@.len() == components@.len(),
            forall|i: int| 0 <= i < components@.len() ==> r@[i] == components@[i] as int,
    {
        Vector { components }
    }

    /// The zero vector of dimension `dim`.
    pub fn zero(dim: usize) -> (r: Vector)
        ensures
            r@ == vzero(dim as nat),
    {
        let mut components: Vec<i64> = Vec::with_capacity(dim);
        let mut i: usize = 0;
        while i < dim
            invariant
                i <= dim,
                components@.len() == i,
                forall|j: int| 0 <= j < i ==> components@[j] == 0,
            decreases dim - i,
        {
            components.push(0);
            i = i + 1;
        }
        let r = Vector { components };
        assert(r@ =~= vzero(dim as nat));
        r
    }

    /// Number of components.
    pub fn dim(&self) -> (r: usize)
        ensures
            r == self@.len(),
    {
        self.components.len()
    }

    /// The component at index `i`.
    pub fn get(&self, i: usize) -> (r: i64)
        requires
            i < self@.len(),
        ensures
            r == self@[i as int],
    {
        self.components[i]
    }

    /// The components, in order.
    pub fn components(&self) -> (r: Vec<i64>)
        ensures
            r@.len() == self@.len(),
            forall|i: int| 0 <= i < r@.len() ==> r@[i] as int == self@[i],
    {
        self.copy_of().components
    }

    /// A copy of this vector.
    pub fn copy_of(&self) -> (r: Vector)
        ensures
            r@ == self@,
    {
        let mut components: Vec<i64> = Vec::with_capacity(self.components.len());
        let mut i: usize = 0;
        while i < self.components.len()
            invariant
                i <= self.components@.len(),
                components@.len() == i,
                forall|j: int| 0 <= j < i ==> components@[j] == self.components@[j],
            decreases self.components@.len() - i,
        {
            components.push(self.components[i]);
            i = i + 1;
        }
        let r = Vector { components };
        assert(r@ =~= self@);
        r
    }

    /// Adds `other` to this vector, component by component.
    pub fn add_assign(&mut self, other: &Vector)
        requires
            old(self)@.len() == other@.len(),
            fits_i64(vadd(old(self)@, other@)),
        ensures
            final(self)@ == vadd(old(self)@, other@),
    {
        let ghost before = self@;
        let mut i: usize = 0;
        while i < self.components.len()
            invariant
                before.len() == other@.len(),
                fits_i64(vadd(before, other@)),
                self.components@.len() == before.len(),
                i <= before.len(),
                forall|j: int|
                    0 <= j < i ==> self.components@[j] == before[j] + other.components@[j],
                forall|j: int| i <= j < before.len() ==> self.components@[j] == before[j],
            decreases before.len() - i,
        {
            assert(i64::MIN <= vadd(before, other@)[i as int] <= i64::MAX);
            let v = self.components[i] + other.components[i];
            self.components.set(i, v);
            i = i + 1;
        }
        assert(self@ =~= vadd(before, other@));
    }
}

/// Every component of a vector fits in an `i64`.
pub proof fn lemma_vector_fits(v: &Vector)
    ensures
        fits_i64(v@),
{
}

impl PartialEq for Vector {
    fn eq(&self, other: &Vector) -> (r: bool) {
        if self.components.len() != other.components.len() {
            return false;
        }
        let mut i: usize = 0;
        while i < self.components.len()
            invariant
                self.components@.len() == other.components@.len(),
                i <= self.components@.len(),
                forall|j: int| 0 <= j < i ==> self.components@[j] == other.components@[j],
            decreases self.components@.len() - i,
        {
            if self.components[i] != other.components[i] {
                assert(self@[i as int] != other@[i as int]);
                return false;
            }
            i = i + 1;
        }
        assert(self@ =~= other@);
        true
    }
}

impl vstd::std_specs::cmp::PartialEqSpecImpl for Vector {
    open spec fn obeys_eq_spec() -> bool {
        true
    }

    open spec fn eq_spec(&self, other: &Vector) -> bool {
        self@ == other@
    }
}

impl Default for Vector {
    /// The vector with no components.
    fn default() -> (r: Vector)
        ensures
            r@ == Seq::<int>::empty(),
    {
        let r = Vector { components: Vec::new() };
        assert(r@ =~= Seq::<int>::empty());
        r
    }
}

} // verus!
