//! Shapes attached to Verlet objects, narrow-phase collision tests, and the
//! symmetric separation of two overlapping bodies.
use vstd::prelude::*;

use crate::vector::{
    div_toward_zero, fits_i64, floor_sqrt, is_floor_sqrt, isqrt, lemma_floor_sqrt_exists,
    lemma_floor_sqrt_unique, lemma_norm_sq_bounds,
    lemma_norm_sq_nonneg, lemma_norm_sq_prefix_step, norm_sq, vadd, vsub, Vector,
};
use crate::verlet_object::{VerletObject, VerletState};

verus! {

/// The model of an optional vector.
pub open spec fn opt_view(r: Option<Vector>) -> Option<Seq<int>> {
    match r {
        Some(v) => Some(v@),
        None => None,
    }
}

/// Correction that pushes a sphere of radius `ra` centred at `a` out of a
/// sphere of radius `rb` centred at `b`, or `None` when they do not overlap.
///
/// The spheres overlap when the distance between the centres is below
/// `ra + rb`. The correction then lies along `a - b`, and its length is the
/// penetration depth `ra + rb - d`, where `d` is the distance rounded down;
/// each component is rounded toward zero. Concentric spheres are pushed
/// apart along the first coordinate axis by the full `ra + rb`.
pub open spec fn sphere_collision(a: Seq<int>, ra: nat, b: Seq<int>, rb: nat) -> Option<Seq<int>> {
    let axis = vsub(a, b);
    let min_dist = ra + rb;
    let n = norm_sq(axis);
    if n >= min_dist * min_dist {
        None
    } else if n == 0 {
        Some(Seq::new(a.len(), |i: int| if i == 0 { min_dist as int } else { 0 }))
    } else {
        let d = floor_sqrt(n as nat);
        Some(Seq::new(a.len(), |i: int| div_toward_zero(axis[i] * (min_dist - d), d)))
    }
}

/// The geometry of a sphere: its centre and its radius.
pub struct SphereShape<'a> {
    pub center: &'a Vector,
    pub radius: u32,
}

/// Narrow-phase test of two spheres: the correction that moves `a` out of
/// `b`, or `None` when they do not overlap.
pub fn collide_spheres(a: &SphereShape, b: &SphereShape) -> (r: Option<Vector>)
    requires
        a.center@.len() == b.center@.len(),
    ensures
        opt_view(r) == sphere_collision(a.center@, a.radius as nat, b.center@, b.radius as nat),
{
    let ghost axis = vsub(a.center@, b.center@);
    let dim = a.center.dim();
    let min_dist: u64 = a.radius as u64 + b.radius as u64;
    assert(min_dist * min_dist <= 0x1_ffff_fffe * 0x1_ffff_fffe) by (nonlinear_arith)
        requires
            min_dist <= 0x1_ffff_fffe,
    ;
    let min_sq: u128 = min_dist as u128 * min_dist as u128;
    if min_sq == 0 {
        proof {
            lemma_norm_sq_nonneg(axis);
        }
        return None;
    }
    let mut axis_exec: Vec<i128> = Vec::with_capacity(dim);
    let mut acc: u128 = 0;
    let mut i: usize = 0;
    while i < dim
        invariant
            dim == a.center@.len(),
            dim == b.center@.len(),
            axis == vsub(a.center@, b.center@),
            min_dist == a.radius + b.radius,
            min_sq == min_dist * min_dist,
            i <= dim,
            axis_exec@.len() == i,
            forall|j: int| 0 <= j < i ==> axis_exec@[j] as int == axis[j],
            forall|j: int|
                0 <= j < i ==> -0xffff_ffff_ffff_ffff <= #[trigger] axis_exec@[j]
                    <= 0xffff_ffff_ffff_ffff,
            acc == norm_sq(axis.take(i as int)),
            acc < min_sq,
        decreases dim - i,
    {
        let x: i128 = a.center.get(i) as i128 - b.center.get(i) as i128;
        let m: u128 = if x >= 0 {
            x as u128
        } else {
            (-x) as u128
        };
        assert(m * m <= 0xffff_ffff_ffff_ffff * 0xffff_ffff_ffff_ffff) by (nonlinear_arith)
            requires
                m <= 0xffff_ffff_ffff_ffff,
        ;
        let sq: u128 = m * m;
        assert(sq == x * x) by (nonlinear_arith)
            requires
                sq == m * m,
                m == x || m == -x,
        ;
        proof {
            lemma_norm_sq_prefix_step(axis, i as int);
        }
        if sq >= min_sq - acc {
            proof {
                lemma_norm_sq_bounds(axis, i + 1);
                assert(norm_sq(axis) >= min_dist * min_dist);
            }
            return None;
        }
        acc = acc + sq;
        axis_exec.push(x);
        i = i + 1;
    }
    assert(axis.take(dim as int) =~= axis);
    if acc == 0 {
        let mut c: Vec<i64> = Vec::with_capacity(dim);
        let mut k: usize = 0;
        while k < dim
            invariant
                k <= dim,
                c@.len() == k,
                min_dist <= 0x1_ffff_fffe,
                forall|j: int| 0 <= j < k ==> c@[j] as int == if j == 0 { min_dist as int } else { 0 },
            decreases dim - k,
        {
            if k == 0 {
                c.push(min_dist as i64);
            } else {
                c.push(0);
            }
            k = k + 1;
        }
        let r = Vector::new(c);
        assert(r@ =~= Seq::new(a.center@.len(), |j: int| if j == 0 { min_dist as int } else { 0 }));
        return Some(r);
    }
    let d = isqrt(acc);
    proof {
        lemma_floor_sqrt_unique(acc as nat, d as nat);
        assert(d < min_dist) by (nonlinear_arith)
            requires
                d * d <= acc,
                acc < min_dist * min_dist,
        ;
        assert(d > 0) by (nonlinear_arith)
            requires
                acc > 0,
                acc < (d + 1) * (d + 1),
        ;
    }
    let delta: u64 = min_dist - d;
    let ghost target = Seq::new(a.center@.len(), |j: int| div_toward_zero(axis[j] * (min_dist - d), d as nat));
    let mut c: Vec<i64> = Vec::with_capacity(dim);
    let mut k: usize = 0;
    while k < dim
        invariant
            dim == axis.len(),
            k <= dim,
            c@.len() == k,
            axis_exec@.len() == dim,
            forall|j: int| 0 <= j < dim ==> axis_exec@[j] as int == axis[j],
            forall|j: int|
                0 <= j < dim ==> -0xffff_ffff_ffff_ffff <= #[trigger] axis_exec@[j]
                    <= 0xffff_ffff_ffff_ffff,
            norm_sq(axis) == acc,
            acc < (d + 1) * (d + 1),
            0 < d < min_dist <= 0x1_ffff_fffe,
            min_dist == a.radius + b.radius,
            delta == min_dist - d,
            target == Seq::new(dim as nat, |j: int| div_toward_zero(axis[j] * (min_dist - d), d as nat)),
            forall|j: int| 0 <= j < k ==> c@[j] as int == target[j],
        decreases dim - k,
    {
        let x = axis_exec[k];
        proof {
            lemma_norm_sq_bounds(axis, k as int);
        }
        let m: u128 = if x >= 0 {
            x as u128
        } else {
            (-x) as u128
        };
        assert(m * m == x * x) by (nonlinear_arith)
            requires
                m == x || m == -x,
        ;
        assert(m <= d) by (nonlinear_arith)
            requires
                m * m == x * x,
                x * x <= acc,
                acc < (d + 1) * (d + 1),
                m >= 0,
                d > 0,
        ;
        assert(m * delta <= d * delta) by (nonlinear_arith)
            requires
                m <= d,
                delta >= 0,
        ;
        assert(d * delta <= 0x1_ffff_fffe * 0x1_ffff_fffe) by (nonlinear_arith)
            requires
                d <= 0x1_ffff_fffe,
                delta <= 0x1_ffff_fffe,
        ;
        let p: u128 = m * (delta as u128);
        let q: u128 = p / (d as u128);
        assert(q <= delta) by (nonlinear_arith)
            requires
                q == p / (d as u128),
                p <= d * delta,
                d > 0,
        ;
        let v: i64 = if x >= 0 {
            q as i64
        } else {
            -(q as i64)
        };
        assert(v == target[k as int]) by (nonlinear_arith)
            requires
                x >= 0 ==> m == x,
                x < 0 ==> m == -x,
                p == m * delta,
                q == p / (d as u128),
                d > 0,
                delta > 0,
                x >= 0 ==> v == q,
                x < 0 ==> v == -q,
                target[k as int] == div_toward_zero(x * delta, d as nat),
        ;
        c.push(v);
        k = k + 1;
    }
    let r = Vector::new(c);
    assert(r@ =~= target);
    Some(r)
}

/// Half of each component, rounded toward zero.
pub open spec fn halve(c: Seq<int>) -> Seq<int> {
    Seq::new(c.len(), |i: int| div_toward_zero(c[i], 2))
}

/// Positions of two bodies at `a` and `b` after the correction `c` is split
/// evenly between them: `a` moves by `halve(c)` and `b` by `-halve(c)`.
pub open spec fn pushed_apart(a: Seq<int>, b: Seq<int>, c: Seq<int>) -> (Seq<int>, Seq<int>) {
    (vadd(a, halve(c)), vsub(b, halve(c)))
}

/// The model of a body's collision geometry.
pub enum Shape {
    Sphere { radius: nat },
}

/// Narrow-phase test of two bodies at `a` and `b`, chosen by their shapes.
pub open spec fn collision(a: Seq<int>, sa: Shape, b: Seq<int>, sb: Shape) -> Option<Seq<int>> {
    match (sa, sb) {
        (Shape::Sphere { radius: ra }, Shape::Sphere { radius: rb }) => sphere_collision(
            a,
            ra,
            b,
            rb,
        ),
    }
}

/// Positions of two bodies after their overlap, if any, is resolved.
pub open spec fn uncollided(a: Seq<int>, sa: Shape, b: Seq<int>, sb: Shape) -> (Seq<int>, Seq<int>) {
    match collision(a, sa, b, sb) {
        Some(c) => pushed_apart(a, b, c),
        None => (a, b),
    }
}

/// Splits a correction into the move of the first body, `halve(c)`, and the
/// move of the second, its negation.
fn split_correction(c: &Vector) -> (r: (Vector, Vector))
    ensures
        r.0@ == halve(c@),
        r.1@ == vsub(vsub(c@, c@), halve(c@)),
{
    let n = c.dim();
    let mut first: Vec<i64> = Vec::with_capacity(n);
    let mut second: Vec<i64> = Vec::with_capacity(n);
    let mut i: usize = 0;
    while i < n
        invariant
            n == c@.len(),
            i <= n,
            first@.len() == i,
            second@.len() == i,
            forall|j: int| 0 <= j < i ==> first@[j] as int == div_toward_zero(c@[j], 2),
            forall|j: int| 0 <= j < i ==> second@[j] as int == -div_toward_zero(c@[j], 2),
        decreases n - i,
    {
        let x = c.get(i) as i128;
        let h: i128 = if x >= 0 {
            x / 2
        } else {
            -((-x) / 2)
        };
        first.push(h as i64);
        second.push((-h) as i64);
        i = i + 1;
    }
    let r = (Vector::new(first), Vector::new(second));
    assert(r.0@ =~= halve(c@));
    assert(r.1@ =~= vsub(vsub(c@, c@), halve(c@)));
    r
}

/// Resolving an overlap splits the correction `c` evenly: `a` moves by
/// `halve(c)` and `b` by exactly the opposite, so the midpoint of the pair
/// stays where it was. Together the moves make up `c` to within one unit per
/// component, and the centres end up `axis + 2 * halve(c)` apart, where
/// `axis = a - b`.
pub proof fn lemma_separation_is_symmetric(a: Seq<int>, b: Seq<int>, c: Seq<int>)
    requires
        a.len() == b.len(),
        c.len() == a.len(),
    ensures
        vsub(pushed_apart(a, b, c).0, a) == halve(c),
        vsub(b, pushed_apart(a, b, c).1) == halve(c),
        vadd(pushed_apart(a, b, c).0, pushed_apart(a, b, c).1) == vadd(a, b),
        forall|i: int| 0 <= i < c.len() ==> -1 <= c[i] - 2 * #[trigger] halve(c)[i] <= 1,
        vsub(pushed_apart(a, b, c).0, pushed_apart(a, b, c).1) == vadd(
            vsub(a, b),
            vadd(halve(c), halve(c)),
        ),
{
    let (a2, b2) = pushed_apart(a, b, c);
    assert(vsub(a2, a) =~= halve(c));
    assert(vsub(b, b2) =~= halve(c));
    assert(vadd(a2, b2) =~= vadd(a, b));
    assert(vsub(a2, b2) =~= vadd(vsub(a, b), vadd(halve(c), halve(c))));
}

/// If `w * q == u * p` componentwise, the squared norms scale alike.
proof fn lemma_norm_sq_proportional(u: Seq<int>, w: Seq<int>, p: int, q: int)
    requires
        u.len() == w.len(),
        forall|i: int| 0 <= i < u.len() ==> #[trigger] w[i] * q == u[i] * p,
    ensures
        norm_sq(w) * (q * q) == norm_sq(u) * (p * p),
    decreases u.len(),
{
    if u.len() > 0 {
        let k = u.len() - 1;
        assert(w[k] * q == u[k] * p);
        lemma_norm_sq_proportional(u.drop_last(), w.drop_last(), p, q);
        let (nu, nw, x, y) = (norm_sq(u.drop_last()), norm_sq(w.drop_last()), u[k], w[k]);
        assert((nw + y * y) * (q * q) == (nu + x * x) * (p * p)) by (nonlinear_arith)
            requires
                nw * (q * q) == nu * (p * p),
                y * q == x * p,
        ;
    }
}

/// Two overlapping spheres end up exactly touching, their centres
/// `ra + rb` apart, when nothing is rounded: the squared distance is a
/// perfect square, every component of the correction divides exactly, and
/// every component of the correction is even, so that it halves exactly.
pub proof fn lemma_separation_reaches_contact(a: Seq<int>, ra: nat, b: Seq<int>, rb: nat)
    requires
        a.len() == b.len(),
        sphere_collision(a, ra, b, rb) is Some,
        norm_sq(vsub(a, b)) > 0,
        floor_sqrt(norm_sq(vsub(a, b)) as nat) * floor_sqrt(norm_sq(vsub(a, b)) as nat) == norm_sq(
            vsub(a, b),
        ),
        forall|i: int|
            0 <= i < a.len() ==> #[trigger] div_toward_zero(
                vsub(a, b)[i] * (ra + rb - floor_sqrt(norm_sq(vsub(a, b)) as nat)),
                floor_sqrt(norm_sq(vsub(a, b)) as nat),
            ) * floor_sqrt(norm_sq(vsub(a, b)) as nat) == vsub(a, b)[i] * (ra + rb - floor_sqrt(
                norm_sq(vsub(a, b)) as nat,
            )),
        forall|i: int|
            0 <= i < a.len() ==> 2 * #[trigger] halve(sphere_collision(a, ra, b, rb)->0)[i]
                == sphere_collision(a, ra, b, rb)->0[i],
    ensures
        norm_sq(
            vsub(
                pushed_apart(a, b, sphere_collision(a, ra, b, rb)->0).0,
                pushed_apart(a, b, sphere_collision(a, ra, b, rb)->0).1,
            ),
        ) == (ra + rb) * (ra + rb),
{
    let axis = vsub(a, b);
    let n = norm_sq(axis);
    let d = floor_sqrt(n as nat);
    let min_dist = ra + rb;
    let c = sphere_collision(a, ra, b, rb)->0;
    lemma_separation_is_symmetric(a, b, c);
    let w = vadd(axis, c);
    assert(vadd(axis, vadd(halve(c), halve(c))) =~= w) by {
        assert forall|i: int| 0 <= i < c.len() implies halve(c)[i] + halve(c)[i] == c[i] by {
            assert(2 * halve(c)[i] == c[i]);
        }
    }
    assert forall|i: int| 0 <= i < axis.len() implies #[trigger] w[i] * d == axis[i] * min_dist by {
        let y = axis[i] * (min_dist - d);
        assert(c[i] == div_toward_zero(y, d));
        assert(c[i] * d == y);
        assert(w[i] == axis[i] + c[i]);
        assert((axis[i] + c[i]) * d == axis[i] * d + c[i] * d) by (nonlinear_arith);
        assert(axis[i] * d + axis[i] * (min_dist - d) == axis[i] * min_dist) by (nonlinear_arith);
    }
    lemma_norm_sq_proportional(axis, w, min_dist as int, d as int);
    let nw = norm_sq(w);
    assert(nw == min_dist * min_dist) by (nonlinear_arith)
        requires
            nw * (d * d) == n * (min_dist * min_dist),
            d * d == n,
            n > 0,
    ;
}

/// Without rounding, the correction between two overlapping spheres has
/// the length of the penetration depth, `ra + rb - distance`, and lies along
/// the axis from `b` to `a`.
pub proof fn lemma_correction_is_penetration_depth(a: Seq<int>, ra: nat, b: Seq<int>, rb: nat)
    requires
        a.len() == b.len(),
        sphere_collision(a, ra, b, rb) is Some,
        norm_sq(vsub(a, b)) > 0,
        floor_sqrt(norm_sq(vsub(a, b)) as nat) * floor_sqrt(norm_sq(vsub(a, b)) as nat) == norm_sq(
            vsub(a, b),
        ),
        forall|i: int|
            0 <= i < a.len() ==> #[trigger] div_toward_zero(
                vsub(a, b)[i] * (ra + rb - floor_sqrt(norm_sq(vsub(a, b)) as nat)),
                floor_sqrt(norm_sq(vsub(a, b)) as nat),
            ) * floor_sqrt(norm_sq(vsub(a, b)) as nat) == vsub(a, b)[i] * (ra + rb - floor_sqrt(
                norm_sq(vsub(a, b)) as nat,
            )),
    ensures
        ({
            let d = floor_sqrt(norm_sq(vsub(a, b)) as nat);
            let c = sphere_collision(a, ra, b, rb)->0;
            &&& norm_sq(c) == (ra + rb - d) * (ra + rb - d)
            &&& forall|i: int|
                0 <= i < a.len() ==> #[trigger] c[i] * d == vsub(a, b)[i] * (ra + rb - d)
        }),
{
    let axis = vsub(a, b);
    let n = norm_sq(axis);
    let d = floor_sqrt(n as nat);
    let depth = ra + rb - d;
    let c = sphere_collision(a, ra, b, rb)->0;
    assert forall|i: int| 0 <= i < axis.len() implies #[trigger] c[i] * d == axis[i] * depth by {
        assert(c[i] == div_toward_zero(axis[i] * depth, d));
    }
    lemma_norm_sq_proportional(axis, c, depth, d as int);
    let nc = norm_sq(c);
    assert(nc == depth * depth) by (nonlinear_arith)
        requires
            nc * (d * d) == n * (depth * depth),
            d * d == n,
            n > 0,
    ;
}

/// A vector that is zero but at index `k` has the square of that component
/// as its squared norm (zero when `k` is past the end).
proof fn lemma_norm_sq_single(s: Seq<int>, k: int)
    requires
        0 <= k,
        forall|i: int| 0 <= i < s.len() && i != k ==> s[i] == 0,
    ensures
        norm_sq(s) == if k < s.len() {
            s[k] * s[k]
        } else {
            0
        },
    decreases s.len(),
{
    if s.len() > 0 {
        let rest = s.drop_last();
        assert forall|i: int| 0 <= i < rest.len() && i != k implies rest[i] == 0 by {
            assert(rest[i] == s[i]);
        }
        lemma_norm_sq_single(rest, k);
        assert(norm_sq(s) == norm_sq(rest) + s.last() * s.last());
        if k < rest.len() {
            assert(rest[k] == s[k]);
            assert(s.last() == 0);
        } else if k == rest.len() {
            assert(s.last() == s[k]);
        } else {
            assert(s.last() == 0);
        }
    }
}

/// Spheres whose centres lie on one coordinate axis, `t` units apart along
/// axis `k`, overlap by the depth `ra + rb - |t|`; the correction has that
/// length, points from `b` toward `a` along axis `k`, and is zero on every
/// other axis.
pub proof fn lemma_axis_aligned_collision(
    a: Seq<int>,
    ra: nat,
    b: Seq<int>,
    rb: nat,
    k: int,
    t: int,
)
    requires
        a.len() == b.len(),
        0 <= k < a.len(),
        forall|i: int| 0 <= i < a.len() ==> #[trigger] vsub(a, b)[i] == if i == k { t } else { 0 },
        t != 0,
        t * t < (ra + rb) * (ra + rb),
    ensures
        sphere_collision(a, ra, b, rb) == Some(
            Seq::new(
                a.len(),
                |i: int|
                    if i != k {
                        0
                    } else if t > 0 {
                        ra + rb - t
                    } else {
                        -(ra + rb + t)
                    },
            ),
        ),
{
    let axis = vsub(a, b);
    let min_dist = ra + rb;
    assert(axis[k] == t);
    lemma_norm_sq_single(axis, k);
    assert(norm_sq(axis) == t * t);
    let m: nat = if t > 0 { t as nat } else { (-t) as nat };
    assert(m * m == t * t) by (nonlinear_arith)
        requires
            m == t || m == -t,
    ;
    assert(is_floor_sqrt((t * t) as nat, m)) by (nonlinear_arith)
        requires
            m * m == t * t,
            m >= 0,
    ;
    lemma_floor_sqrt_unique((t * t) as nat, m);
    assert(t * t > 0) by (nonlinear_arith)
        requires
            t != 0,
    ;
    let depth = min_dist - m;
    assert(m < min_dist) by (nonlinear_arith)
        requires
            m * m == t * t,
            t * t < min_dist * min_dist,
            m >= 0,
    ;
    assert(floor_sqrt(norm_sq(axis) as nat) == m);
    assert(sphere_collision(a, ra, b, rb) == Some(
        Seq::new(a.len(), |i: int| div_toward_zero(axis[i] * (min_dist - m), m)),
    ));
    let c = sphere_collision(a, ra, b, rb)->0;
    let expected = Seq::new(
        a.len(),
        |i: int|
            if i != k {
                0
            } else if t > 0 {
                ra + rb - t
            } else {
                -(ra + rb + t)
            },
    );
    assert forall|i: int| 0 <= i < a.len() implies c[i] == expected[i] by {
        assert(c[i] == div_toward_zero(axis[i] * depth, m));
        if i == k {
            if t > 0 {
                assert(t * depth > 0) by (nonlinear_arith)
                    requires
                        t > 0,
                        depth > 0,
                ;
                assert((t * depth) / (m as int) == depth) by (nonlinear_arith)
                    requires
                        m == t,
                        t > 0,
                ;
            } else {
                assert(((-t) * depth) / (m as int) == depth) by (nonlinear_arith)
                    requires
                        m == -t,
                        t < 0,
                ;
                assert(-(t * depth) == (-t) * depth) by (nonlinear_arith);
                assert(t * depth < 0) by (nonlinear_arith)
                    requires
                        t < 0,
                        depth > 0,
                ;
            }
        } else {
            assert(0 * depth == 0);
        }
    }
    assert(c =~= expected);
}

/// A coordinate on which both centres are zero changes nothing: the test in
/// `n + 1` dimensions gives the `n`-dimensional correction padded with zero.
pub proof fn lemma_collision_ignores_zero_coordinate(a: Seq<int>, ra: nat, b: Seq<int>, rb: nat)
    requires
        a.len() == b.len(),
        a.len() > 0,
    ensures
        sphere_collision(a.push(0), ra, b.push(0), rb) == match sphere_collision(a, ra, b, rb) {
            Some(c) => Some(c.push(0)),
            None => None,
        },
{
    let axis = vsub(a, b);
    let padded = vsub(a.push(0), b.push(0));
    assert(padded.drop_last() =~= axis);
    assert(padded.last() == 0);
    assert(norm_sq(padded) == norm_sq(axis));
    lemma_norm_sq_nonneg(axis);
    let n = norm_sq(axis);
    if n > 0 && n < (ra + rb) * (ra + rb) {
        let d = floor_sqrt(n as nat);
        let c = sphere_collision(a, ra, b, rb)->0;
        let c2 = sphere_collision(a.push(0), ra, b.push(0), rb)->0;
        assert(d > 0) by {
            lemma_floor_sqrt_exists(n as nat);
            assert(d == 0 ==> n < 1) by (nonlinear_arith)
                requires
                    n < (d + 1) * (d + 1),
            ;
        }
        assert forall|i: int| 0 <= i < a.len() implies padded[i] == axis[i] by {
            assert(padded.drop_last()[i] == padded[i]);
        }
        assert(c2 =~= c.push(0)) by {
            assert(padded[a.len() as int] * (ra + rb - d) == 0);
            assert(c2[a.len() as int] == div_toward_zero(0, d));
        }
        assert(sphere_collision(a.push(0), ra, b.push(0), rb) == Some(c2));
        assert(sphere_collision(a, ra, b, rb) == Some(c));
    } else if n == 0 && 0 < (ra + rb) * (ra + rb) {
        let c = sphere_collision(a, ra, b, rb)->0;
        let c2 = sphere_collision(a.push(0), ra, b.push(0), rb)->0;
        assert(c2 =~= c.push(0));
        assert(sphere_collision(a.push(0), ra, b.push(0), rb) == Some(c2));
        assert(sphere_collision(a, ra, b, rb) == Some(c));
    } else {
        assert(sphere_collision(a.push(0), ra, b.push(0), rb) is None);
        assert(sphere_collision(a, ra, b, rb) is None);
    }
}

/// The shape a body exposes to the collision resolver.
pub enum BodyType<'a> {
    Sphere(SphereShape<'a>),
}

/// The error of a narrow-phase test that is not implemented.
#[derive(Debug, PartialEq, Eq)]
pub struct UnsupportedCollision;

/// A convex polygonal body, given by its vertices.
pub trait ConvexObject: VerletObject {
    /// The vertices, in order. Each implementation verified with the library
    /// defines it; otherwise it stands for vertices nothing is known of.
    closed spec fn vertices(&self) -> Seq<Seq<int>> {
        arbitrary()
    }

    fn points(&self) -> (r: Vec<Vector>)
        ensures
            r@.len() == self.vertices().len(),
            forall|i: int| 0 <= i < r@.len() ==> r@[i]@ == self.vertices()[i],
    ;

    /// Narrow-phase test of two convex bodies. It is not implemented, and
    /// says so rather than reporting no collision.
    fn collide_convex(&self, _other_points: &Vec<Vector>) -> (r: Result<
        Option<Vector>,
        UnsupportedCollision,
    >)
        ensures
            r is Err,
    {
        Err(UnsupportedCollision)
    }
}

/// A sphere attached to a Verlet object: its centre is the object's position.
pub trait SphereObject: VerletObject {
    /// The radius. Each implementation verified with the library defines it;
    /// otherwise it stands for a radius nothing is known of.
    closed spec fn sphere_radius(&self) -> nat {
        arbitrary()
    }

    fn radius(&self) -> (r: u32)
        ensures
            r as nat == self.sphere_radius(),
    ;

    /// The correction that moves this sphere out of the sphere `other`, or
    /// `None` when they do not overlap.
    fn collide_sphere(&self, other: &SphereShape) -> (r: Option<Vector>)
        requires
            self.verlet_state().current.len() == other.center@.len(),
        ensures
            opt_view(r) == sphere_collision(
                self.verlet_state().current,
                self.sphere_radius(),
                other.center@,
                other.radius as nat,
            ),
    {
        let own = SphereShape { center: self.position(), radius: self.radius() };
        collide_spheres(&own, other)
    }
}

/// A concave body, made of convex parts.
pub trait ConcaveObject: VerletObject {
    type Part: ConvexObject;

    fn parts(&self) -> Vec<Self::Part>;
}

/// A body that takes part in collision resolution.
pub trait SoftBody: VerletObject {
    /// The body's collision geometry.
    spec fn shape(&self) -> Shape;

    fn body_type(&self) -> (r: BodyType<'_>)
        ensures
            match r {
                BodyType::Sphere(s) => s.center@ == self.verlet_state().current && self.shape()
                    == (Shape::Sphere { radius: s.radius as nat }),
            },
    ;

}

/// The correction that moves `a` out of `b`, or `None` when they do not
/// overlap: the narrow-phase test that matches the two bodies' shapes.
pub fn collide<A: SoftBody, B: SoftBody>(a: &A, b: &B) -> (r: Option<Vector>)
    requires
        a.verlet_state().current.len() == b.verlet_state().current.len(),
    ensures
        opt_view(r) == collision(
            a.verlet_state().current,
            a.shape(),
            b.verlet_state().current,
            b.shape(),
        ),
{
    match (a.body_type(), b.body_type()) {
        (BodyType::Sphere(sa), BodyType::Sphere(sb)) => collide_spheres(&sa, &sb),
    }
}

/// Resolves an overlap of `a` and `b` by moving them apart, each by half of
/// the correction, in opposite directions.
pub fn uncollide<A: SoftBody, B: SoftBody>(a: &mut A, b: &mut B)
    requires
        old(a).verlet_state().current.len() == old(b).verlet_state().current.len(),
        fits_i64(
            uncollided(
                old(a).verlet_state().current,
                old(a).shape(),
                old(b).verlet_state().current,
                old(b).shape(),
            ).0,
        ),
        fits_i64(
            uncollided(
                old(a).verlet_state().current,
                old(a).shape(),
                old(b).verlet_state().current,
                old(b).shape(),
            ).1,
        ),
    ensures
        final(a).verlet_state() == (VerletState {
            current: uncollided(
                old(a).verlet_state().current,
                old(a).shape(),
                old(b).verlet_state().current,
                old(b).shape(),
            ).0,
            ..old(a).verlet_state()
        }),
        final(b).verlet_state() == (VerletState {
            current: uncollided(
                old(a).verlet_state().current,
                old(a).shape(),
                old(b).verlet_state().current,
                old(b).shape(),
            ).1,
            ..old(b).verlet_state()
        }),
{
    let ghost pa = a.verlet_state().current;
    let ghost pb = b.verlet_state().current;
    if let Some(delta) = collide(&*a, &*b) {
        let (first, second) = split_correction(&delta);
        assert(vsub(pb, halve(delta@)) =~= vadd(pb, second@));
        a.position_mut().add_assign(&first);
        b.position_mut().add_assign(&second);
    }
}

impl<T: SphereObject> SoftBody for T {
    open spec fn shape(&self) -> Shape {
        Shape::Sphere { radius: self.sphere_radius() }
    }

    fn body_type(&self) -> (r: BodyType<'_>) {
        BodyType::Sphere(SphereShape { center: self.position(), radius: self.radius() })
    }
}

} // verus!
