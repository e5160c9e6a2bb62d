//! Verlet integration state of a point mass, and the capability through
//! which a simulated object exposes it.
use vstd::prelude::*;

use crate::vector::{fits_i64, vadd, vscale, vsub, vzero, Vector};

verus! {

/// Mathematical model of a [`VerletObjectBase`].
pub struct VerletState {
    pub current: Seq<int>,
    pub previous: Seq<int>,
    pub acceleration: Seq<int>,
}

impl VerletState {
    /// The three vectors share one dimension.
    pub open spec fn wf(self) -> bool {
        &&& self.previous.len() == self.current.len()
        &&& self.acceleration.len() == self.current.len()
    }

    /// Implicit velocity: the displacement of the last step.
    pub open spec fn velocity(self) -> Seq<int> {
        vsub(self.current, self.previous)
    }
}

/// One Verlet step of `dt` ticks: `x' = x + (x - x_old) + a * dt^2`, and the
/// position being replaced becomes the previous one.
pub open spec fn verlet_step(s: VerletState, dt: nat) -> VerletState {
    VerletState {
        current: vadd(vadd(s.velocity(), s.current), vscale(s.acceleration, (dt * dt) as int)),
        previous: s.current,
        acceleration: s.acceleration,
    }
}

/// The state after `a` is added to the accumulated acceleration.
pub open spec fn accelerated(s: VerletState, a: Seq<int>) -> VerletState {
    VerletState { acceleration: vadd(s.acceleration, a), ..s }
}

/// A state at rest at `position`, with acceleration `acceleration`.
pub open spec fn at_rest(position: Seq<int>, acceleration: Seq<int>) -> VerletState {
    VerletState { current: position, previous: position, acceleration }
}

/// With no velocity and no acceleration, a step of any length leaves the
/// position where it was.
pub proof fn lemma_rest_without_force(s: VerletState, dt: nat)
    requires
        s.wf(),
        s.previous == s.current,
        s.acceleration == vzero(s.current.len()),
    ensures
        verlet_step(s, dt).current == s.current,
{
    assert(verlet_step(s, dt).current =~= s.current);
}

/// Without acceleration a step repeats the last displacement, whatever its
/// length: the new position is `x + (x - x_old)`, the old one is `x`, and
/// steps of any two lengths give the same state.
pub proof fn lemma_velocity_carries_over(s: VerletState, dt: nat)
    requires
        s.wf(),
        s.acceleration == vzero(s.current.len()),
    ensures
        verlet_step(s, dt).current == vadd(s.current, vsub(s.current, s.previous)),
        verlet_step(s, dt).previous == s.current,
        forall|dt2: nat| #[trigger] verlet_step(s, dt2) == verlet_step(s, dt),
{
    assert forall|dt2: nat| #[trigger] verlet_step(s, dt2) == verlet_step(s, dt) by {
        assert(verlet_step(s, dt2).current =~= verlet_step(s, dt).current);
    }
    assert(verlet_step(s, dt).current =~= vadd(s.current, vsub(s.current, s.previous)));
}

/// From rest with no acceleration, adding `a` and stepping `dt` ticks moves
/// the position by `a * dt^2`.
pub proof fn lemma_acceleration_moves(s: VerletState, a: Seq<int>, dt: nat)
    requires
        s.wf(),
        a.len() == s.current.len(),
        s.previous == s.current,
        s.acceleration == vzero(s.current.len()),
    ensures
        verlet_step(accelerated(s, a), dt).current == vadd(
            s.current,
            vscale(a, (dt * dt) as int),
        ),
        verlet_step(accelerated(s, a), dt).previous == s.current,
{
    assert(verlet_step(accelerated(s, a), dt).current =~= vadd(
        s.current,
        vscale(a, (dt * dt) as int),
    ));
}

/// Adding `a1` and then `a2` gives the state that adding `a1 + a2` once
/// gives, before and after the next step.
pub proof fn lemma_accelerations_accumulate(s: VerletState, a1: Seq<int>, a2: Seq<int>, dt: nat)
    requires
        s.wf(),
        a1.len() == s.current.len(),
        a2.len() == s.current.len(),
    ensures
        accelerated(accelerated(s, a1), a2) == accelerated(s, vadd(a1, a2)),
        verlet_step(accelerated(accelerated(s, a1), a2), dt) == verlet_step(
            accelerated(s, vadd(a1, a2)),
            dt,
        ),
{
    assert(vadd(vadd(s.acceleration, a1), a2) =~= vadd(s.acceleration, vadd(a1, a2)));
}

/// A step acts on each coordinate alone, by the same formula in every
/// dimension: component `i` of the result is the one-dimensional step of
/// component `i` of the state.
pub proof fn lemma_step_per_coordinate(s: VerletState, dt: nat, i: int)
    requires
        s.wf(),
        0 <= i < s.current.len(),
    ensures
        verlet_step(s, dt).current.len() == s.current.len(),
        verlet_step(s, dt).current[i] == verlet_step(
            VerletState {
                current: seq![s.current[i]],
                previous: seq![s.previous[i]],
                acceleration: seq![s.acceleration[i]],
            },
            dt,
        ).current[0],
{
}

/// Integration state of one point mass: where it is, where it was one step
/// ago, and the acceleration accumulated for the next step.
#[derive(Debug)]
pub struct VerletObjectBase {
    current_pos: Vector,
    old_pos: Vector,
    acceleration: Vector,
}

impl View for VerletObjectBase {
    type V = VerletState;

    closed spec fn view(&self) -> VerletState {
        VerletState {
            current: self.current_pos@,
            previous: self.old_pos@,
            acceleration: self.acceleration@,
        }
    }
}

impl VerletObjectBase {
    /// A state at rest at `position`, with no acceleration.
    pub fn new(position: Vector) -> (r: VerletObjectBase)
        ensures
            r@ == at_rest(position@, vzero(position@.len())),
            r@.wf(),
    {
        let acceleration = Vector::zero(position.dim());
        VerletObjectBase { old_pos: position.copy_of(), current_pos: position, acceleration }
    }

    /// A state at rest at `position`, with acceleration `acceleration`.
    pub fn new_accelerated(position: Vector, acceleration: Vector) -> (r: VerletObjectBase)
        requires
            acceleration@.len() == position@.len(),
        ensures
            r@ == at_rest(position@, acceleration@),
            r@.wf(),
    {
        VerletObjectBase { old_pos: position.copy_of(), current_pos: position, acceleration }
    }

    /// Current position.
    pub fn position(&self) -> (r: &Vector)
        ensures
            r@ == self@.current,
    {
        &self.current_pos
    }

    /// Position one step ago.
    pub fn previous_position(&self) -> (r: &Vector)
        ensures
            r@ == self@.previous,
    {
        &self.old_pos
    }

    /// Accumulated acceleration.
    pub fn acceleration(&self) -> (r: &Vector)
        ensures
            r@ == self@.acceleration,
    {
        &self.acceleration
    }

    /// Mutable access to the current position; the rest of the state stays.
    pub fn position_mut(&mut self) -> (r: &mut Vector)
        ensures
            r@ == old(self)@.current,
            final(self)@ == (VerletState { current: final(r)@, ..old(self)@ }),
    {
        &mut self.current_pos
    }

    /// Advances the state by one Verlet step of `dt` ticks.
    pub fn update(&mut self, dt: u32)
        requires
            old(self)@.wf(),
            fits_i64(verlet_step(old(self)@, dt as nat).current),
        ensures
            final(self)@ == verlet_step(old(self)@, dt as nat),
    {
        let ghost s = self@;
        let ghost target = verlet_step(s, dt as nat).current;
        let dt_wide = dt as i128;
        assert(0 <= dt_wide * dt_wide <= 0xffff_ffff * 0xffff_ffff) by (nonlinear_arith)
            requires
                0 <= dt_wide <= 0xffff_ffff,
        ;
        let dt_sq: i128 = dt_wide * dt_wide;
        let n = self.current_pos.dim();
        let mut next: Vec<i64> = Vec::with_capacity(n);
        let mut i: usize = 0;
        while i < n
            invariant
                s == self@,
                s.wf(),
                n == s.current.len(),
                target == verlet_step(s, dt as nat).current,
                fits_i64(target),
                dt_sq == dt * dt,
                i <= n,
                next@.len() == i,
                forall|j: int| 0 <= j < i ==> next@[j] as int == target[j],
            decreases n - i,
        {
            let c = self.current_pos.get(i) as i128;
            let o = self.old_pos.get(i) as i128;
            let a = self.acceleration.get(i) as i128;
            assert(0 <= dt_sq <= 0xffff_ffff * 0xffff_ffff) by (nonlinear_arith)
                requires
                    dt_sq == dt * dt,
                    0 <= dt <= 0xffff_ffff,
            ;
            assert(-0x8000_0000_0000_0000 * 0xffff_fffe_0000_0001 <= a * dt_sq
                <= 0x8000_0000_0000_0000 * 0xffff_fffe_0000_0001) by (nonlinear_arith)
                requires
                    0 <= dt_sq <= 0xffff_fffe_0000_0001,
                    -0x8000_0000_0000_0000 <= a <= 0x7fff_ffff_ffff_ffff,
            ;
            let scaled = a * dt_sq;
            let v = (c - o) + c + scaled;
            assert(target[i as int] == v);
            assert(i64::MIN <= target[i as int] <= i64::MAX);
            next.push(v as i64);
            i = i + 1;
        }
        let next = Vector::new(next);
        assert(next@ =~= target);
        std::mem::swap(&mut self.current_pos, &mut self.old_pos);
        self.current_pos = next;
    }

    /// Adds `a` to the accumulated acceleration.
    pub fn accelerate(&mut self, a: &Vector)
        requires
            old(self)@.wf(),
            a@.len() == old(self)@.current.len(),
            fits_i64(vadd(old(self)@.acceleration, a@)),
        ensures
            final(self)@ == accelerated(old(self)@, a@),
    {
        self.acceleration.add_assign(a);
    }
}

impl PartialEq for VerletObjectBase {
    fn eq(&self, other: &VerletObjectBase) -> (r: bool) {
        self.current_pos == other.current_pos && self.old_pos == other.old_pos
            && self.acceleration == other.acceleration
    }
}

impl vstd::std_specs::cmp::PartialEqSpecImpl for VerletObjectBase {
    open spec fn obeys_eq_spec() -> bool {
        true
    }

    open spec fn eq_spec(&self, other: &VerletObjectBase) -> bool {
        self@ == other@
    }
}

impl Default for VerletObjectBase {
    /// The state of dimension zero.
    fn default() -> (r: VerletObjectBase)
        ensures
            r@ == at_rest(Seq::empty(), Seq::empty()),
            r@.wf(),
    {
        VerletObjectBase {
            current_pos: Vector::default(),
            old_pos: Vector::default(),
            acceleration: Vector::default(),
        }
    }
}

/// Capability of a simulated object that owns one Verlet state. Implementors
/// supply the two accessors; positions, stepping and acceleration follow.
pub trait VerletObject {
    /// The owned integration state. Each implementation verified with the
    /// library defines it; otherwise it stands for a state nothing is known of.
    closed spec fn verlet_state(&self) -> VerletState {
        arbitrary()
    }

    fn get_verlet_infos_mut(&mut self) -> (r: &mut VerletObjectBase)
        ensures
            r@ == old(self).verlet_state(),
            final(self).verlet_state() == final(r)@,
    ;

    fn get_verlet_infos(&self) -> (r: &VerletObjectBase)
        ensures
            r@ == self.verlet_state(),
    ;

    fn position(&self) -> (r: &Vector)
        ensures
            r@ == self.verlet_state().current,
    {
        self.get_verlet_infos().position()
    }

    fn position_mut(&mut self) -> (r: &mut Vector)
        ensures
            r@ == old(self).verlet_state().current,
            final(self).verlet_state() == (VerletState {
                current: final(r)@,
                ..old(self).verlet_state()
            }),
    {
        self.get_verlet_infos_mut().position_mut()
    }

    fn update(&mut self, dt: u32)
        requires
            old(self).verlet_state().wf(),
            fits_i64(verlet_step(old(self).verlet_state(), dt as nat).current),
        ensures
            final(self).verlet_state() == verlet_step(old(self).verlet_state(), dt as nat),
    {
        self.get_verlet_infos_mut().update(dt);
    }

    fn accelerate(&mut self, acceleration: &Vector)
        requires
            old(self).verlet_state().wf(),
            acceleration@.len() == old(self).verlet_state().current.len(),
            fits_i64(vadd(old(self).verlet_state().acceleration, acceleration@)),
        ensures
            final(self).verlet_state() == accelerated(old(self).verlet_state(), acceleration@),
    {
        self.get_verlet_infos_mut().accelerate(acceleration);
    }
}

/// A bare integration state is itself a simulated object.
impl VerletObject for VerletObjectBase {
    open spec fn verlet_state(&self) -> VerletState {
        self@
    }

    fn get_verlet_infos_mut(&mut self) -> (r: &mut VerletObjectBase) {
        self
    }

    fn get_verlet_infos(&self) -> (r: &VerletObjectBase) {
        self
    }
}

} // verus!
