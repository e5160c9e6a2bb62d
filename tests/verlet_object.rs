use verlet::vector::Vector;
use verlet::verlet_object::{VerletObject, VerletObjectBase};

#[derive(Debug, Default)]
struct Foo {
    verlet_infos: VerletObjectBase,
    test: usize,
}

impl VerletObject for Foo {
    fn get_verlet_infos_mut(&mut self) -> &mut VerletObjectBase {
        &mut self.verlet_infos
    }

    fn get_verlet_infos(&self) -> &VerletObjectBase {
        &self.verlet_infos
    }
}

#[derive(Debug, Default)]
struct FooGeneric<const N: usize> {
    verlet_infos: VerletObjectBase,
    test: usize,
}

impl<const N: usize> VerletObject for FooGeneric<N> {
    fn get_verlet_infos_mut(&mut self) -> &mut VerletObjectBase {
        &mut self.verlet_infos
    }

    fn get_verlet_infos(&self) -> &VerletObjectBase {
        &self.verlet_infos
    }
}

#[derive(Debug, PartialEq, Default)]
struct DummyObj {
    verlet_infos: VerletObjectBase,
}

impl VerletObject for DummyObj {
    fn get_verlet_infos_mut(&mut self) -> &mut VerletObjectBase {
        &mut self.verlet_infos
    }

    fn get_verlet_infos(&self) -> &VerletObjectBase {
        &self.verlet_infos
    }
}

fn v(components: &[i64]) -> Vector {
    Vector::new(components.to_vec())
}

fn accelerate_through_dyn(obj: &mut dyn VerletObject) {
    obj.accelerate(&v(&[2, 3, 4]));
    println!("{:?}", obj.get_verlet_infos());
}

#[test]
fn test() {
    let bar = Foo {
        verlet_infos: VerletObjectBase::default(),
        test: 0,
    };
    assert_eq!(bar.verlet_infos, VerletObjectBase::default());
    println!("{:?} {}", bar, bar.test);
    println!("{:?}", bar.get_verlet_infos());
}

#[test]
fn test_generic() {
    let mut bar: FooGeneric<4> = FooGeneric {
        verlet_infos: VerletObjectBase::default(),
        test: 0,
    };
    assert_eq!(bar.verlet_infos, VerletObjectBase::default());
    println!("{:?} {}", bar, bar.test);
    println!("{:?}", bar.get_verlet_infos_mut());
}

#[test]
fn test_dyn_obj() {
    let mut a = DummyObj {
        verlet_infos: VerletObjectBase::new(Vector::zero(3)),
    };
    accelerate_through_dyn(&mut a);
    assert_eq!(a.get_verlet_infos().acceleration(), &v(&[2, 3, 4]));
}

#[test]
fn new_is_at_rest_without_acceleration() {
    let base = VerletObjectBase::new(v(&[5, -7]));
    assert_eq!(base.position(), &v(&[5, -7]));
    assert_eq!(base.previous_position(), &v(&[5, -7]));
    assert_eq!(base.acceleration(), &v(&[0, 0]));
}

#[test]
fn new_accelerated_keeps_acceleration() {
    let base = VerletObjectBase::new_accelerated(v(&[1, 2]), v(&[3, 4]));
    assert_eq!(base.position(), &v(&[1, 2]));
    assert_eq!(base.previous_position(), &v(&[1, 2]));
    assert_eq!(base.acceleration(), &v(&[3, 4]));
}

#[test]
fn rest_without_force_does_not_drift() {
    for dt in [0u32, 1, 7, 1000] {
        let mut base = VerletObjectBase::new(v(&[10, -20, 30]));
        base.update(dt);
        assert_eq!(base.position(), &v(&[10, -20, 30]));
    }
}

#[test]
fn velocity_carries_over_whatever_the_step() {
    for dt in [0u32, 3, 50] {
        let mut obj = DummyObj {
            verlet_infos: VerletObjectBase::new(v(&[0, 0])),
        };
        *obj.position_mut() = v(&[3, -1]);
        obj.update(dt);
        assert_eq!(obj.position(), &v(&[6, -2]));
        assert_eq!(obj.get_verlet_infos().previous_position(), &v(&[3, -1]));
    }
}

#[test]
fn acceleration_moves_by_a_dt_squared() {
    let mut base = VerletObjectBase::new(v(&[100, 200, 300]));
    base.accelerate(&v(&[1, -2, 3]));
    base.update(10);
    assert_eq!(base.position(), &v(&[200, 0, 600]));
    assert_eq!(base.previous_position(), &v(&[100, 200, 300]));
}

#[test]
fn accelerations_accumulate() {
    let mut twice = VerletObjectBase::new(v(&[0, 0]));
    twice.accelerate(&v(&[1, 5]));
    twice.accelerate(&v(&[2, -7]));
    let mut once = VerletObjectBase::new(v(&[0, 0]));
    once.accelerate(&v(&[3, -2]));
    assert_eq!(twice, once);
    twice.update(4);
    once.update(4);
    assert_eq!(twice, once);
    assert_eq!(once.position(), &v(&[48, -32]));
}

#[test]
fn acceleration_is_not_reset_by_a_step() {
    let mut base = VerletObjectBase::new(v(&[0]));
    base.accelerate(&v(&[2]));
    base.update(1);
    assert_eq!(base.position(), &v(&[2]));
    base.update(1);
    assert_eq!(base.position(), &v(&[6]));
    assert_eq!(base.acceleration(), &v(&[2]));
}

#[test]
fn update_with_zero_step_uses_the_same_formula() {
    let mut base = VerletObjectBase::new_accelerated(v(&[4, 4]), v(&[9, 9]));
    *base.position_mut() = v(&[5, 2]);
    base.update(0);
    assert_eq!(base.position(), &v(&[6, 0]));
}

#[test]
fn integration_is_the_same_in_every_dimension() {
    for n in 1usize..=4 {
        let start: Vec<i64> = (0..n as i64).map(|i| 10 * i).collect();
        let acc: Vec<i64> = (0..n as i64).map(|i| i - 1).collect();
        let mut base = VerletObjectBase::new(Vector::new(start.clone()));
        base.accelerate(&Vector::new(acc.clone()));
        base.update(3);
        let expected: Vec<i64> = (0..n).map(|i| start[i] + acc[i] * 9).collect();
        assert_eq!(base.position(), &Vector::new(expected));
    }
}

#[test]
fn vector_accessors() {
    let a = v(&[1, -2, 3]);
    assert_eq!(a.dim(), 3);
    assert_eq!(a.get(1), -2);
    assert_eq!(a.components(), vec![1, -2, 3]);
    assert_eq!(Vector::zero(2), v(&[0, 0]));
    assert_ne!(a, v(&[1, -2]));
    assert_ne!(a, v(&[1, -2, 4]));
    assert_eq!(Vector::default().dim(), 0);
}

#[test]
fn integer_square_root() {
    assert_eq!(verlet::vector::isqrt(0), 0);
    assert_eq!(verlet::vector::isqrt(15), 3);
    assert_eq!(verlet::vector::isqrt(16), 4);
    assert_eq!(verlet::vector::isqrt(2_250_000), 1500);
    assert_eq!(verlet::vector::isqrt((1u128 << 66) - 1), (1u64 << 33) - 1);
}
