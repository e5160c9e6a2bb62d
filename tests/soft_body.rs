use verlet::soft_body::{
    collide, collide_spheres, uncollide, BodyType, ConcaveObject, ConvexObject, SoftBody,
    SphereObject, SphereShape, UnsupportedCollision,
};
use verlet::vector::Vector;
use verlet::verlet_object::{VerletObject, VerletObjectBase};

#[derive(Debug)]
struct Ball {
    base: VerletObjectBase,
    radius: u32,
}

impl VerletObject for Ball {
    fn get_verlet_infos_mut(&mut self) -> &mut VerletObjectBase {
        &mut self.base
    }

    fn get_verlet_infos(&self) -> &VerletObjectBase {
        &self.base
    }
}

impl SphereObject for Ball {
    fn radius(&self) -> u32 {
        self.radius
    }
}

struct Triangle {
    base: VerletObjectBase,
}

impl VerletObject for Triangle {
    fn get_verlet_infos_mut(&mut self) -> &mut VerletObjectBase {
        &mut self.base
    }

    fn get_verlet_infos(&self) -> &VerletObjectBase {
        &self.base
    }
}

impl ConvexObject for Triangle {
    fn points(&self) -> Vec<Vector> {
        vec![v(&[0, 0]), v(&[10, 0]), v(&[0, 10])]
    }
}

struct Pair {
    base: VerletObjectBase,
}

impl VerletObject for Pair {
    fn get_verlet_infos_mut(&mut self) -> &mut VerletObjectBase {
        &mut self.base
    }

    fn get_verlet_infos(&self) -> &VerletObjectBase {
        &self.base
    }
}

impl ConcaveObject for Pair {
    type Part = Triangle;

    fn parts(&self) -> Vec<Triangle> {
        vec![
            Triangle { base: VerletObjectBase::new(v(&[0, 0])) },
            Triangle { base: VerletObjectBase::new(v(&[20, 0])) },
        ]
    }
}

fn v(components: &[i64]) -> Vector {
    Vector::new(components.to_vec())
}

fn ball(center: &[i64], radius: u32) -> Ball {
    Ball {
        base: VerletObjectBase::new(v(center)),
        radius,
    }
}

#[test]
fn spheres_apart_do_not_collide() {
    let a = ball(&[0, 0, 0], 1000);
    let b = ball(&[3000, 0, 0], 1000);
    assert!(collide(&a, &b).is_none());
    let shape = SphereShape { center: b.position(), radius: b.radius() };
    assert!(a.collide_sphere(&shape).is_none());
}

#[test]
fn touching_spheres_do_not_collide() {
    let a = ball(&[0, 0], 1000);
    let b = ball(&[0, 2000], 1000);
    assert!(collide(&a, &b).is_none());
}

#[test]
fn overlap_gives_penetration_depth_along_the_axis() {
    let a = ball(&[1500, 0, 0], 1000);
    let b = ball(&[0, 0, 0], 1000);
    assert_eq!(collide(&a, &b), Some(v(&[500, 0, 0])));
    assert_eq!(collide(&b, &a), Some(v(&[-500, 0, 0])));
    let shape = SphereShape { center: b.position(), radius: b.radius() };
    assert_eq!(a.collide_sphere(&shape), Some(v(&[500, 0, 0])));
}

#[test]
fn oblique_overlap() {
    // Centres 5 apart along (3, 4); radii add up to 10: depth 5.
    let a = ball(&[3, 4], 6);
    let b = ball(&[0, 0], 4);
    assert_eq!(collide(&a, &b), Some(v(&[3, 4])));
}

#[test]
fn correction_rounds_toward_zero() {
    // Squared distance 2, distance rounded down to 1, depth 9.
    let a = ball(&[0, 0], 5);
    let b = ball(&[1, -1], 5);
    assert_eq!(collide(&a, &b), Some(v(&[-9, 9])));
}

#[test]
fn concentric_spheres_separate_along_the_first_axis() {
    let a = ball(&[7, 7], 3);
    let b = ball(&[7, 7], 4);
    assert_eq!(collide(&a, &b), Some(v(&[7, 0])));
}

#[test]
fn points_never_collide() {
    let a = ball(&[7, 7], 0);
    let b = ball(&[7, 7], 0);
    assert!(collide(&a, &b).is_none());
}

#[test]
fn uncollide_separates_symmetrically() {
    let mut a = ball(&[1500, 0, 0], 1000);
    let mut b = ball(&[0, 0, 0], 1000);
    uncollide(&mut a, &mut b);
    assert_eq!(a.position(), &v(&[1750, 0, 0]));
    assert_eq!(b.position(), &v(&[-250, 0, 0]));
    assert!(collide(&a, &b).is_none());
    assert_eq!(a.get_verlet_infos().previous_position(), &v(&[1500, 0, 0]));
}

#[test]
fn uncollide_splits_an_odd_correction_evenly() {
    // Correction [-9, 9]: each body moves by [-4, 4], in opposite directions,
    // and the sum of the two positions stays [1, -1].
    let mut a = ball(&[0, 0], 5);
    let mut b = ball(&[1, -1], 5);
    uncollide(&mut a, &mut b);
    assert_eq!(a.position(), &v(&[-4, 4]));
    assert_eq!(b.position(), &v(&[5, -5]));
    let sum: Vec<i64> = (0..2).map(|i| a.position().get(i) + b.position().get(i)).collect();
    assert_eq!(sum, vec![1, -1]);
}

#[test]
fn uncollide_leaves_separate_spheres_alone() {
    let mut a = ball(&[0, 0], 1);
    let mut b = ball(&[5, 5], 1);
    uncollide(&mut a, &mut b);
    assert_eq!(a.position(), &v(&[0, 0]));
    assert_eq!(b.position(), &v(&[5, 5]));
}

#[test]
fn collision_is_the_same_in_every_dimension() {
    for n in 1usize..=4 {
        let mut ca = vec![0i64; n];
        ca[n - 1] = 1500;
        let mut a = ball(&ca, 1000);
        let mut b = ball(&vec![0i64; n], 1000);
        let mut expected = vec![0i64; n];
        expected[n - 1] = 500;
        assert_eq!(collide(&a, &b), Some(Vector::new(expected)));
        uncollide(&mut a, &mut b);
        let mut moved = vec![0i64; n];
        moved[n - 1] = 1750;
        assert_eq!(a.position(), &Vector::new(moved));
    }
}

#[test]
fn new_accelerated_state_integrates() {
    let mut a = Ball {
        base: VerletObjectBase::new_accelerated(v(&[0, 0]), v(&[2, -2])),
        radius: 1,
    };
    a.update(3);
    assert_eq!(a.position(), &v(&[18, -18]));
}

#[test]
fn body_type_exposes_the_sphere() {
    let a = ball(&[1, 2], 9);
    match a.body_type() {
        BodyType::Sphere(shape) => {
            assert_eq!(shape.center, &v(&[1, 2]));
            assert_eq!(shape.radius, 9);
        }
    }
}

#[test]
fn collide_spheres_on_shapes() {
    let ca = v(&[0, 0]);
    let cb = v(&[0, 1]);
    let a = SphereShape { center: &ca, radius: 1 };
    let b = SphereShape { center: &cb, radius: 1 };
    assert_eq!(collide_spheres(&a, &b), Some(v(&[0, -1])));
}

#[test]
fn convex_collision_is_unsupported() {
    let t = Triangle { base: VerletObjectBase::new(v(&[0, 0])) };
    assert_eq!(t.points().len(), 3);
    assert_eq!(t.collide_convex(&t.points()), Err(UnsupportedCollision));
}

#[test]
fn concave_bodies_are_made_of_convex_parts() {
    let p = Pair { base: VerletObjectBase::new(v(&[10, 0])) };
    let parts = p.parts();
    assert_eq!(parts.len(), 2);
    assert_eq!(parts[1].position(), &v(&[20, 0]));
}
