use prisma::geometry::{Aabb3, Axis, Point3};

fn point(x: i32, y: i32, z: i32) -> Point3 {
    Point3 { x, y, z }
}

fn aabb(min: (i32, i32, i32), max: (i32, i32, i32)) -> Aabb3 {
    Aabb3 { min: point(min.0, min.1, min.2), max: point(max.0, max.1, max.2) }
}

#[test]
fn point_coordinates_by_axis() {
    let p = Point3::new(1, -2, 3);
    assert_eq!(p, point(1, -2, 3));
    assert_eq!(p.get(Axis::X), 1);
    assert_eq!(p.get(Axis::Y), -2);
    assert_eq!(p.get(Axis::Z), 3);
}

#[test]
fn point_min_and_max_are_componentwise() {
    let a = point(1, 5, -3);
    let b = point(2, 4, -3);
    assert_eq!(a.min(&b), point(1, 4, -3));
    assert_eq!(a.max(&b), point(2, 5, -3));
    assert_eq!(b.min(&a), a.min(&b));
    assert_eq!(b.max(&a), a.max(&b));
}

#[test]
fn empty_box_is_neutral_for_union() {
    let empty = Aabb3::empty();
    assert_eq!(empty.min, point(i32::MAX, i32::MAX, i32::MAX));
    assert_eq!(empty.max, point(i32::MIN, i32::MIN, i32::MIN));
    let b = aabb((-1, 0, 2), (4, 5, 6));
    assert_eq!(empty.union(&b), b);
    assert_eq!(b.union(&empty), b);
    assert_eq!(empty.union(&empty), empty);
}

#[test]
fn union_is_the_smallest_box_around_both() {
    let a = aabb((0, 0, 0), (2, 2, 2));
    let b = aabb((1, -3, 1), (5, 1, 1));
    let u = a.union(&b);
    assert_eq!(u, aabb((0, -3, 0), (5, 2, 2)));
    assert_eq!(u, b.union(&a));
    assert!(u.contains(&a));
    assert!(u.contains(&b));
    assert!(!a.contains(&u));
    assert_eq!(a.union(&a), a);
}

#[test]
fn grow_takes_a_point_in() {
    let a = aabb((0, 0, 0), (2, 2, 2));
    assert_eq!(a.grow(&point(5, 1, -1)), aabb((0, 0, -1), (5, 2, 2)));
    assert_eq!(a.grow(&point(1, 1, 1)), a);
    assert_eq!(Aabb3::empty().grow(&point(3, 4, 5)), aabb((3, 4, 5), (3, 4, 5)));
}

#[test]
fn contains_compares_corner_by_corner() {
    let outer = aabb((0, 0, 0), (10, 10, 10));
    assert!(outer.contains(&outer));
    assert!(outer.contains(&aabb((0, 0, 0), (10, 10, 10))));
    assert!(outer.contains(&aabb((1, 2, 3), (4, 5, 6))));
    assert!(!outer.contains(&aabb((-1, 2, 3), (4, 5, 6))));
    assert!(!outer.contains(&aabb((1, 2, 3), (4, 5, 11))));
    assert!(outer.contains(&Aabb3::empty()));
}

#[test]
fn extent_is_max_minus_min() {
    let b = aabb((-5, 0, 7), (5, 1, 7));
    assert_eq!(b.extent(Axis::X), 10);
    assert_eq!(b.extent(Axis::Y), 1);
    assert_eq!(b.extent(Axis::Z), 0);
    let widest = aabb((i32::MIN, 0, 0), (i32::MAX, 0, 0));
    assert_eq!(widest.extent(Axis::X), 4294967295);
    assert_eq!(Aabb3::empty().extent(Axis::X), -4294967295);
}

#[test]
fn longest_axis_prefers_the_earlier_axis_on_ties() {
    assert_eq!(aabb((0, 0, 0), (3, 2, 1)).longest_axis(), Axis::X);
    assert_eq!(aabb((0, 0, 0), (1, 3, 2)).longest_axis(), Axis::Y);
    assert_eq!(aabb((0, 0, 0), (1, 2, 3)).longest_axis(), Axis::Z);
    assert_eq!(aabb((0, 0, 0), (2, 2, 2)).longest_axis(), Axis::X);
    assert_eq!(aabb((0, 0, 0), (1, 2, 2)).longest_axis(), Axis::Y);
    assert_eq!(aabb((0, 0, 0), (2, 1, 2)).longest_axis(), Axis::X);
    assert_eq!(aabb((5, 5, 5), (5, 5, 5)).longest_axis(), Axis::X);
}

#[test]
fn centroid_is_the_middle_rounded_down() {
    assert_eq!(aabb((0, 0, 0), (2, 4, 6)).centroid(), point(1, 2, 3));
    assert_eq!(aabb((0, 0, 0), (1, 3, 5)).centroid(), point(0, 1, 2));
    assert_eq!(aabb((-1, -3, -5), (0, 0, 0)).centroid(), point(-1, -2, -3));
    assert_eq!(aabb((-4, -4, -4), (-2, -2, -1)).centroid(), point(-3, -3, -3));
    assert_eq!(aabb((7, 7, 7), (7, 7, 7)).centroid(), point(7, 7, 7));
    assert_eq!(
        aabb((i32::MIN, i32::MAX, i32::MIN), (i32::MAX, i32::MAX, i32::MIN)).centroid(),
        point(-1, i32::MAX, i32::MIN)
    );
}

#[test]
fn centroid_lies_inside_an_inhabited_box() {
    for min in -3..3 {
        for max in min..4 {
            let b = aabb((min, min, min), (max, max, max));
            let c = b.centroid();
            assert!(b.min.x <= c.x && c.x <= b.max.x);
        }
    }
}

#[test]
fn new_box_keeps_its_corners() {
    let b = Aabb3::new(point(1, 2, 3), point(4, 5, 6));
    assert_eq!(b, aabb((1, 2, 3), (4, 5, 6)));
}
