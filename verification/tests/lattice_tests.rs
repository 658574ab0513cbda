use prisma::geometry::{Aabb3, Point3};
use prisma::lattice::{bits_of_key, key_of_bits};
use prisma::scene::bvh::{Bvh, BvhNode};
use prisma::scene::{Triangle, TriangleInfo};

fn key(value: f32) -> i32 {
    key_of_bits(value.to_bits())
}

fn value(key: i32) -> f32 {
    f32::from_bits(bits_of_key(key))
}

#[test]
fn keys_of_some_floats() {
    assert_eq!(key(0.0), 0);
    assert_eq!(key(-0.0), -1);
    assert_eq!(key(1.0), 0x3f80_0000);
    assert_eq!(key(-1.0), -1 - 0x3f80_0000);
    assert_eq!(key(f32::INFINITY), 0x7f80_0000);
    assert_eq!(key(f32::NEG_INFINITY), -1 - 0x7f80_0000);
    assert_eq!(key(f32::from_bits(1)), 1);
    assert_eq!(key(f32::from_bits(0x8000_0001)), -2);
}

#[test]
fn keys_at_the_ends_of_the_range() {
    assert_eq!(key_of_bits(0x7fff_ffff), i32::MAX);
    assert_eq!(key_of_bits(0xffff_ffff), i32::MIN);
    assert_eq!(key_of_bits(0x8000_0000), -1);
    assert_eq!(bits_of_key(i32::MAX), 0x7fff_ffff);
    assert_eq!(bits_of_key(i32::MIN), 0xffff_ffff);
    assert_eq!(bits_of_key(-1), 0x8000_0000);
    assert_eq!(bits_of_key(0), 0);
}

#[test]
fn keys_are_in_the_order_of_the_floats() {
    let ascending = [
        f32::NEG_INFINITY,
        f32::MIN,
        -1.0e10,
        -2.5,
        -1.0,
        -f32::MIN_POSITIVE,
        -0.0,
        0.0,
        f32::MIN_POSITIVE,
        0.1,
        1.0,
        1.000_000_1,
        3.0e8,
        f32::MAX,
        f32::INFINITY,
    ];
    for pair in ascending.windows(2) {
        assert!(key(pair[0]) < key(pair[1]), "{} and {}", pair[0], pair[1]);
    }
}

#[test]
fn key_and_back_gives_the_float() {
    for value_in in [0.0f32, -0.0, 1.5, -1.5, 1.0e-40, -1.0e-40, f32::MAX, f32::MIN, f32::INFINITY] {
        assert_eq!(value(key(value_in)).to_bits(), value_in.to_bits());
    }
    for bits in (0u32..=u32::MAX).step_by(65_537) {
        assert_eq!(bits_of_key(key_of_bits(bits)), bits);
    }
    for key_in in (i32::MIN..=i32::MAX).step_by(65_537) {
        assert_eq!(key_of_bits(bits_of_key(key_in)), key_in);
    }
}

#[test]
fn neighbouring_floats_have_neighbouring_keys() {
    let one = 1.0f32;
    let next = f32::from_bits(one.to_bits() + 1);
    assert_eq!(key(next), key(one) + 1);
    let minus_one = -1.0f32;
    let below = f32::from_bits(minus_one.to_bits() + 1);
    assert!(below < minus_one);
    assert_eq!(key(below), key(minus_one) - 1);
}

#[test]
fn boxes_built_on_keys_hold_the_floats() {
    // Boxes of single points scattered over many magnitudes and both signs.
    let mut points: Vec<[f32; 3]> = Vec::new();
    let mut seed: u32 = 12345;
    for _ in 0..200 {
        let mut coordinate = || {
            seed = seed.wrapping_mul(1_664_525).wrapping_add(1_013_904_223);
            let magnitude = 10.0f32.powi((seed >> 28) as i32 - 8);
            let sign = if seed & 1 == 0 { 1.0 } else { -1.0 };
            sign * magnitude * ((seed >> 8) & 0xffff) as f32
        };
        points.push([coordinate(), coordinate(), coordinate()]);
    }
    let mut infos: Vec<TriangleInfo> = points
        .iter()
        .enumerate()
        .map(|(index, p)| {
            let corner = Point3 { x: key(p[0]), y: key(p[1]), z: key(p[2]) };
            TriangleInfo {
                triangle: Triangle { index: index as u32, material: 0 },
                aabb: Aabb3 { min: corner, max: corner },
                centroid: Point3 {
                    x: (p[0].clamp(-1.0e6, 1.0e6) * 1024.0) as i32,
                    y: (p[1].clamp(-1.0e6, 1.0e6) * 1024.0) as i32,
                    z: (p[2].clamp(-1.0e6, 1.0e6) * 1024.0) as i32,
                },
            }
        })
        .collect();
    let bvh = Bvh::new(&mut infos);
    for node in bvh.flatten() {
        if let BvhNode::Leaf { aabb, start, count } = node {
            assert!(count >= 1);
            let (min, max) = (
                [value(aabb.min.x), value(aabb.min.y), value(aabb.min.z)],
                [value(aabb.max.x), value(aabb.max.y), value(aabb.max.z)],
            );
            let mut lowest = [f32::INFINITY; 3];
            let mut highest = [f32::NEG_INFINITY; 3];
            for info in &infos[start as usize..(start + count) as usize] {
                let p = points[info.triangle.index as usize];
                for axis in 0..3 {
                    assert!(min[axis] <= p[axis] && p[axis] <= max[axis]);
                    lowest[axis] = lowest[axis].min(p[axis]);
                    highest[axis] = highest[axis].max(p[axis]);
                }
            }
            // The box is exact: it is the box around the floats themselves.
            assert_eq!(min.map(f32::to_bits), lowest.map(f32::to_bits));
            assert_eq!(max.map(f32::to_bits), highest.map(f32::to_bits));
        }
    }
}
