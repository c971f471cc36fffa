use bgjk::{bgjk, bgjk_limited, in_range, Failure, Vec3, LIMIT, MAX_ITERATIONS};
use std::f32::consts::PI;

const EPS: f32 = f32::EPSILON;

/// Lattice units per unit of length: one unit of the lattice is `EPS`.
const SCALE: f64 = 8388608.0;

fn lattice(v: f32) -> i128 {
    (v as f64 * SCALE).round() as i128
}

fn pt(x: f32, y: f32, z: f32) -> Vec3 {
    Vec3(lattice(x), lattice(y), lattice(z))
}

fn unit_square() -> Vec<Vec3> {
    vec![pt(0.0, 0.0, 0.0), pt(1.0, 0.0, 0.0), pt(0.0, 1.0, 0.0), pt(1.0, 1.0, 0.0)]
}

fn unit_cube() -> Vec<Vec3> {
    vec![
        pt(0.0, 0.0, 0.0),
        pt(1.0, 0.0, 0.0),
        pt(0.0, 1.0, 0.0),
        pt(1.0, 1.0, 0.0),
        pt(0.0, 0.0, 1.0),
        pt(1.0, 0.0, 1.0),
        pt(0.0, 1.0, 1.0),
        pt(1.0, 1.0, 1.0),
    ]
}

fn slanted_box() -> Vec<Vec3> {
    vec![
        pt(0.0, 0.0, 0.0),
        pt(1.0, 0.0, 0.0),
        pt(0.0, 1.0, 0.0),
        pt(1.0, 1.0, 0.0),
        pt(1.0, 0.0, 1.0),
        pt(2.0, 0.0, 1.0),
        pt(1.0, 1.0, 1.0),
        pt(2.0, 1.0, 1.0),
    ]
}

fn circle(dx: f32, dz: f32) -> Vec<Vec3> {
    let units = 100;
    let mut points = Vec::with_capacity(units);
    for i in 0..units {
        let radian = i as f32 / units as f32 * 2.0 * PI;
        points.push(pt(radian.cos() + dx, radian.sin(), dz));
    }
    points
}

#[test]
fn square1() {
    let cube1 = unit_square();
    let cube2 = [pt(-2.0, 0.0, 0.0), pt(-3.0, 0.0, 0.0), pt(-2.0, 1.0, 0.0), pt(-3.0, 1.0, 0.0)];
    assert_eq!(bgjk(&cube1, &cube2), Ok(false));
    assert_eq!(bgjk(&cube2, &cube1), Ok(false));
}

#[test]
fn exact_overlap() {
    let cube1 = unit_square();
    let cube2 = unit_square();
    assert_eq!(bgjk(&cube1, &cube2), Ok(true));
    assert_eq!(bgjk(&cube2, &cube1), Ok(true));
}

#[test]
fn line_overlap() {
    let cube1 = [pt(0.0, 0.0, 0.0), pt(1.0, 0.0, 0.0)];
    let cube2 = [pt(0.5, 1.0, 0.0), pt(0.5, -1.0, 0.0)];
    assert_eq!(bgjk(&cube1, &cube2), Ok(true));
    assert_eq!(bgjk(&cube2, &cube1), Ok(true));
}

#[test]
fn line_non_overlap() {
    let cube1 = [pt(0.0, 0.0, 0.0), pt(1.0, 0.0, 0.0)];
    let cube2 = [pt(1.5, 1.0, 0.0), pt(1.5, -1.0, 0.0)];
    assert_eq!(bgjk(&cube1, &cube2), Ok(false));
    assert_eq!(bgjk(&cube2, &cube1), Ok(false));
}

#[test]
fn small_line_point_overlap() {
    let cube1 = [pt(0.0, 0.0, 0.0), pt(0.01, 0.0, 0.0)];
    let cube2 = [pt(0.005, 0.0, 0.1)];
    assert_eq!(bgjk(&cube1, &cube2), Ok(false));
    assert_eq!(bgjk(&cube2, &cube1), Ok(false));
}

#[test]
fn line_point_non_overlap() {
    let cube1 = [pt(0.0, 0.0, 0.0), pt(1.0, 0.0, 0.0)];
    let cube2 = [pt(0.5, 0.0, 0.1)];
    assert_eq!(bgjk(&cube1, &cube2), Ok(false));
    assert_eq!(bgjk(&cube2, &cube1), Ok(false));
}

#[test]
fn point_overlap() {
    let cube1 = [pt(0.5, 1.0, 0.0)];
    let cube2 = [pt(0.5, 1.0, 0.0)];
    assert_eq!(bgjk(&cube1, &cube2), Ok(true));
    assert_eq!(bgjk(&cube2, &cube1), Ok(true));
}

#[test]
fn point_no_overlap() {
    let cube1 = [pt(0.5, 1.0, 0.0)];
    let cube2 = [pt(1.0, 1.0, 0.0)];
    assert_eq!(bgjk(&cube1, &cube2), Ok(false));
    assert_eq!(bgjk(&cube2, &cube1), Ok(false));
}

#[test]
fn empty_no_overlap() {
    // An empty set stands for the single point at the origin.
    let cube1: [Vec3; 0] = [];
    let cube2 = [pt(1.0, 1.0, 1.0)];
    assert_eq!(bgjk(&cube1, &cube2), Ok(false));
    assert_eq!(bgjk(&cube2, &cube1), Ok(false));
}

#[test]
fn side_by_side_squares() {
    let cube1 = unit_square();
    let cube2 = [pt(1.0, 0.0, 0.0), pt(2.0, 0.0, 0.0), pt(1.0, 1.0, 0.0), pt(2.0, 1.0, 0.0)];
    assert_eq!(bgjk(&cube1, &cube2), Ok(true));
    assert_eq!(bgjk(&cube2, &cube1), Ok(true));
}

#[test]
fn side_by_side_squares_offset() {
    let cube1 = unit_square();
    let cube2 = [
        pt(1.0 + EPS, 0.0, 0.0),
        pt(2.0, 0.0, 0.0),
        pt(1.0 + EPS, 1.0, 0.0),
        pt(2.0, 1.0, 0.0),
    ];
    assert_eq!(bgjk(&cube1, &cube2), Ok(false));
    assert_eq!(bgjk(&cube2, &cube1), Ok(false));
}

#[test]
fn single_point_square_overlap() {
    let cube1 = unit_square();
    let cube2 = [pt(1.0, 1.0, 0.0), pt(2.0, 1.0, 0.0), pt(1.0, 2.0, 0.0), pt(2.0, 2.0, 0.0)];
    assert_eq!(bgjk(&cube1, &cube2), Ok(true));
    assert_eq!(bgjk(&cube2, &cube1), Ok(true));
}

#[test]
fn single_point_cube_overlap() {
    let cube1 = unit_cube();
    let cube2 = [
        pt(1.0, 1.0, 1.0),
        pt(2.0, 1.0, 1.0),
        pt(1.0, 2.0, 1.0),
        pt(2.0, 2.0, 1.0),
        pt(1.0, 1.0, 2.0),
        pt(2.0, 1.0, 2.0),
        pt(1.0, 2.0, 2.0),
        pt(2.0, 2.0, 2.0),
    ];
    assert_eq!(bgjk(&cube1, &cube2), Ok(true));
    assert_eq!(bgjk(&cube2, &cube1), Ok(true));
}

#[test]
fn single_point_cube_non_overlap() {
    let cube1 = unit_cube();
    let cube2 = [
        pt(1.0, 1.0, 1.0 + EPS),
        pt(2.0, 1.0, 1.0 + EPS),
        pt(1.0, 2.0, 1.0 + EPS),
        pt(2.0, 2.0, 1.0 + EPS),
        pt(1.0, 1.0, 2.0),
        pt(2.0, 1.0, 2.0),
        pt(1.0, 2.0, 2.0),
        pt(2.0, 2.0, 2.0),
    ];
    assert_eq!(bgjk(&cube1, &cube2), Ok(false));
    assert_eq!(bgjk(&cube2, &cube1), Ok(false));
}

#[test]
fn single_line_cube_overlap() {
    let cube1 = unit_cube();
    let cube2 = [
        pt(1.0, 1.0, 0.0),
        pt(2.0, 1.0, 0.0),
        pt(1.0, 2.0, 0.0),
        pt(2.0, 2.0, 0.0),
        pt(1.0, 1.0, 1.0),
        pt(2.0, 1.0, 1.0),
        pt(1.0, 2.0, 1.0),
        pt(2.0, 2.0, 1.0),
    ];
    assert_eq!(bgjk(&cube1, &cube2), Ok(true));
    assert_eq!(bgjk(&cube2, &cube1), Ok(true));
}

#[test]
fn cube_projective_non_overlap() {
    let cube1 = slanted_box();
    let cube2 = [
        pt(1.1, 1.0, 0.0),
        pt(2.1, 1.0, 0.0),
        pt(1.1, 2.0, 0.0),
        pt(2.1, 2.0, 0.0),
        pt(2.1, 1.0, 1.0),
        pt(3.1, 1.0, 1.0),
        pt(2.1, 2.0, 1.0),
        pt(3.1, 2.0, 1.0),
    ];
    assert_eq!(bgjk(&cube1, &cube2), Ok(false));
    assert_eq!(bgjk(&cube2, &cube1), Ok(false));
}

#[test]
fn cube_projective_overlap() {
    let cube1 = slanted_box();
    let cube2 = [
        pt(1.1, 1.0, 0.0),
        pt(2.1, 1.0, 0.0),
        pt(1.1, 2.0, 0.0),
        pt(2.1, 2.0, 0.0),
        pt(2.0, 1.0, 1.0),
        pt(3.1, 1.0, 1.0),
        pt(2.0, 2.0, 1.0),
        pt(3.1, 2.0, 1.0),
    ];
    assert_eq!(bgjk(&cube1, &cube2), Ok(true));
    assert_eq!(bgjk(&cube2, &cube1), Ok(true));
}

#[test]
fn circle_non_overlap() {
    let circle1 = circle(0.0, 0.0);
    let circle2 = circle(0.0, EPS);
    assert_eq!(bgjk(&circle1, &circle2), Ok(false));
}

#[test]
fn circle_overlap() {
    let circle1 = circle(0.0, 0.0);
    let circle2 = circle(0.0, 0.0);
    assert_eq!(bgjk(&circle1, &circle2), Ok(true));
}

#[test]
fn circle_section() {
    let circle1 = circle(0.0, 0.0);
    let circle2 = circle(0.5, 0.0);
    assert_eq!(bgjk(&circle1, &circle2), Ok(true));
}

#[test]
fn circle_away() {
    let circle1 = circle(0.0, 0.0);
    let circle2 = circle(2.0 + 2.0 * EPS, 0.0);
    assert_eq!(bgjk(&circle1, &circle2), Ok(false));
}

#[test]
fn circle_shifted_by_radius_overlaps() {
    let circle1 = circle(0.0, 0.0);
    let circle2 = circle(1.0, 0.0);
    assert_eq!(bgjk(&circle1, &circle2), Ok(true));
    assert_eq!(bgjk(&circle2, &circle1), Ok(true));
}

#[test]
fn verdict_is_the_same_in_both_orders() {
    let hulls = [
        unit_square(),
        unit_cube(),
        slanted_box(),
        circle(0.5, 0.0),
        vec![pt(0.5, 0.5, 0.5)],
        vec![pt(3.0, 3.0, 3.0), pt(4.0, 3.0, 3.0)],
        vec![],
    ];
    for first in hulls.iter() {
        for second in hulls.iter() {
            let verdict = bgjk(first, second);
            assert!(verdict.is_ok());
            assert_eq!(verdict, bgjk(second, first));
        }
    }
}

#[test]
fn hull_intersects_itself() {
    assert_eq!(bgjk(&unit_square(), &unit_square()), Ok(true));
    assert_eq!(bgjk(&unit_cube(), &unit_cube()), Ok(true));
    assert_eq!(bgjk(&slanted_box(), &slanted_box()), Ok(true));
    assert_eq!(bgjk(&circle(0.25, 0.5), &circle(0.25, 0.5)), Ok(true));
    let segment = [pt(-1.0, 2.0, 3.0), pt(5.0, -1.0, 0.5)];
    assert_eq!(bgjk(&segment, &segment), Ok(true));
    let far_point = [pt(7.0, 7.0, 7.0)];
    assert_eq!(bgjk(&far_point, &far_point), Ok(true));
}

#[test]
fn empty_hull_is_the_origin() {
    let empty: [Vec3; 0] = [];
    let origin = [Vec3(0, 0, 0)];
    let others = [
        unit_square(),
        unit_cube(),
        circle(0.0, 0.0),
        circle(3.0, 0.0),
        vec![pt(1.0, 1.0, 1.0)],
        vec![pt(-1.0, -1.0, -1.0), pt(1.0, 1.0, 1.0)],
        vec![],
    ];
    for other in others.iter() {
        assert_eq!(bgjk(&empty, other), bgjk(&origin, other));
        assert_eq!(bgjk(other, &empty), bgjk(other, &origin));
    }
    assert_eq!(bgjk(&empty, &unit_cube()), Ok(true));
    assert_eq!(bgjk(&empty, &circle(3.0, 0.0)), Ok(false));
    assert_eq!(bgjk(&empty, &empty), Ok(true));
}

#[test]
fn interior_points_do_not_change_the_verdict() {
    let mut cube1 = unit_cube();
    cube1.push(pt(0.5, 0.5, 0.5));
    cube1.insert(0, pt(0.25, 0.75, 0.5));
    let touching: Vec<Vec3> = unit_cube().iter().map(|p| Vec3(p.0 + lattice(1.0), p.1, p.2)).collect();
    let apart: Vec<Vec3> = unit_cube().iter().map(|p| Vec3(p.0 + lattice(1.0) + 1, p.1, p.2)).collect();
    assert_eq!(bgjk(&cube1, &touching), Ok(true));
    assert_eq!(bgjk(&unit_cube(), &touching), Ok(true));
    assert_eq!(bgjk(&cube1, &apart), Ok(false));
    assert_eq!(bgjk(&unit_cube(), &apart), Ok(false));
}

#[test]
fn iteration_limit_is_reported() {
    let cube1 = slanted_box();
    let cube2 = [
        pt(1.1, 1.0, 0.0),
        pt(2.1, 1.0, 0.0),
        pt(1.1, 2.0, 0.0),
        pt(2.1, 2.0, 0.0),
        pt(2.0, 1.0, 1.0),
        pt(3.1, 1.0, 1.0),
        pt(2.0, 2.0, 1.0),
        pt(3.1, 2.0, 1.0),
    ];
    assert_eq!(bgjk_limited(&cube1, &cube2, 0), None);
    assert_eq!(bgjk_limited(&cube1, &cube2, 1), None);
    assert_eq!(bgjk_limited(&cube1, &cube2, 2), None);
    assert_eq!(bgjk_limited(&cube1, &cube2, 3), Some(true));
    assert_eq!(bgjk_limited(&cube1, &cube2, MAX_ITERATIONS), Some(true));
    // A verdict reached before the loop needs no iteration.
    assert_eq!(bgjk_limited(&[pt(0.5, 1.0, 0.0)], &[pt(1.0, 1.0, 0.0)], 0), Some(false));
    assert_eq!(bgjk_limited(&[pt(0.5, 1.0, 0.0)], &[pt(0.5, 1.0, 0.0)], 1), None);
    assert_eq!(bgjk_limited(&[pt(0.5, 1.0, 0.0)], &[pt(0.5, 1.0, 0.0)], 2), Some(true));
}

#[test]
fn range_check() {
    assert_eq!(MAX_ITERATIONS, 256);
    assert_eq!(LIMIT, 536_870_912);
    assert!(in_range(&[]));
    assert!(in_range(&[Vec3(LIMIT, -LIMIT, 0), Vec3(0, LIMIT, -LIMIT)]));
    assert!(!in_range(&[Vec3(0, 0, 0), Vec3(LIMIT + 1, 0, 0)]));
    assert!(!in_range(&[Vec3(0, -LIMIT - 1, 0)]));
    assert!(!in_range(&[Vec3(0, 0, i128::MIN)]));
    assert!(!in_range(&[Vec3(0, 0, i128::MAX)]));
}

#[test]
fn hulls_at_the_limit() {
    let m = LIMIT;
    let big = [
        Vec3(-m, -m, -m),
        Vec3(m, -m, -m),
        Vec3(-m, m, -m),
        Vec3(m, m, -m),
        Vec3(-m, -m, m),
        Vec3(m, -m, m),
        Vec3(-m, m, m),
        Vec3(m, m, m),
    ];
    let corner = [Vec3(m, m, m), Vec3(m - 1, m, m), Vec3(m, m - 1, m), Vec3(m, m, m - 1)];
    let opposite = [Vec3(-m, -m, -m), Vec3(1 - m, -m, -m), Vec3(-m, 1 - m, -m), Vec3(-m, -m, 1 - m)];
    assert!(in_range(&big) && in_range(&corner) && in_range(&opposite));
    assert_eq!(bgjk(&big, &big), Ok(true));
    assert_eq!(bgjk(&big, &corner), Ok(true));
    assert_eq!(bgjk(&corner, &big), Ok(true));
    assert_eq!(bgjk(&corner, &opposite), Ok(false));
    assert_eq!(bgjk(&opposite, &corner), Ok(false));
    let diagonal = [Vec3(-m, -m, -m), Vec3(m, m, m)];
    let crossing = [Vec3(-m, m, -m), Vec3(m, -m, m)];
    let beside = [Vec3(-m, m, -m), Vec3(m - 1, -m, m)];
    assert_eq!(bgjk(&diagonal, &crossing), Ok(true));
    assert_eq!(bgjk(&diagonal, &beside), Ok(false));
}

fn lattice_box(low: (i128, i128, i128), size: i128) -> Vec<Vec3> {
    let mut corners = Vec::new();
    for dx in [0, size] {
        for dy in [0, size] {
            for dz in [0, size] {
                corners.push(Vec3(low.0 + dx, low.1 + dy, low.2 + dz));
            }
        }
    }
    corners
}

#[test]
fn boxes_intersect_exactly_when_they_overlap_on_every_axis() {
    let fixed = lattice_box((0, 0, 0), 2);
    for x in -4i128..=4 {
        for y in -4i128..=4 {
            for z in -4i128..=4 {
                let moved = lattice_box((x, y, z), 2);
                let overlap = x.abs() <= 2 && y.abs() <= 2 && z.abs() <= 2;
                assert_eq!(bgjk(&fixed, &moved), Ok(overlap), "offset {} {} {}", x, y, z);
                assert_eq!(bgjk(&moved, &fixed), Ok(overlap), "offset {} {} {}", x, y, z);
            }
        }
    }
}

#[test]
fn point_in_box() {
    let unit = lattice_box((-3, -3, -3), 6);
    for x in -5i128..=5 {
        for y in -5i128..=5 {
            for z in -5i128..=5 {
                let inside = x.abs() <= 3 && y.abs() <= 3 && z.abs() <= 3;
                assert_eq!(bgjk(&unit, &[Vec3(x, y, z)]), Ok(inside));
                assert_eq!(bgjk(&[Vec3(x, y, z)], &unit), Ok(inside));
            }
        }
    }
}

#[test]
fn order_and_repetition_of_points_do_not_matter() {
    let cube = unit_cube();
    let mut shuffled = unit_cube();
    shuffled.reverse();
    shuffled.swap(1, 5);
    shuffled.push(cube[3]);
    shuffled.insert(0, cube[6]);
    let others = [
        circle(0.5, 0.5),
        circle(2.5, 0.0),
        vec![pt(1.0, 1.0, 1.0), pt(2.0, 3.0, 4.0)],
        vec![pt(1.0 + EPS, 1.0, 1.0), pt(2.0, 3.0, 4.0)],
        vec![],
    ];
    for other in others.iter() {
        assert_eq!(bgjk(&cube, other), bgjk(&shuffled, other));
        assert_eq!(bgjk(other, &cube), bgjk(other, &shuffled));
    }
}

#[test]
fn unit_of_length_does_not_matter() {
    let pairs = [
        (lattice_box((0, 0, 0), 2), lattice_box((2, 2, 2), 2), true),
        (lattice_box((0, 0, 0), 2), lattice_box((3, 2, 2), 2), false),
        (vec![Vec3(0, 0, 0), Vec3(2, 0, 0)], vec![Vec3(1, 2, 0), Vec3(1, -2, 0)], true),
        (vec![Vec3(0, 0, 0), Vec3(2, 0, 0)], vec![Vec3(3, 2, 0), Vec3(3, -2, 0)], false),
    ];
    for (first, second, verdict) in pairs.iter() {
        for k in [1i128, 2, 7, 1000, 1 << 26] {
            let one: Vec<Vec3> = first.iter().map(|p| p.scale(k)).collect();
            let two: Vec<Vec3> = second.iter().map(|p| p.scale(k)).collect();
            assert_eq!(bgjk(&one, &two), Ok(*verdict));
        }
    }
}

#[test]
fn tetrahedra() {
    let first = [Vec3(0, 0, 0), Vec3(4, 0, 0), Vec3(0, 4, 0), Vec3(0, 0, 4)];
    let inside = [Vec3(1, 1, 1)];
    let on_face = [Vec3(2, 1, 1)];
    let outside = [Vec3(2, 2, 1)];
    assert_eq!(bgjk(&first, &inside), Ok(true));
    assert_eq!(bgjk(&first, &on_face), Ok(true));
    assert_eq!(bgjk(&first, &outside), Ok(false));
    let piercing = [Vec3(1, 1, -5), Vec3(1, 1, 5)];
    let missing = [Vec3(3, 3, -5), Vec3(3, 3, 5)];
    assert_eq!(bgjk(&first, &piercing), Ok(true));
    assert_eq!(bgjk(&piercing, &first), Ok(true));
    assert_eq!(bgjk(&first, &missing), Ok(false));
    assert_eq!(bgjk(&missing, &first), Ok(false));
}

#[test]
fn hulls_out_of_range_are_refused() {
    let cube = unit_cube();
    assert_eq!(bgjk(&cube, &[pt(1.0, 1.0, 1.0)]), Ok(true));
    assert_eq!(bgjk(&cube, &[pt(1.0, 1.0, 1.0 + EPS)]), Ok(false));
    assert_eq!(bgjk(&[], &[]), Ok(true));
    assert_eq!(bgjk(&[Vec3(LIMIT, LIMIT, LIMIT)], &[Vec3(-LIMIT, -LIMIT, -LIMIT)]), Ok(false));
    assert_eq!(bgjk(&cube, &[Vec3(LIMIT + 1, 0, 0)]), Err(Failure::OutOfRange));
    assert_eq!(bgjk(&[Vec3(0, -LIMIT - 1, 0)], &cube), Err(Failure::OutOfRange));
    assert_eq!(bgjk(&[Vec3(0, 0, i128::MAX)], &[Vec3(0, 0, i128::MIN)]), Err(Failure::OutOfRange));
}

#[test]
fn verdicts_and_iteration_counts() {
    // Each row: two hulls, the verdict, and the number of iterations that it takes.
    let rows: Vec<(Vec<Vec3>, Vec<Vec3>, bool, usize)> = vec![
        (
            vec![
                Vec3(796971, 938210, 638333), Vec3(-23462, -52439, 65020),
                Vec3(793160, 231835, -601747), Vec3(-612740, 685901, 73550),
                Vec3(-2253, 320959, 287564), Vec3(662993, -609566, -802609),
                Vec3(-63427, -363722, -702635),
            ],
            vec![
                Vec3(57412, 583967, 1028490), Vec3(-1722022, 378442, 528754),
                Vec3(-859852, 501096, 1247565), Vec3(-518923, 493019, 28236),
                Vec3(-503056, -838820, 1442151),
            ],
            false,
            6,
        ),
        (
            vec![
                Vec3(-2, -2, 1),
            ],
            vec![
                Vec3(-4, 3, 1),
            ],
            false,
            0,
        ),
        (
            vec![
                Vec3(4, -2, 1), Vec3(-6, 4, -5), Vec3(1, 4, -2), Vec3(0, 2, -5), Vec3(5, -2, -1),
            ],
            vec![
                Vec3(4, -9, -3), Vec3(9, 3, -3),
            ],
            false,
            1,
        ),
        (
            vec![
                Vec3(-389933, -189423, -859855),
            ],
            vec![
                Vec3(-1963437, 224682, -123857), Vec3(-20431, 1685915, -453938),
                Vec3(-978945, 564340, 923003), Vec3(-1131120, 657303, -410494),
                Vec3(-777084, 1096999, -147403), Vec3(-331924, 1192324, 2094),
                Vec3(-1258064, -40309, 88987),
            ],
            false,
            0,
        ),
        (
            vec![
                Vec3(0, -5, 0), Vec3(0, -3, -6), Vec3(-2, 6, 3), Vec3(-2, -6, -3),
            ],
            vec![
                Vec3(0, 3, -2), Vec3(-10, -4, 0), Vec3(-3, -2, -3), Vec3(2, 3, 2),
                Vec3(-6, 0, -2), Vec3(-9, -5, 0),
            ],
            true,
            2,
        ),
        (
            vec![
                Vec3(1, 3, -5), Vec3(0, -6, -5), Vec3(-5, -6, 2), Vec3(-2, -3, 5),
                Vec3(5, 0, -2), Vec3(0, 3, 1),
            ],
            vec![
                Vec3(3, -3, -8), Vec3(-5, 3, -2), Vec3(2, 5, -1), Vec3(-7, 0, -7),
            ],
            true,
            2,
        ),
        (
            vec![
                Vec3(1, 2, 0), Vec3(-1, -3, -1), Vec3(-1, -2, 2), Vec3(1, -2, 1),
            ],
            vec![
                Vec3(0, 3, -1), Vec3(-4, 2, -1), Vec3(0, 2, -3), Vec3(0, 3, 2), Vec3(1, 6, -3),
                Vec3(-4, 3, -3), Vec3(-1, 2, -3),
            ],
            false,
            1,
        ),
        (
            vec![
                Vec3(14, 31, 47),
            ],
            vec![
                Vec3(-33, -27, 48), Vec3(-44, -33, -9), Vec3(40, 34, 65), Vec3(8, 36, 48),
                Vec3(-39, -12, 10), Vec3(-43, -10, 9),
            ],
            false,
            2,
        ),
        (
            vec![
                Vec3(-5, 6, -5), Vec3(1, 6, 3), Vec3(6, 6, -3), Vec3(1, 0, 5), Vec3(-2, 0, 6),
                Vec3(-4, -1, -4), Vec3(4, 3, -1),
            ],
            vec![
                Vec3(3, -2, 6), Vec3(2, 1, 9), Vec3(-7, 3, 5), Vec3(-7, 4, 1), Vec3(-2, 5, 9),
                Vec3(-1, 6, 7), Vec3(-4, 8, 0),
            ],
            true,
            3,
        ),
        (
            vec![
                Vec3(0, 1, 1), Vec3(2, -1, 0), Vec3(1, 3, -1),
            ],
            vec![
                Vec3(0, 1, -1), Vec3(-2, -4, -3), Vec3(3, -2, -5), Vec3(-1, 1, -2),
                Vec3(1, -1, 1), Vec3(-2, 1, -1),
            ],
            false,
            3,
        ),
        (
            vec![
                Vec3(19, -31, 25), Vec3(22, -28, -28), Vec3(-39, 47, 8), Vec3(-14, -48, -22),
                Vec3(16, -43, 19), Vec3(-30, 22, -13), Vec3(-48, 33, 4),
            ],
            vec![
                Vec3(-53, 74, 38), Vec3(-82, 16, -21), Vec3(-57, 68, -18), Vec3(-52, -16, -28),
            ],
            false,
            3,
        ),
        (
            vec![
                Vec3(4, 0, -3),
            ],
            vec![
                Vec3(11, -1, 0), Vec3(11, -2, 1), Vec3(4, -4, 7), Vec3(4, 1, -3), Vec3(6, -2, 3),
                Vec3(11, 2, -4),
            ],
            false,
            2,
        ),
        (
            vec![
                Vec3(-44, -31, 23), Vec3(48, -28, -50), Vec3(-24, -31, -34), Vec3(-40, -5, -16),
                Vec3(28, 41, 17),
            ],
            vec![
                Vec3(-29, -29, 83), Vec3(-13, 30, 52), Vec3(-50, -37, 12), Vec3(-35, -15, 75),
                Vec3(-77, 61, 44),
            ],
            false,
            4,
        ),
        (
            vec![
                Vec3(-11, 25, -42), Vec3(-19, -35, 7), Vec3(-19, 14, 0), Vec3(-44, 10, 38),
                Vec3(-37, 17, -20), Vec3(19, -11, 34), Vec3(0, -20, -42),
            ],
            vec![
                Vec3(62, 38, 19), Vec3(14, 13, 30), Vec3(88, 38, 19), Vec3(8, -6, -41),
                Vec3(59, 1, -38), Vec3(61, 58, 5), Vec3(-7, 22, -22),
            ],
            false,
            6,
        ),
        (
            vec![
                Vec3(6, -6, -3), Vec3(0, -1, -3), Vec3(-4, 6, 2), Vec3(6, -4, 1),
            ],
            vec![
                Vec3(0, 1, 3), Vec3(-5, 1, -2), Vec3(-2, 4, 1), Vec3(-7, 1, -6),
            ],
            true,
            5,
        ),
        (
            vec![
                Vec3(1, -6, 0), Vec3(-1, 6, 2), Vec3(0, 2, -6), Vec3(-3, 2, 3), Vec3(4, 3, -2),
                Vec3(-2, -3, -2), Vec3(-3, 6, 1),
            ],
            vec![
                Vec3(-1, -1, -10), Vec3(5, 0, -2), Vec3(-2, 3, -7), Vec3(-3, 11, -4),
            ],
            true,
            3,
        ),
        (
            vec![
                Vec3(524237, -748043, 937272), Vec3(-427469, -692889, 968972),
                Vec3(826033, -849730, -612374),
            ],
            vec![
                Vec3(-375325, -1012960, 62145), Vec3(195157, -887739, 639908),
                Vec3(-221117, -696808, 523403),
            ],
            false,
            4,
        ),
        (
            vec![
                Vec3(31, 24, -20), Vec3(-44, 36, 19), Vec3(-9, -14, 6), Vec3(49, -14, 31),
            ],
            vec![
                Vec3(-45, 15, -13), Vec3(-13, 20, 3), Vec3(19, -21, -8), Vec3(-12, -34, -5),
                Vec3(-30, 5, 4),
            ],
            false,
            5,
        ),
        (
            vec![
                Vec3(-359354, 529041, 5904), Vec3(-936693, -560762, 339636),
                Vec3(194685, 683099, 633311), Vec3(-316075, 41189, -598371),
                Vec3(-975045, -748538, -120610), Vec3(-837638, -826462, 661267),
                Vec3(570121, 264659, 161936),
            ],
            vec![
                Vec3(-988127, -236595, -26300), Vec3(-1298502, -823959, -976314),
                Vec3(-885690, -609233, -130138),
            ],
            true,
            4,
        ),
        (
            vec![
                Vec3(354479, -747339, -233442), Vec3(-654963, -103355, -515017),
                Vec3(910641, 887565, -809490), Vec3(908239, -989080, -6413),
                Vec3(767198, -732621, 904404),
            ],
            vec![
                Vec3(-663584, -449805, 281764), Vec3(249291, -682053, 133329),
            ],
            false,
            5,
        ),
        (
            vec![
                Vec3(435354, 770484, -772240), Vec3(-108337, -17019, -559615),
                Vec3(-943573, -439080, 584611), Vec3(-902600, 874828, -193946),
                Vec3(-714836, 681520, -113652),
            ],
            vec![
                Vec3(497114, -582777, -697205), Vec3(-184849, 178367, -173759),
                Vec3(-281989, 567015, 19216), Vec3(830957, 840995, -719084),
                Vec3(-188255, 436840, 314070),
            ],
            true,
            4,
        ),
        (
            vec![
                Vec3(1, 5, -6), Vec3(-2, 5, -1), Vec3(-2, -5, 3), Vec3(-4, 2, -5),
                Vec3(3, -6, -1), Vec3(-4, 4, 5), Vec3(-2, 6, -1),
            ],
            vec![
                Vec3(9, -2, 10), Vec3(-2, -4, 8), Vec3(-3, -1, 4), Vec3(3, 2, 3),
                Vec3(-2, -1, 11), Vec3(3, -6, 0),
            ],
            false,
            7,
        ),
        (
            vec![
                Vec3(24, -50, -44), Vec3(18, -39, 10), Vec3(18, -5, 41), Vec3(-22, -28, -42),
                Vec3(-38, -8, -22), Vec3(-36, 25, 10), Vec3(-4, -24, 48),
            ],
            vec![
                Vec3(-35, -29, -54), Vec3(-54, -12, -59), Vec3(5, -55, 12), Vec3(20, -59, -42),
                Vec3(23, -48, -4),
            ],
            true,
            5,
        ),
        (
            vec![
                Vec3(-348550, 839785, -494444), Vec3(-825461, -963238, -769984),
                Vec3(-288882, 975732, 908295), Vec3(-131811, -10681, -198604),
                Vec3(-862612, 931607, 804049), Vec3(572900, 667907, -92730),
            ],
            vec![
                Vec3(-236717, -111749, -551952), Vec3(-202111, 455820, -541400),
                Vec3(686614, 1120903, -607827), Vec3(980964, 968094, 18738),
                Vec3(928001, 666038, 148882), Vec3(642527, 55311, -1305023),
                Vec3(-194121, 1148960, -655549),
            ],
            true,
            6,
        ),
        (
            vec![
                Vec3(0, -2, -2), Vec3(2, 3, -1),
            ],
            vec![
                Vec3(1, 3, -1), Vec3(0, 0, 3), Vec3(3, 0, 0), Vec3(-3, -1, -1), Vec3(2, 3, -1),
                Vec3(-1, 0, -1), Vec3(3, 2, -1),
            ],
            true,
            7,
        ),
        (
            vec![
                Vec3(-188745, 655697, 66160), Vec3(215586, 946380, -598899),
                Vec3(-234915, 152262, -714174), Vec3(548806, 437690, -740301),
                Vec3(461582, -445311, -829230),
            ],
            vec![
                Vec3(-919182, -32908, -595960), Vec3(545560, -803244, -1192412),
                Vec3(112295, -265, -1873136), Vec3(377260, -709132, 108288),
                Vec3(-827324, -150109, -478923), Vec3(-309297, -539760, -1432911),
            ],
            false,
            7,
        ),
        (
            vec![
                Vec3(550407, -833404, 551318), Vec3(800246, 452830, 206470),
                Vec3(767856, 122810, -44781), Vec3(-587444, -693622, 357840),
                Vec3(-244804, 856996, -279064), Vec3(-927087, 393612, -583470),
                Vec3(-655582, 556797, 396164),
            ],
            vec![
                Vec3(-228953, -558890, -1585331), Vec3(-881392, 423211, -1197660),
                Vec3(-619446, -94729, -1761847), Vec3(342634, 571806, -34720),
            ],
            true,
            7,
        ),
        (
            vec![
                Vec3(4, 5, -2), Vec3(-5, -5, 5), Vec3(-2, 5, 1), Vec3(6, 5, 6), Vec3(1, 2, -2),
                Vec3(-4, 2, 3), Vec3(5, 4, 0),
            ],
            vec![
                Vec3(4, -4, 4), Vec3(2, -7, 0), Vec3(-3, -1, -6), Vec3(0, -8, -8),
                Vec3(-2, -2, 3),
            ],
            true,
            6,
        ),
    ];
    for (first, second, verdict, iterations) in rows.iter() {
        assert!(in_range(first) && in_range(second));
        assert_eq!(bgjk(first, second), Ok(*verdict));
        assert_eq!(bgjk(second, first), Ok(*verdict));
        assert_eq!(bgjk_limited(first, second, *iterations), Some(*verdict));
        if *iterations > 0 {
            assert_eq!(bgjk_limited(first, second, *iterations - 1), None);
        }
    }
}

#[test]
fn iterations_needed_depend_on_the_order() {
    let first = [Vec3(0, 0, 0), Vec3(2, 0, 0)];
    let second = [Vec3(3, 2, 0), Vec3(3, -2, 0)];
    assert_eq!(bgjk_limited(&first, &second, 1), Some(false));
    assert_eq!(bgjk_limited(&second, &first, 1), None);
    assert_eq!(bgjk_limited(&second, &first, 2), Some(false));
}
