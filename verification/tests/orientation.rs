use geodeduce::orientation::{area_sign, same_orientation, Coord, Sign, Triangle};

fn tri(ax: i64, ay: i64, bx: i64, by: i64, cx: i64, cy: i64) -> Triangle {
    Triangle { a: Coord { x: ax, y: ay }, b: Coord { x: bx, y: by }, c: Coord { x: cx, y: cy } }
}

#[test]
fn area_sign_of_a_triangle_and_its_reverse() {
    // Edge sum of (0,0),(3,0),(0,4): 0 + (-3)*4 + 0 = -12.
    assert_eq!(area_sign(&tri(0, 0, 3, 0, 0, 4)), Sign::Negative);
    assert_eq!(area_sign(&tri(0, 4, 3, 0, 0, 0)), Sign::Positive);
}

#[test]
fn area_sign_of_collinear_points_is_zero() {
    assert_eq!(area_sign(&tri(0, 0, 1, 1, 2, 2)), Sign::Zero);
    assert_eq!(area_sign(&tri(5, 5, 5, 5, 5, 5)), Sign::Zero);
    assert_eq!(area_sign(&tri(i64::MIN, i64::MIN, 0, 0, i64::MAX, i64::MAX)), Sign::Zero);
}

#[test]
fn same_orientation_of_translated_triangle() {
    assert!(same_orientation(&tri(0, 0, 3, 0, 0, 4), &tri(10, 0, 13, 0, 10, 4)));
}

#[test]
fn opposite_orientation_of_mirrored_triangle() {
    assert!(!same_orientation(&tri(0, 0, 3, 0, 0, 4), &tri(10, 0, 13, 0, 10, -4)));
    assert!(same_orientation(&tri(0, 0, 3, 0, 0, 4), &tri(10, -4, 13, 0, 10, 0)));
}

#[test]
fn degenerate_triangle_has_no_orientation() {
    assert!(!same_orientation(&tri(0, 0, 1, 0, 2, 0), &tri(0, 0, 3, 0, 0, 4)));
    assert!(!same_orientation(&tri(0, 0, 3, 0, 0, 4), &tri(0, 0, 1, 0, 2, 0)));
    assert!(!same_orientation(&tri(0, 0, 1, 0, 2, 0), &tri(0, 0, 1, 0, 2, 0)));
}

#[test]
fn orientation_is_exact_at_the_limits_of_the_coordinates() {
    let big = tri(i64::MIN, i64::MIN, i64::MAX, i64::MIN, i64::MIN, i64::MAX);
    let small = tri(0, 0, 1, 0, 0, 1);
    assert_eq!(area_sign(&big), Sign::Negative);
    assert_eq!(area_sign(&small), Sign::Negative);
    assert!(same_orientation(&big, &small));
    let flipped = tri(i64::MIN, i64::MAX, i64::MAX, i64::MIN, i64::MIN, i64::MIN);
    assert_eq!(area_sign(&flipped), Sign::Positive);
    assert!(!same_orientation(&big, &flipped));
    // Nearly collinear: the two products differ by one.
    let thin = tri(0, 0, i64::MAX, i64::MAX - 1, i64::MAX - 1, i64::MAX - 2);
    // cross = (c.x - a.x)(b.y - a.y) - (b.x - a.x)(c.y - a.y)
    //       = (M-1)(M-1) - M(M-2) = 1, which is the edge sum.
    assert_eq!(area_sign(&thin), Sign::Positive);
}
