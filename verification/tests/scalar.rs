use yarn::order::{distinct, merged, position, sorted, sorted_range, Ranked};
use yarn::scalar::{is_finite, rank_of};

#[test]
fn is_finite_agrees_with_the_numbers() {
    let samples = [
        0.0f32,
        -0.0,
        1.0,
        -1.0,
        f32::MAX,
        f32::MIN,
        f32::MIN_POSITIVE,
        f32::EPSILON,
        f32::INFINITY,
        f32::NEG_INFINITY,
        f32::NAN,
        -f32::NAN,
    ];
    for x in samples {
        assert_eq!(is_finite(x.to_bits()), x.is_finite());
    }
    assert!(!is_finite(0x7f80_0001));
    assert!(!is_finite(0xffff_ffff));
    assert!(is_finite(0x7f7f_ffff));
    assert!(is_finite(0x0000_0001));
}

#[test]
fn rank_of_gives_the_signed_magnitude() {
    assert_eq!(rank_of(0), 0);
    assert_eq!(rank_of(0x8000_0000), 0);
    assert_eq!(rank_of(1), 1);
    assert_eq!(rank_of(0x8000_0001), -1);
    assert_eq!(rank_of(1.0f32.to_bits()), 0x3f80_0000);
    assert_eq!(rank_of((-1.0f32).to_bits()), -0x3f80_0000);
    assert_eq!(rank_of(0x7fff_ffff), 0x7fff_ffff);
    assert_eq!(rank_of(0xffff_ffff), -0x7fff_ffff);
}

#[test]
fn rank_of_orders_as_the_numbers_do() {
    let samples = [
        f32::MIN,
        -3.5,
        -1.0,
        -1.0e-30,
        -f32::MIN_POSITIVE,
        -0.0,
        0.0,
        f32::MIN_POSITIVE,
        1.0e-30,
        1.0,
        3.5,
        f32::MAX,
    ];
    for a in samples {
        for b in samples {
            assert_eq!(rank_of(a.to_bits()) < rank_of(b.to_bits()), a < b);
            assert_eq!(rank_of(a.to_bits()) == rank_of(b.to_bits()), a == b);
        }
    }
}

#[test]
fn below_orders_points_by_their_first_difference() {
    let p = |x: f32, y: f32, z: f32| (x.to_bits(), y.to_bits(), z.to_bits());
    assert!(p(1.0, 9.0, 9.0).below(&p(2.0, 0.0, 0.0)));
    assert!(p(1.0, 1.0, 9.0).below(&p(1.0, 2.0, 0.0)));
    assert!(p(1.0, 1.0, 1.0).below(&p(1.0, 1.0, 2.0)));
    assert!(!p(1.0, 1.0, 1.0).below(&p(1.0, 1.0, 1.0)));
    assert!(!p(0.0, 0.0, 0.0).below(&p(-0.0, -0.0, -0.0)));
    assert!(!p(-0.0, 0.0, 0.0).below(&p(0.0, 0.0, 0.0)));
    assert!(p(-2.0, 0.0, 0.0).below(&p(-1.0, 0.0, 0.0)));
    let t = |u: f32, v: f32| (u.to_bits(), v.to_bits());
    assert!(t(0.0, 1.0).below(&t(0.5, 0.0)));
    assert!(t(0.5, -1.0).below(&t(0.5, 0.0)));
    assert!(!t(0.5, 0.0).below(&t(0.5, 0.0)));
}

#[test]
fn sorted_distinct_position_work_together() {
    let t = |u: f32, v: f32| (u.to_bits(), v.to_bits());
    let input = vec![t(3.0, 0.0), t(1.0, 2.0), t(3.0, 0.0), t(-1.0, 0.0), t(1.0, 1.0), t(1.0, 2.0)];
    let ordered = sorted(&input);
    assert_eq!(
        ordered,
        vec![t(-1.0, 0.0), t(1.0, 1.0), t(1.0, 2.0), t(1.0, 2.0), t(3.0, 0.0), t(3.0, 0.0)]
    );
    let unique = distinct(&ordered);
    assert_eq!(unique, vec![t(-1.0, 0.0), t(1.0, 1.0), t(1.0, 2.0), t(3.0, 0.0)]);
    assert_eq!(position(&unique, &t(-1.0, 0.0)), Some(0));
    assert_eq!(position(&unique, &t(1.0, 2.0)), Some(2));
    assert_eq!(position(&unique, &t(3.0, 0.0)), Some(3));
    assert_eq!(position(&unique, &t(2.0, 0.0)), None);
    assert_eq!(position(&unique, &t(-5.0, 0.0)), None);
    assert_eq!(position(&unique, &t(9.0, 0.0)), None);
    assert_eq!(position(&Vec::new(), &t(9.0, 0.0)), None);
}

#[test]
fn merged_takes_from_the_first_where_values_are_equal() {
    let t = |u: f32, v: f32| (u.to_bits(), v.to_bits());
    let a = vec![t(0.0, 0.0), t(2.0, 0.0)];
    let b = vec![t(-0.0, 0.0), t(1.0, 0.0), t(3.0, 0.0)];
    assert_eq!(
        merged(&a, &b),
        vec![t(0.0, 0.0), t(-0.0, 0.0), t(1.0, 0.0), t(2.0, 0.0), t(3.0, 0.0)]
    );
    assert_eq!(merged(&Vec::new(), &b), b);
    assert_eq!(merged(&a, &Vec::new()), a);
}

#[test]
fn distinct_keeps_the_first_of_a_run() {
    let t = |u: f32, v: f32| (u.to_bits(), v.to_bits());
    let run = vec![t(-0.0, 1.0), t(0.0, 1.0), t(0.0, 2.0)];
    assert_eq!(distinct(&run), vec![t(-0.0, 1.0), t(0.0, 2.0)]);
}

#[test]
fn sorted_range_sorts_a_part() {
    let t = |u: f32, v: f32| (u.to_bits(), v.to_bits());
    let input = vec![t(9.0, 0.0), t(3.0, 0.0), t(1.0, 0.0), t(2.0, 0.0), t(-9.0, 0.0)];
    assert_eq!(sorted_range(&input, 1, 4), vec![t(1.0, 0.0), t(2.0, 0.0), t(3.0, 0.0)]);
    assert_eq!(sorted_range(&input, 2, 2), vec![]);
    assert_eq!(sorted_range(&input, 4, 5), vec![t(-9.0, 0.0)]);
    assert_eq!(
        sorted_range(&input, 0, 5),
        vec![t(-9.0, 0.0), t(1.0, 0.0), t(2.0, 0.0), t(3.0, 0.0), t(9.0, 0.0)]
    );
}
