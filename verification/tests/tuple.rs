use kinematics::tuple::{DivisionByZero, Point, Scalar, Vector};

/// The coordinate nearest to `value`.
fn fx(value: f64) -> i64 {
    (value * 100_000_000_000_000.0).round() as i64
}

/// The scalar nearest to `value`.
fn sx(value: f64) -> i64 {
    (value * 100_000_000_000.0).round() as i64
}

/// One as a coordinate.
const C: i64 = 100_000_000_000_000;

/// One as a scalar.
const S: i64 = 100_000_000_000;

#[test]
fn adding_point_vector() {
    let p = Point {
        x: fx(3.),
        y: fx(-2.),
        z: fx(5.),
    };
    let v = Vector {
        x: fx(-2.),
        y: fx(3.),
        z: fx(1.),
    };

    assert_eq!(
        p + v,
        Point {
            x: fx(1.),
            y: fx(1.),
            z: fx(6.),
        }
    );
}

#[test]
fn subtracting_two_points() {
    let end = Point {
        x: fx(3.),
        y: fx(2.),
        z: fx(1.),
    };
    let start = Point {
        x: fx(5.),
        y: fx(6.),
        z: fx(7.),
    };

    assert_eq!(
        end - start,
        Vector {
            x: fx(-2.),
            y: fx(-4.),
            z: fx(-6.),
        }
    );
}

#[test]
fn subtracting_a_vector_from_a_point() {
    let p = Point {
        x: fx(3.),
        y: fx(2.),
        z: fx(1.),
    };
    let v = Vector {
        x: fx(5.),
        y: fx(6.),
        z: fx(7.),
    };

    assert_eq!(
        p - v,
        Point {
            x: fx(-2.),
            y: fx(-4.),
            z: fx(-6.),
        }
    );
}

#[test]
fn subtracting_two_vectors() {
    let v1 = Vector {
        x: fx(3.),
        y: fx(2.),
        z: fx(1.),
    };
    let v2 = Vector {
        x: fx(5.),
        y: fx(6.),
        z: fx(7.),
    };

    assert_eq!(
        v1 - v2,
        Vector {
            x: fx(-2.),
            y: fx(-4.),
            z: fx(-6.),
        }
    );
}

#[test]
fn subtracting_a_vector_from_the_zero_vector() {
    let zero = Vector {
        x: fx(0.),
        y: fx(0.),
        z: fx(0.),
    };
    let v = Vector {
        x: fx(1.),
        y: fx(-2.),
        z: fx(3.),
    };

    assert_eq!(
        zero - v,
        Vector {
            x: fx(-1.),
            y: fx(2.),
            z: fx(-3.),
        }
    );
}

#[test]
fn negating_a_vector() {
    let v = Vector {
        x: fx(1.),
        y: fx(-2.),
        z: fx(3.),
    };

    assert_eq!(
        -v,
        Vector {
            x: fx(-1.),
            y: fx(2.),
            z: fx(-3.),
        }
    );
}

#[test]
fn mutiplying_a_vector_by_a_scalar() {
    let v = Vector {
        x: fx(1.),
        y: fx(-2.),
        z: fx(3.),
    };
    assert_eq!(
        v * Scalar(sx(3.5)),
        Vector {
            x: fx(3.5),
            y: fx(-7.),
            z: fx(10.5)
        }
    );
}

#[test]
fn mutiplying_a_vector_by_a_fraction() {
    let v = Vector {
        x: fx(1.),
        y: fx(-2.),
        z: fx(3.),
    };
    assert_eq!(
        v * Scalar(sx(0.5)),
        Vector {
            x: fx(0.5),
            y: fx(-1.),
            z: fx(1.5)
        }
    );
}

#[test]
fn dividing_a_vector_by_a_scalar() {
    let v = Vector {
        x: fx(1.),
        y: fx(-2.),
        z: fx(3.),
    };
    assert_eq!(
        v / Scalar(sx(2.)),
        Ok(Vector {
            x: fx(0.5),
            y: fx(-1.),
            z: fx(1.5)
        })
    );
}

#[test]
fn computing_the_magnitude_of_vector() {
    let v = Vector {
        x: fx(1.),
        y: fx(0.),
        z: fx(0.),
    };
    assert_eq!(v.magnitude(), Scalar(sx(1.)));

    let v = Vector {
        x: fx(0.),
        y: fx(1.),
        z: fx(0.),
    };
    assert_eq!(v.magnitude(), Scalar(sx(1.)));

    let v = Vector {
        x: fx(0.),
        y: fx(0.),
        z: fx(1.),
    };
    assert_eq!(v.magnitude(), Scalar(sx(1.)));

    let v = Vector {
        x: fx(1.),
        y: fx(2.),
        z: fx(3.),
    };
    assert_eq!(v.magnitude(), Scalar(sx(14f64.sqrt())));

    let v = Vector {
        x: fx(-1.),
        y: fx(-2.),
        z: fx(-3.),
    };
    assert_eq!(v.magnitude(), Scalar(sx(14f64.sqrt())));
}

#[test]
fn normalizing_vector() {
    let v = Vector {
        x: fx(4.),
        y: fx(0.),
        z: fx(0.),
    };
    assert_eq!(
        v.normalize(),
        Ok(Vector {
            x: fx(1.),
            y: fx(0.),
            z: fx(0.)
        })
    );

    let v = Vector {
        x: fx(1.),
        y: fx(2.),
        z: fx(3.),
    };
    let norm = v.normalize().unwrap();
    assert_eq!(
        norm,
        Vector {
            x: fx(1. / 14f64.sqrt()),
            y: fx(2. / 14f64.sqrt()),
            z: fx(3. / 14f64.sqrt()),
        }
    );
    assert_eq!(norm.magnitude(), Scalar(sx(1.)));
}

#[test]
fn dot_product_of_vectors() {
    let a = Vector {
        x: fx(1.),
        y: fx(2.),
        z: fx(3.),
    };
    let b = Vector {
        x: fx(2.),
        y: fx(3.),
        z: fx(4.),
    };
    assert_eq!(a.dot(&b), Scalar(sx(20.)));
}

#[test]
fn cross_product_of_vectors() {
    let a = Vector {
        x: fx(1.),
        y: fx(2.),
        z: fx(3.),
    };
    let b = Vector {
        x: fx(2.),
        y: fx(3.),
        z: fx(4.),
    };
    assert_eq!(
        a.cross(&b),
        Vector {
            x: fx(-1.),
            y: fx(2.),
            z: fx(-1.)
        }
    );
    assert_eq!(
        b.cross(&a),
        Vector {
            x: fx(1.),
            y: fx(-2.),
            z: fx(1.)
        }
    );
}

/// The coordinates of a vector, for comparisons without tolerance.
fn raw(v: Vector) -> (i64, i64, i64) {
    (v.x, v.y, v.z)
}

#[test]
fn operations_give_exact_coordinates() {
    let p = Point { x: 3 * C, y: -2 * C, z: 5 * C };
    let v = Vector { x: -2 * C, y: 3 * C, z: C };
    let moved = p + v;
    assert_eq!((moved.x, moved.y, moved.z), (C, C, 6 * C));
    let back = moved - v;
    assert_eq!((back.x, back.y, back.z), (3 * C, -2 * C, 5 * C));
    let gap = Point { x: 3 * C, y: 2 * C, z: C } - Point { x: 5 * C, y: 6 * C, z: 7 * C };
    assert_eq!(raw(gap), (-2 * C, -4 * C, -6 * C));
    assert_eq!(raw(-v), (2 * C, -3 * C, -C));
    assert_eq!(raw(v * Scalar::new(35 * S / 10)), (-7 * C, 105 * C / 10, 35 * C / 10));
    assert_eq!(raw((v / Scalar::new(-4 * S)).unwrap()), (C / 2, -3 * C / 4, -C / 4));
}

#[test]
fn products_and_quotients_round_toward_zero() {
    let v = Vector { x: 1, y: -1, z: 1_999_999_999_999_999 };
    assert_eq!(raw(v * Scalar::new(99_999_999_999)), (0, 0, 1_999_999_999_979_999));
    assert_eq!(raw(v * Scalar::new(-99_999_999_999)), (0, 0, -1_999_999_999_979_999));
    let w = Vector { x: C, y: -C, z: 2 };
    assert_eq!(
        raw((w / Scalar::new(3 * S)).unwrap()),
        (33_333_333_333_333, -33_333_333_333_333, 0)
    );
    assert_eq!(
        raw((w / Scalar::new(-3 * S)).unwrap()),
        (-33_333_333_333_333, 33_333_333_333_333, 0)
    );
}

#[test]
fn borrowed_and_owned_operands_agree() {
    let a = Vector { x: 125 * C / 100, y: -250 * C / 100, z: 375 * C / 100 };
    let b = Vector { x: -4 * C, y: 5 * C + 1, z: 6 };
    assert_eq!(raw(&a + &b), raw(a + b));
    assert_eq!(raw(a + &b), raw(a + b));
    assert_eq!(
        raw(a + b),
        (-275_000_000_000_000, 250_000_000_000_001, 375_000_000_000_006)
    );
    let s = Scalar::new(-15 * S / 10);
    assert_eq!(raw(&a * s), raw(a * s));
    assert_eq!(
        raw(a * s),
        (-187_500_000_000_000, 375_000_000_000_000, -562_500_000_000_000)
    );
}

#[test]
fn adding_in_place() {
    let mut v = Vector { x: 1, y: 2, z: 3 };
    v += Vector { x: 10, y: -20, z: 30 };
    assert_eq!(raw(v), (11, -18, 33));
    let mut p = Point { x: -1, y: -2, z: -3 };
    p += v;
    assert_eq!((p.x, p.y, p.z), (10, -20, 30));
}

#[test]
fn dividing_by_zero_fails() {
    let v = Vector { x: C, y: 0, z: -C };
    assert_eq!(v / Scalar::new(0), Err(DivisionByZero));
    assert!((v / Scalar::new(S)).is_ok());
}

#[test]
fn normalizing_the_zero_vector_fails() {
    let zero = Vector { x: 0, y: 0, z: 0 };
    assert_eq!(zero.normalize(), Err(DivisionByZero));
    let tiny = Vector { x: 0, y: -1, z: 0 };
    assert_eq!(raw(tiny.normalize().unwrap()), (0, -C, 0));
}

#[test]
fn magnitude_is_rounded_up() {
    let v = Vector { x: C, y: 2 * C, z: 3 * C };
    assert_eq!(v.magnitude().0, 374_165_738_678);
    assert_eq!(Vector { x: 0, y: 0, z: 0 }.magnitude().0, 0);
    assert_eq!(Vector { x: 1, y: 0, z: 0 }.magnitude().0, 1);
    assert_eq!(Vector { x: 1, y: 1, z: 1 }.magnitude().0, 1);
    assert_eq!(Vector { x: 999, y: 0, z: 0 }.magnitude().0, 1);
    assert_eq!(Vector { x: 1_000, y: 0, z: 0 }.magnitude().0, 1);
    assert_eq!(Vector { x: 1_001, y: 0, z: 0 }.magnitude().0, 2);
    assert_eq!(Vector { x: -3 * C, y: 0, z: 4 * C }.magnitude().0, 5 * S);
    assert_eq!(Vector { x: i64::MAX, y: 0, z: 0 }.magnitude().0, 9_223_372_036_854_776);
    assert_eq!(Vector { x: 0, y: i64::MIN + 1, z: 0 }.magnitude().0, 9_223_372_036_854_776);
    let far = Vector { x: i64::MIN, y: i64::MIN, z: i64::MIN };
    assert_eq!(far.magnitude().0, 15_975_348_984_942_516);
}

#[test]
fn normalizing_gives_exact_coordinates() {
    let v = Vector { x: C, y: 2 * C, z: 3 * C };
    assert_eq!(
        raw(v.normalize().unwrap()),
        (26_726_124_191_242, 53_452_248_382_484, 80_178_372_573_727)
    );
    let w = Vector { x: -3 * C, y: 0, z: 4 * C };
    assert_eq!(raw(w.normalize().unwrap()), (-60_000_000_000_000, 0, 80_000_000_000_000));
    let far = Vector { x: i64::MIN, y: i64::MIN, z: i64::MIN };
    assert_eq!(
        raw(far.normalize().unwrap()),
        (-57_735_026_918_962, -57_735_026_918_962, -57_735_026_918_962)
    );
}

#[test]
fn dot_and_cross_round_once() {
    let a = Vector { x: 15 * C / 10, y: -2 * C, z: 1 };
    let b = Vector { x: 3, y: 5 * C / 10, z: 99_999_999_999_999 };
    assert_eq!(a.dot(&b).0, -99_999_999_999);
    assert_eq!(
        raw(a.cross(&b)),
        (-199_999_999_999_998, -149_999_999_999_998, 75_000_000_000_006)
    );
    assert_eq!(
        raw(b.cross(&a)),
        (199_999_999_999_998, 149_999_999_999_998, -75_000_000_000_006)
    );
    let c = Vector { x: C, y: 2 * C, z: 3 * C };
    let d = Vector { x: 2 * C, y: 3 * C, z: 4 * C };
    assert_eq!(c.dot(&d).0, 20 * S);
    assert_eq!(raw(c.cross(&d)), (-C, 2 * C, -C));
}

#[test]
fn equality_allows_one_thousandth() {
    let t = C / 1_000;
    let v = Vector { x: 100, y: -100, z: 0 };
    assert_eq!(v, Vector { x: 100 + t, y: -100 + t, z: -t });
    assert_ne!(v, Vector { x: 101 + t, y: -100, z: 0 });
    assert_ne!(v, Vector { x: 100, y: -101 - t, z: 0 });
    assert_ne!(v, Vector { x: 100, y: -100, z: t + 1 });
    let p = Point { x: 0, y: 0, z: 0 };
    assert_eq!(p, Point { x: t, y: -t, z: t });
    assert_ne!(p, Point { x: 0, y: 0, z: -t - 1 });
    assert_eq!(Scalar::new(-S / 2_000), Scalar::new(S / 2_000));
    assert_ne!(Scalar::new(-S / 2_000 - 1), Scalar::new(S / 2_000));
    assert_ne!(Scalar::new(S), Scalar::new(S + S / 1_000 + 1));
    assert_eq!(Scalar::new(S), Scalar::new(S + S / 1_000));
}

#[test]
fn equality_allows_one_part_in_a_million() {
    let big = 5_000_000_000_000_000_000;
    assert_eq!(Scalar::new(big), Scalar::new(big + 5_000_000_000_000));
    assert_eq!(Scalar::new(big + 5_000_000_000_000), Scalar::new(big));
    assert_ne!(Scalar::new(big), Scalar::new(big + 5_000_005_000_006));
    assert_eq!(Scalar::new(-big), Scalar::new(-big - 5_000_000_000_000));
    assert_ne!(Scalar::new(-big), Scalar::new(big));
    assert_eq!(Scalar::new(i64::MIN), Scalar::new(i64::MIN + 9_000_000_000_000));
    assert_ne!(Scalar::new(i64::MIN), Scalar::new(i64::MAX));
    let far = Point { x: big, y: -big, z: 0 };
    assert_eq!(far, Point { x: big + 5_000_000_000_000, y: -big, z: 0 });
    assert_ne!(far, Point { x: big + 5_000_005_000_006, y: -big, z: 0 });
}

#[test]
fn scalars_are_ordered_without_tolerance() {
    assert!(Scalar::new(S - 1) < Scalar::new(S));
    assert!(!(Scalar::new(S) < Scalar::new(S)));
    assert!(Scalar::new(S + 1) > Scalar::new(S));
    assert!(Scalar::new(-1) <= Scalar::new(-1));
    assert!(Scalar::new(i64::MIN) < Scalar::new(i64::MAX));
    assert_eq!(
        Scalar::new(3).partial_cmp(&Scalar::new(3)),
        Some(std::cmp::Ordering::Equal)
    );
}

#[test]
fn sums_commute_and_associate() {
    let a = Vector { x: 1_234_567, y: -7_654_321, z: 9 };
    let b = Vector { x: -99, y: 88_888_888, z: -777 };
    let c = Vector { x: 5, y: 5, z: -1_000_000_000_000 };
    assert_eq!(raw(a + b), raw(b + a));
    assert_eq!(raw((a + b) + c), raw(a + (b + c)));
    assert_eq!(raw((a + b) + c), (1_234_473, 81_234_572, -1_000_000_000_768));
}

#[test]
fn cross_product_changes_sign_when_swapped() {
    let a = Vector { x: 12 * C + 345, y: -7 * C, z: 9 * C };
    let b = Vector { x: -99 * C / 10, y: 8 * C + 1, z: -777 };
    assert_eq!(raw(a.cross(&b)), raw(-b.cross(&a)));
    assert_eq!(
        raw(a.cross(&b)),
        (-7_199_999_999_994_570, -8_909_999_999_990_675, 2_670_000_000_002_772)
    );
}

#[test]
fn normalized_vectors_have_unit_length() {
    let vectors = [
        Vector { x: C, y: 2 * C, z: 3 * C },
        Vector { x: 1, y: 1, z: 0 },
        Vector { x: -1, y: 2, z: -2 },
        Vector { x: i64::MAX, y: i64::MIN, z: i64::MAX },
        Vector { x: 35_356 * (C / 1_000_000), y: 35_356 * (C / 1_000_000), z: 0 },
        Vector { x: 0, y: 0, z: i64::MIN },
        Vector { x: 1, y: -1_000, z: 0 },
    ];
    for v in vectors {
        let unit = v.normalize().unwrap();
        assert_eq!(unit.magnitude().0, S);
        assert_eq!(unit.magnitude(), Scalar::new(S));
    }
}

#[test]
fn normalizing_short_and_long_vectors() {
    let tiny = Vector { x: 1, y: 1, z: 0 };
    assert_eq!(
        raw(tiny.normalize().unwrap()),
        (70_710_678_118_654, 70_710_678_118_654, 0)
    );
    let skew = Vector { x: -1, y: 2, z: -2 };
    assert_eq!(
        raw(skew.normalize().unwrap()),
        (-33_333_333_333_333, 66_666_666_666_666, -66_666_666_666_666)
    );
    let steep = Vector { x: 1, y: -1_000, z: 0 };
    assert_eq!(raw(steep.normalize().unwrap()), (99_999_950_000, -99_999_950_000_037, 0));
    let far = Vector { x: i64::MAX, y: i64::MIN, z: i64::MAX };
    assert_eq!(
        raw(far.normalize().unwrap()),
        (57_735_026_918_962, -57_735_026_918_962, 57_735_026_918_962)
    );
    let axis = Vector { x: 0, y: 0, z: i64::MIN };
    assert_eq!(raw(axis.normalize().unwrap()), (0, 0, -C));
    let flat = Vector { x: i64::MAX, y: 1, z: 0 };
    assert_eq!(raw(flat.normalize().unwrap()), (C - 1, 0, 0));
}

#[test]
fn moving_a_point_there_and_back() {
    let p = Point { x: 3 * C + 1, y: -3 * C + 1, z: i64::MAX - 5 };
    let v = Vector { x: -80_000 * C, y: 77, z: 5 };
    let back = (p + v) - v;
    assert_eq!((back.x, back.y, back.z), (p.x, p.y, p.z));
}

#[test]
fn scaling_round_trip() {
    let v = Vector { x: 123_456_700_000_000, y: -765_432_100_000_000, z: 9 };
    let s = Scalar::new(-314_159_200_000);
    assert_eq!(raw(v * s), (-387_850_581_066_400, 2_404_675_361_903_200, -28));
    let back = ((v * s) / s).unwrap();
    assert_eq!(back, v);
    assert_eq!(raw(back), (123_456_700_000_000, -765_432_100_000_000, 8));
    let tenth = Scalar::new(S / 10);
    assert_eq!(raw(((v * tenth) / tenth).unwrap()), (123_456_700_000_000, -765_432_100_000_000, 0));
    assert_eq!(((v * tenth) / tenth).unwrap(), v);
}

#[test]
fn scaling_round_trip_through_the_smallest_scalar() {
    let v = Vector { x: 15 * C / 10 + 777, y: -C / 3, z: 5 };
    let s = Scalar::new(1);
    assert_eq!(raw(v * s), (1_500, -333, 0));
    let back = ((v * s) / s).unwrap();
    assert_eq!(raw(back), (150_000_000_000_000, -33_300_000_000_000, 0));
    assert_eq!(back, v);
    let other = Scalar::new(-1);
    assert_eq!(((v * other) / other).unwrap(), v);
}

#[test]
fn length_of_a_stretched_vector() {
    let v = Vector { x: C / 2, y: C / 2, z: 0 };
    let s = Scalar::new(100 * S);
    assert_eq!(v.magnitude().0, 70_710_678_119);
    assert_eq!((v * s).magnitude().0, 7_071_067_811_866);
    assert_eq!((v * s).magnitude(), Scalar::new(100 * v.magnitude().0));
    let tiny = Vector { x: 1, y: 1, z: 0 };
    let much = Scalar::new(9_000_000 * S);
    assert_eq!(raw(tiny * much), (9_000_000, 9_000_000, 0));
    assert_eq!((tiny * much).magnitude().0, 12_728);
    assert_eq!((tiny * much).magnitude(), Scalar::new(9_000_000 * tiny.magnitude().0));
    assert_eq!((v * Scalar::new(-100 * S)).magnitude(), Scalar::new(100 * v.magnitude().0));
}

#[test]
fn a_unit_vector_stretched_by_the_length() {
    let v = Vector { x: C / 1_000, y: 90_000 * C, z: 0 };
    let unit = v.normalize().unwrap();
    let length = v.magnitude();
    assert_eq!(raw(unit), (1_111_111, 99_999_999_999_999, 0));
    assert_eq!(length.0, 9_000_000_000_000_001);
    assert_eq!(raw(unit * length), (99_999_990_000, 8_999_999_999_999_910_999, 0));
    assert_eq!(unit * length, v);
    let w = Vector { x: C, y: 2 * C, z: 3 * C };
    let stretched = w.normalize().unwrap() * w.magnitude();
    assert_eq!(
        raw(stretched),
        (100_000_000_000_160, 200_000_000_000_320, 300_000_000_000_484)
    );
    assert_eq!(stretched, w);
    let steep = Vector { x: 1, y: -1_000, z: 0 };
    assert_eq!(raw(steep.normalize().unwrap() * steep.magnitude()), (1, -1_999, 0));
    assert_eq!(steep.normalize().unwrap() * steep.magnitude(), steep);
}

#[test]
fn guards_tell_which_operations_fit() {
    let far = Vector { x: i64::MAX, y: 0, z: i64::MIN };
    let one = Vector { x: 1, y: 0, z: 0 };
    let back = Vector { x: -1, y: 0, z: 1 };
    assert!(!far.can_add(&one));
    assert!(far.can_add(&back));
    assert!(!far.can_add(&Vector { x: 0, y: 0, z: -1 }));
    assert!(far.can_scale(Scalar::new(S)));
    assert!(far.can_scale(Scalar::new(-S + 1)));
    assert!(!far.can_scale(Scalar::new(S + 1)));
    assert!(!far.can_scale(Scalar::new(-S)));
    let corner = Point { x: i64::MIN, y: i64::MAX, z: 0 };
    assert!(corner.can_move(&Vector { x: 5, y: -5, z: i64::MIN }));
    assert!(!corner.can_move(&Vector { x: -1, y: 0, z: 0 }));
    assert!(!corner.can_move(&Vector { x: 0, y: 1, z: 0 }));
}

#[test]
fn guards_of_differences_and_opposites() {
    let low = Point { x: i64::MIN, y: 0, z: 0 };
    assert!(!low.can_sub(&Point { x: 1, y: 0, z: 0 }));
    assert!(low.can_sub(&Point { x: -1, y: i64::MIN + 1, z: i64::MAX }));
    assert!(!low.can_sub(&Point { x: -1, y: i64::MIN, z: 0 }));
    assert!(!low.can_move_back(&Vector { x: 1, y: 0, z: 0 }));
    assert!(low.can_move_back(&Vector { x: 0, y: 0, z: 0 }));
    assert!(!Point { x: 0, y: i64::MAX, z: 0 }.can_move_back(&Vector { x: 0, y: -1, z: 0 }));
    let far = Vector { x: i64::MAX, y: 0, z: i64::MIN };
    assert!(far.can_sub(&Vector { x: 1, y: i64::MAX, z: -1 }));
    assert!(!far.can_sub(&Vector { x: -1, y: 0, z: 0 }));
    assert!(!far.can_sub(&Vector { x: 0, y: 0, z: 1 }));
    assert!(!far.can_negate());
    assert!(!Vector { x: 0, y: i64::MIN, z: 0 }.can_negate());
    assert!(Vector { x: i64::MIN + 1, y: i64::MAX, z: 0 }.can_negate());
    assert_eq!(raw(-Vector { x: i64::MIN + 1, y: i64::MAX, z: 0 }), (i64::MAX, -i64::MAX, 0));
}

#[test]
fn guards_of_quotients() {
    let far = Vector { x: i64::MAX, y: 0, z: i64::MIN };
    assert!(far.can_divide(Scalar::new(0)));
    assert_eq!(far / Scalar::new(0), Err(DivisionByZero));
    assert!(far.can_divide(Scalar::new(S)));
    assert!(far.can_divide(Scalar::new(i64::MIN)));
    assert!(!far.can_divide(Scalar::new(S - 1)));
    assert!(!far.can_divide(Scalar::new(-S)));
    let near = Vector { x: i64::MAX, y: 0, z: i64::MIN + 1 };
    assert!(near.can_divide(Scalar::new(-S)));
    assert_eq!(raw((near / Scalar::new(-S)).unwrap()), (-i64::MAX, 0, i64::MAX));
}

#[test]
fn guards_of_inner_and_cross_products() {
    let axis = Vector { x: i64::MAX, y: 0, z: 0 };
    assert!(axis.can_dot(&Vector { x: 1_000 * C, y: 5, z: 5 }));
    assert!(!axis.can_dot(&Vector { x: 1_000 * C + 1, y: 0, z: 0 }));
    assert!(axis.can_dot(&Vector { x: -1_000 * C, y: 0, z: 0 }));
    let low = Vector { x: i64::MIN, y: i64::MIN, z: i64::MIN };
    assert!(!low.can_dot(&low));
    assert!(!low.can_dot(&Vector { x: i64::MIN, y: i64::MIN, z: i64::MAX }));
    let mixed = Vector { x: i64::MIN, y: i64::MAX, z: 0 };
    assert!(low.can_dot(&mixed));
    assert_eq!(low.dot(&mixed).0, 92);
    let up = Vector { x: 0, y: i64::MAX, z: 0 };
    assert!(up.can_cross(&Vector { x: 0, y: 0, z: C }));
    assert!(!up.can_cross(&Vector { x: 0, y: 0, z: C + 1 }));
    assert!(!up.can_cross(&Vector { x: -C - 1, y: 0, z: 0 }));
    assert!(up.can_cross(&Vector { x: C, y: 77, z: 0 }));
    assert_eq!(raw(up.cross(&Vector { x: C, y: 77, z: 0 })), (0, 0, -i64::MAX));
    let wide = Vector { x: 0, y: i64::MIN, z: i64::MIN };
    assert!(!wide.can_cross(&Vector { x: 0, y: i64::MAX, z: i64::MIN }));
}

#[test]
fn normalizing_twice_is_normalizing_once() {
    let v = Vector { x: C, y: 2 * C, z: 3 * C };
    let once = v.normalize().unwrap();
    let twice = once.normalize().unwrap();
    assert_eq!(twice, once);
    assert_eq!(raw(twice), (26_726_124_191_242, 53_452_248_382_484, 80_178_372_573_727));
    let far = Vector { x: i64::MAX, y: i64::MIN, z: i64::MAX };
    let once = far.normalize().unwrap();
    assert_eq!(once.normalize().unwrap(), once);
    let steep = Vector { x: 1, y: -1_000, z: 0 };
    let once = steep.normalize().unwrap();
    assert_eq!(once.normalize().unwrap(), once);
}

#[test]
fn the_square_of_the_length_is_the_inner_product() {
    let v = Vector { x: C, y: 2 * C, z: 3 * C };
    let length = v.magnitude().0;
    assert_eq!(v.dot(&v).0, 14 * S);
    assert_eq!(Scalar::new(((length as i128) * (length as i128) / (S as i128)) as i64), v.dot(&v));
    let wide = Vector { x: 300 * C, y: -400 * C, z: 1 };
    let length = wide.magnitude().0;
    assert_eq!(length, 500 * S + 1);
    assert_eq!(wide.dot(&wide).0, 250_000 * S);
    assert_eq!(
        Scalar::new(((length as i128) * (length as i128) / (S as i128)) as i64),
        wide.dot(&wide)
    );
}

#[test]
fn a_vector_and_its_opposite_have_one_length() {
    let v = Vector { x: C, y: -2 * C, z: 3 * C };
    assert_eq!(v.magnitude().0, (-v).magnitude().0);
    assert_eq!(v.magnitude().0, 374_165_738_678);
}
