use zisk_precompiles::secp256k1_mul::{msb_pos_256, CurveOp, DoubleScalarMul, Point256, G_X, G_Y};

fn pt(a: u64, b: u64) -> Point256 {
    Point256 { x: [a, 0, 0, 0], y: [b, 0, 0, 0] }
}

#[test]
fn msb_position_of_two_scalars() {
    assert_eq!(msb_pos_256(&[1, 0, 0, 0], &[0, 0, 0, 0]), (0, 0));
    assert_eq!(msb_pos_256(&[0b1010, 0, 0, 0], &[0b100, 0, 0, 0]), (0, 3));
    assert_eq!(msb_pos_256(&[5, 0, 1 << 40, 0], &[0, 0, 0, 0]), (2, 40));
    assert_eq!(msb_pos_256(&[0, 0, 0, 0], &[0, 0, 0, u64::MAX]), (3, 63));
}

#[test]
fn double_scalar_mul_schedule() {
    // k1 = 0b10, k2 = 0b01: G + P first, then G at bit 1, then double and add P at bit 0.
    let p = pt(7, 8);
    let mut hints = Vec::new();
    let (mut m, op) = DoubleScalarMul::start(&[2, 0, 0, 0], &[1, 0, 0, 0], &p);
    match op {
        CurveOp::Add(a, b) => {
            assert_eq!(a.x, G_X);
            assert_eq!(a.y, G_Y);
            assert_eq!(b.x, p.x);
        }
        _ => panic!("expected G + P"),
    }
    let gp = pt(1, 2);
    let op = m.feed(&gp, &mut hints);
    match op {
        CurveOp::Double(a) => assert_eq!(a.x, G_X),
        _ => panic!("expected the double of G"),
    }
    let doubled = pt(3, 4);
    let op = m.feed(&doubled, &mut hints);
    match op {
        CurveOp::Add(a, b) => {
            assert_eq!(a.x, doubled.x);
            assert_eq!(b.x, p.x);
        }
        _ => panic!("expected 2G + P"),
    }
    let sum = pt(5, 6);
    let op = m.feed(&sum, &mut hints);
    match op {
        CurveOp::Finished(is_infinity, r) => {
            assert!(!is_infinity);
            assert_eq!(r.x, sum.x);
            assert_eq!(r.y, sum.y);
        }
        _ => panic!("expected the result"),
    }
    assert_eq!(hints, vec![1, 0, 0, 0, 2, 0, 0, 0, 3, 0, 0, 0, 4, 0, 0, 0, 5, 0, 0, 0, 6, 0, 0, 0]);
}

#[test]
fn opposite_point_gives_infinity() {
    // k1 = 0, k2 = 0b11 with 2P = -P: the complete addition ends at infinity.
    let p = pt(7, 8);
    let mut hints = Vec::new();
    let (mut m, _) = DoubleScalarMul::start(&[0, 0, 0, 0], &[3, 0, 0, 0], &p);
    let op = m.feed(&pt(1, 2), &mut hints);
    assert!(matches!(op, CurveOp::Double(_)));
    let op = m.feed(&pt(7, 9), &mut hints);
    match op {
        CurveOp::Finished(is_infinity, _) => assert!(is_infinity),
        _ => panic!("expected infinity"),
    }
}

#[test]
fn equal_points_are_doubled() {
    let p = Point256 { x: G_X, y: G_Y };
    let (_, op) = DoubleScalarMul::start(&[2, 0, 0, 0], &[2, 0, 0, 0], &p);
    match op {
        CurveOp::Double(a) => assert_eq!(a.x, G_X),
        _ => panic!("expected the double of G"),
    }
}

#[test]
fn scalars_whose_top_bit_is_bit_zero_of_a_limb() {
    // k1 = k2 = 1 and P = G: G + P is the double of G, and the result is that sum.
    let g = Point256 { x: G_X, y: G_Y };
    let mut hints = Vec::new();
    let (mut m, op) = DoubleScalarMul::start(&[1, 0, 0, 0], &[1, 0, 0, 0], &g);
    assert!(matches!(op, CurveOp::Double(a) if a.x == G_X));
    let two_g = pt(11, 12);
    match m.feed(&two_g, &mut hints) {
        CurveOp::Finished(is_infinity, r) => {
            assert!(!is_infinity);
            assert_eq!(r.x, two_g.x);
        }
        _ => panic!("expected the result"),
    }
    // k1 = 2^64, k2 = 0: G, then 64 doublings.
    let p = pt(7, 8);
    let (mut m, op) = DoubleScalarMul::start(&[0, 1, 0, 0], &[0, 0, 0, 0], &p);
    assert!(matches!(op, CurveOp::Add(_, _)));
    let mut op = m.feed(&pt(1, 2), &mut hints);
    let mut doublings = 0;
    while let CurveOp::Double(_) = op {
        doublings += 1;
        op = m.feed(&pt(doublings, 1), &mut hints);
    }
    assert_eq!(doublings, 64);
}
