use calx::hex_fov::PolarPoint;
use calx::space::CellVector;

#[test]
fn radius_zero_maps_to_origin() {
    // Any angular position on ring zero projects to the origin cell.
    for num in [-7i64, -1, 0, 1, 2, 5, 13] {
        for den in [1i64, 2, 3] {
            let p = PolarPoint::new(num, den, 0);
            assert_eq!(p.to_v2(), CellVector::new(0, 0));
        }
    }
}

#[test]
fn next_increments_winding_index() {
    let mut p = PolarPoint::new(-7, 2, 3);
    let mut w = p.winding_index();
    for _ in 0..20 {
        p = p.next();
        let w2 = p.winding_index();
        assert_eq!(w2, w + 1);
        w = w2;
    }
}

#[test]
fn half_open_ordering_is_consistent() {
    // end_index is winding_index or one past it, and is_below agrees
    // with the index comparison.
    for num in [-5i64, 0, 1, 3, 7, 12] {
        for den in [1i64, 2, 4] {
            let p = PolarPoint::new(num, den, 2);
            let w = p.winding_index();
            let e = p.end_index();
            assert!(e == w || e == w + 1);
            let q = PolarPoint::new(num, den, 2);
            assert_eq!(p.is_below(q), w < q.end_index());
        }
    }
    // A point is never below itself when its position sits mid-cell.
    let p = PolarPoint::new(1, 2, 1);
    assert_eq!(p.winding_index(), 1);
    assert_eq!(p.end_index(), 1);
}

#[test]
fn ring_one_walk_covers_all_six_neighbors() {
    let mut p = PolarPoint::new(0, 1, 1);
    let expected = [(-1, -1), (0, -1), (1, 0), (1, 1), (0, 1), (-1, 0)];
    for (x, y) in expected {
        assert_eq!(p.to_v2(), CellVector::new(x, y));
        p = p.next();
    }
    // The walk wraps around the ring.
    assert_eq!(p.to_v2(), CellVector::new(-1, -1));
}

#[test]
fn further_keeps_the_ring_fraction() {
    // Halfway around ring one is the south cell; halfway around ring
    // two, after projecting outward, is the south cell of ring two.
    let p = PolarPoint::new(3, 1, 1);
    assert_eq!(p.to_v2(), CellVector::new(1, 1));
    let q = p.further();
    assert_eq!(q.winding_index(), 6);
    assert_eq!(q.to_v2(), CellVector::new(2, 2));
}

#[test]
fn side_point_fires_on_vertical_rim_steps() {
    // Walking from (0, -1) to (1, 0) moves down the right rim; the
    // acute corner between them is (1, -1).
    let p = PolarPoint::new(1, 1, 1);
    assert_eq!(p.to_v2(), CellVector::new(0, -1));
    assert_eq!(p.side_point(), Some(CellVector::new(1, -1)));
    // Walking from (-1, -1) to (0, -1) is not vertical: no side point.
    let q = PolarPoint::new(0, 1, 1);
    assert_eq!(q.side_point(), None);
}
