use calx::hex::{dir6_vector, hex_dist};
use calx::intmath::{floor_div_i64, floor_mod_i64};
use calx::space::{CellSpace, CellVector, Space, Transformation};
use calx::{clamp, noise_bits};

#[test]
fn clamp_selects_the_bound() {
    assert_eq!(clamp(0, 10, -3), 0);
    assert_eq!(clamp(0, 10, 12), 10);
    assert_eq!(clamp(0, 10, 7), 7);
    assert_eq!(clamp('a', 'f', 'z'), 'f');
}

#[test]
fn floor_division_rounds_down() {
    assert_eq!(floor_div_i64(7, 2), 3);
    assert_eq!(floor_div_i64(-7, 2), -4);
    assert_eq!(floor_div_i64(-6, 2), -3);
    assert_eq!(floor_mod_i64(7, 3), 1);
    assert_eq!(floor_mod_i64(-7, 3), 2);
    assert_eq!(floor_mod_i64(-9, 3), 0);
}

#[test]
fn dir6_wraps_modulo_six() {
    let table = [(-1, -1), (0, -1), (1, 0), (1, 1), (0, 1), (-1, 0)];
    for i in 0..6i64 {
        let v = dir6_vector(i);
        assert_eq!((v.x, v.y), table[i as usize]);
        let w = dir6_vector(i + 6);
        assert_eq!((w.x, w.y), table[i as usize]);
        let u = dir6_vector(i - 6);
        assert_eq!((u.x, u.y), table[i as usize]);
    }
}

#[test]
fn hex_dist_examples() {
    assert_eq!(hex_dist(CellVector::new(0, 0)), 0);
    assert_eq!(hex_dist(CellVector::new(1, 0)), 1);
    assert_eq!(hex_dist(CellVector::new(1, -1)), 2);
    assert_eq!(hex_dist(CellVector::new(2, 2)), 2);
    assert_eq!(hex_dist(CellVector::new(-3, -1)), 3);
    assert_eq!(hex_dist(CellVector::new(-2, 3)), 5);
}

#[test]
fn test_noise() {
    for i in 0i32..100 {
        let m = noise_bits(i);
        assert!(m < 0x8000_0000);
        let noise = 1.0f32 - m as f32 / 1073741824.0;
        assert!((-1.0..=1.0).contains(&noise));
    }
}

#[test]
fn noise_is_deterministic() {
    for i in [-5i32, 0, 1, 42, 9999] {
        assert_eq!(noise_bits(i), noise_bits(i));
    }
}

#[test]
fn cell_space_projections_are_identity() {
    let v = CellVector::new(3, -4);
    assert_eq!(CellSpace::unproject(v), [3, -4]);
    assert_eq!(CellSpace::project([3, -4]), v);
    assert_eq!(v.to_cell_space(), v);
    assert_eq!(CellVector::from_cell_space(v), v);
}
