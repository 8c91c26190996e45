use calx::hex_fov::{FovValue, HexFov};
use calx::space::CellVector;
use std::collections::HashMap;

#[derive(PartialEq, Eq, Clone, Debug)]
struct Cell1 {
    range: i32,
}

impl FovValue for Cell1 {
    // Ghost members of the trait; never called at run time.
    fn advance_spec(&self, _offset: CellVector) -> Option<Self> {
        unreachable!()
    }

    fn wall_spec(&self, _offset: CellVector) -> bool {
        unreachable!()
    }

    fn advance(&self, offset: CellVector) -> Option<Self> {
        if calx::hex::hex_dist(offset) < self.range {
            Some(self.clone())
        } else {
            None
        }
    }

    fn is_fake_isometric_wall(&self, _offset: CellVector) -> bool {
        false
    }

    fn clone_value(&self) -> Self {
        self.clone()
    }

    fn eq_value(&self, other: &Self) -> bool {
        self == other
    }
}

#[derive(PartialEq, Eq, Clone, Debug)]
struct Cell2 {
    range: i32,
}

impl FovValue for Cell2 {
    // Ghost members of the trait; never called at run time.
    fn advance_spec(&self, _offset: CellVector) -> Option<Self> {
        unreachable!()
    }

    fn wall_spec(&self, _offset: CellVector) -> bool {
        unreachable!()
    }

    fn advance(&self, offset: CellVector) -> Option<Self> {
        if calx::hex::hex_dist(offset) < self.range {
            Some(self.clone())
        } else {
            None
        }
    }

    fn is_fake_isometric_wall(&self, _offset: CellVector) -> bool {
        true
    }

    fn clone_value(&self) -> Self {
        self.clone()
    }

    fn eq_value(&self, other: &Self) -> bool {
        self == other
    }
}

fn collect<T: FovValue>(mut fov: HexFov<T>) -> Vec<(CellVector, T)> {
    let mut out = Vec::new();
    while let Some(pair) = fov.next() {
        out.push(pair);
    }
    out
}

#[test]
fn trivial_fov() {
    // Just draw a small circle.
    let field: HashMap<CellVector, Cell1> =
        collect(HexFov::new(Cell1 { range: 2 })).into_iter().collect();
    assert!(field.contains_key(&CellVector::new(1, 0)));
    assert!(!field.contains_key(&CellVector::new(1, -1)));

    // Now test out the fake-isometric corners.
    let field: HashMap<CellVector, Cell2> =
        collect(HexFov::new(Cell2 { range: 2 })).into_iter().collect();
    assert!(field.contains_key(&CellVector::new(1, 0)));
    assert!(field.contains_key(&CellVector::new(1, -1)));
}

#[test]
fn origin_is_first_emission() {
    let mut fov = HexFov::new(Cell1 { range: 2 });
    let first = fov.next().expect("the origin must be emitted");
    assert_eq!(first.0, CellVector::new(0, 0));
    assert_eq!(first.1, Cell1 { range: 2 });
}

#[test]
fn fov_is_deterministic() {
    let mut a: Vec<(CellVector, Cell1)> = collect(HexFov::new(Cell1 { range: 4 }));
    let mut b: Vec<(CellVector, Cell1)> = collect(HexFov::new(Cell1 { range: 4 }));
    assert_eq!(a.len(), b.len());
    a.sort_by_key(|p| (p.0.x, p.0.y));
    b.sort_by_key(|p| (p.0.x, p.0.y));
    assert_eq!(a, b);
}

#[test]
fn opaque_cells_are_filtered() {
    // With range 2 every ring-two cell is opaque: none may be emitted.
    let pairs = collect(HexFov::new(Cell1 { range: 2 }));
    for (pos, _) in &pairs {
        assert!(calx::hex::hex_dist(*pos) < 2);
    }
    // Exactly the origin and the six ring-one neighbors are seen.
    let field: HashMap<CellVector, Cell1> = pairs.into_iter().collect();
    assert_eq!(field.len(), 7);
}

#[test]
fn corner_capability_only_adds_cells() {
    let plain: HashMap<CellVector, Cell1> =
        collect(HexFov::new(Cell1 { range: 3 })).into_iter().collect();
    let corners: HashMap<CellVector, Cell2> =
        collect(HexFov::new(Cell2 { range: 3 })).into_iter().collect();
    for pos in plain.keys() {
        assert!(corners.contains_key(pos), "corner capability removed {:?}", pos);
    }
    assert!(corners.len() >= plain.len());
}
