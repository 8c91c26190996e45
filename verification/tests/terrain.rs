use calx::kernel::{Kernel, KernelTerrain};
use calx::rng::RandomPermutation;
use calx::space::CellVector;

#[derive(Clone, Copy, PartialEq, Debug)]
enum Terrain {
    Floor,
    Wall,
    Block,
}

impl KernelTerrain for Terrain {
    // Ghost members of the trait; never called at run time.
    fn wall_spec(&self) -> bool {
        unreachable!()
    }

    fn block_spec(&self) -> bool {
        unreachable!()
    }

    fn is_wall(&self) -> bool {
        matches!(self, Terrain::Wall)
    }

    fn is_block(&self) -> bool {
        matches!(self, Terrain::Block)
    }
}

fn sample(loc: CellVector) -> Terrain {
    // A wall to the northwest and a block column to the north and south.
    if loc.x == -1 && loc.y == 0 {
        Terrain::Wall
    } else if loc.y == -1 || loc.y == 1 {
        Terrain::Block
    } else {
        Terrain::Floor
    }
}

#[test]
fn kernel_samples_the_neighborhood() {
    let k: Kernel<Terrain> = Kernel::new(sample, CellVector::new(0, 0));
    assert_eq!(k.center, Terrain::Floor);
    assert_eq!(k.nw, Terrain::Wall);
    assert_eq!(k.n, Terrain::Block);
    assert_eq!(k.ne, Terrain::Block);
    assert_eq!(k.e, Terrain::Block);
    assert_eq!(k.w, Terrain::Block);
    assert_eq!(k.sw, Terrain::Block);
    assert_eq!(k.s, Terrain::Block);
    assert_eq!(k.se, Terrain::Floor);
}

#[test]
fn wall_extends_looks_left_and_right() {
    let k: Kernel<Terrain> = Kernel::new(sample, CellVector::new(0, 0));
    assert_eq!(k.wall_extends(), [true, false]);
}

#[test]
fn block_faces_report_open_air() {
    let k: Kernel<Terrain> = Kernel::new(sample, CellVector::new(0, 0));
    // Back faces are hidden by any hull, front faces only by blocks.
    assert_eq!(k.block_faces(), [false, false, true, false, false, false]);
}

#[test]
fn is_hull_is_wall_or_block() {
    assert!(Terrain::Wall.is_hull());
    assert!(Terrain::Block.is_hull());
    assert!(!Terrain::Floor.is_hull());
}

#[test]
fn permutation_emits_each_element_once() {
    let mut perm = RandomPermutation::new(5);
    // Hand-picked "random" draws, each below the live count.
    let draws = [2usize, 0, 2, 1, 0];
    let mut seen = Vec::new();
    for d in draws {
        seen.push(perm.next(d).expect("live elements remain"));
    }
    assert_eq!(perm.next(0), None);
    seen.sort_unstable();
    assert_eq!(seen, vec![0, 1, 2, 3, 4]);
}

#[test]
fn permutation_of_nothing_is_empty() {
    let mut perm = RandomPermutation::new(0);
    assert_eq!(perm.next(0), None);
}

#[test]
fn permutation_swap_semantics() {
    // Drawing slot 0 from 0..3 emits 0 and moves the last live value in.
    let mut perm = RandomPermutation::new(3);
    assert_eq!(perm.next(0), Some(0));
    assert_eq!(perm.next(0), Some(2));
    assert_eq!(perm.next(0), Some(1));
    assert_eq!(perm.next(0), None);
}
