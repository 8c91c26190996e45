//! Field of view on a hexagonal map.
//!
//! The scan walks concentric hex rings with a LIFO stack of [`Arc`]s, each
//! a contiguous angular span of one ring sharing one propagated visibility
//! value, and yields one visible cell per pull through [`HexFov::next`].
//!
//! Angular positions are exact rationals, so the scan's interval
//! arithmetic is free of rounding drift at any radius the cell grid can
//! address.

use crate::hex::dir6_vec;
use crate::hex::dir6_vector;
use crate::intmath::floor_div_i128;
use crate::intmath::floor_mod_i64;
use crate::space::CellVector;
use vstd::arithmetic::div_mod::lemma_fundamental_div_mod;
use vstd::arithmetic::div_mod::lemma_fundamental_div_mod_converse;
use vstd::arithmetic::div_mod::lemma_div_is_ordered;
use vstd::prelude::*;

verus! {

/// Largest denominator a polar point may carry.
pub const DEN_CAP: i64 = 0x1_0000_0000_0000;

/// Largest numerator magnitude a polar point may carry.
pub const NUM_CAP: i64 = 0x1000_0000_0000_0000;

/// Angular-position magnitude admitted for points stored in live arcs.
pub const ARC_CAP: i64 = 0x4_0000_0000_0000;

/// Angular-position magnitude up to which the single-point operations are
/// exact; intermediate products stay well inside the machine words.
pub const OP_CAP: i64 = 0x100_0000_0000_0000;

/// Angular-position magnitude that leaves `side_point` headroom to step
/// once along the ring.
pub const SIDE_CAP: i64 = 0x80_0000_0000_0000;

/// Largest ring radius whose cell offsets fit the 32-bit offset vector.
pub const RADIUS_CAP: u32 = 0x3fff_ffff;

/// A point on a hex circle expressed in polar coordinates: an exact
/// rational angular position `pos` on a ring of discrete `radius`.
///
/// `pos` is stored as the ring fraction `num / den` scaled by the ring
/// radius (a zero radius scales by one): `pos == num * scale / den`.
/// Projecting a point outward to the next ring keeps the ring fraction,
/// so `further` moves no numbers at all and stays exact.
#[derive(Clone, Copy, PartialEq, Eq, Structural, Debug)]
pub struct PolarPoint {
    /// Numerator of the ring fraction.
    pub num: i64,
    /// Denominator of the ring fraction; always positive.
    pub den: i64,
    /// Ring radius; ring zero is the origin cell.
    pub radius: u32,
}

impl PolarPoint {
    /// The factor between the ring fraction and the angular position.
    pub open spec fn scale(self) -> int {
        if self.radius == 0 {
            1
        } else {
            self.radius as int
        }
    }

    /// The representation keeps its numbers inside the caps.
    pub open spec fn wf(self) -> bool {
        &&& 1 <= self.den <= DEN_CAP
        &&& -NUM_CAP <= self.num <= NUM_CAP
    }

    /// The angular position has magnitude at most `k`.
    pub open spec fn pos_bounded(self, k: int) -> bool {
        -k * self.den <= self.num * self.scale() <= k * self.den
    }

    /// Numerator of `pos + 1/2` over the denominator `2 * den`.
    pub open spec fn half_num(self) -> int {
        2 * self.num * self.scale() + self.den
    }

    /// Index of the discrete hex cell along the circle that corresponds
    /// to this point: `floor(pos + 1/2)`.
    pub open spec fn winding_of(self) -> int {
        self.half_num() / (2 * self.den)
    }

    /// Exclusive upper cell index of a span ending here:
    /// `ceil(pos + 1/2)`.
    pub open spec fn end_of(self) -> int {
        -((-self.half_num()) / (2 * self.den))
    }

    /// The cell offset this point projects to on the grid.
    pub open spec fn offset_of(self) -> CellVector {
        if self.radius == 0 {
            CellVector { x: 0i32, y: 0i32 }
        } else {
            let w = self.winding_of();
            let r = self.radius as int;
            let sector = (w % (6 * r)) / r;
            let off = w % r;
            let rod = dir6_vec(sector);
            let tan = dir6_vec(sector + 2);
            CellVector {
                x: (rod.x as int * r + tan.x as int * off) as i32,
                y: (rod.y as int * r + tan.y as int * off) as i32,
            }
        }
    }

    /// The point one discrete step further along the ring: snaps to the
    /// boundary between the current and the following cell.
    pub open spec fn next_of(self) -> PolarPoint {
        PolarPoint {
            num: (2 * self.winding_of() + 1) as i64,
            den: (2 * self.scale()) as i64,
            radius: self.radius,
        }
    }

    /// The corresponding point on the circle of the next larger radius:
    /// same ring fraction, radius one higher.
    pub open spec fn further_of(self) -> PolarPoint {
        PolarPoint { num: self.num, den: self.den, radius: (self.radius + 1) as u32 }
    }

    /// The quotient of a value bounded by `k` denominators stays within
    /// `k`.
    proof fn lemma_div_bound(x: int, d: int, k: int)
        requires
            d >= 1,
            k >= 0,
            -k * d <= x <= k * d,
        ensures
            -k <= x / d <= k,
    {
        assert(k * d == k * d + 0);
        lemma_fundamental_div_mod_converse(k * d, d, k, 0);
        assert(-k * d == (-k) * d + 0) by (nonlinear_arith);
        lemma_fundamental_div_mod_converse(-k * d, d, -k, 0);
        lemma_div_is_ordered(x, k * d, d);
        lemma_div_is_ordered(-k * d, x, d);
    }

    /// Ceiling division agrees with floor division exactly on multiples
    /// of the divisor and exceeds it by one everywhere else.
    proof fn lemma_ceil_floor(x: int, d: int)
        requires
            d >= 1,
        ensures
            x % d == 0 ==> -((-x) / d) == x / d,
            x % d != 0 ==> -((-x) / d) == x / d + 1,
    {
        lemma_fundamental_div_mod(x, d);
        vstd::arithmetic::div_mod::lemma_mod_bound(x, d);
        let q = x / d;
        let m = x % d;
        if m == 0 {
            assert(-x == (-q) * d + 0) by (nonlinear_arith)
                requires x == d * q + m && m == 0
            ;
            lemma_fundamental_div_mod_converse(-x, d, -q, 0);
        } else {
            assert(-x == (-q - 1) * d + (d - m)) by (nonlinear_arith)
                requires x == d * q + m
            ;
            lemma_fundamental_div_mod_converse(-x, d, -q - 1, d - m);
        }
    }

    /// A point whose angular position is bounded by `k` has its winding
    /// index and end index bounded by `k + 1`, and the two indices form a
    /// half-open pair: the end index is the winding index or one more.
    pub proof fn lemma_index_bounds(self, k: int)
        requires
            self.wf(),
            k >= 0,
            self.pos_bounded(k),
        ensures
            -(k + 1) <= self.winding_of() <= k + 1,
            self.winding_of() <= self.end_of() <= self.winding_of() + 1,
    {
        let d = self.den as int;
        let m = self.num * self.scale();
        let h = self.half_num();
        assert(h == 2 * m + d) by (nonlinear_arith)
            requires
                h == 2 * self.num * self.scale() + self.den && m == self.num * self.scale()
                    && d == self.den,
        ;
        assert((k + 1) * (2 * d) == 2 * (k * d) + 2 * d) by (nonlinear_arith);
        assert(-(k + 1) * (2 * d) == 2 * (-k * d) - 2 * d) by (nonlinear_arith);
        Self::lemma_div_bound(h, 2 * d, k + 1);
        Self::lemma_ceil_floor(h, 2 * d);
        vstd::arithmetic::div_mod::lemma_mod_bound(h, 2 * d);
    }

    /// Build the point with angular position `num / den` on the ring of
    /// the given radius.
    pub fn new(num: i64, den: i64, radius: u32) -> (p: PolarPoint)
        requires
            1 <= den,
            -NUM_CAP <= num <= NUM_CAP,
            den * (if radius == 0 { 1int } else { radius as int }) <= DEN_CAP,
        ensures
            p.num == num,
            p.radius == radius,
            p.den == den * p.scale(),
            p.wf(),
            // the stored angular position equals `num / den`, cross-multiplied
            p.num * p.scale() * den == num * p.den,
    {
        let s: i64 = if radius == 0 {
            1
        } else {
            radius as i64
        };
        let p = PolarPoint { num, den: den * s, radius };
        proof {
            let sg = p.scale();
            assert(sg == s);
            assert(num * sg * den == num * (den * sg)) by (nonlinear_arith);
            assert(den * sg >= 1) by (nonlinear_arith)
                requires den >= 1 && sg >= 1
            ;
        }
        p
    }

    /// Numerator of `pos + 1/2` over `2 * den`, as a machine word pair.
    #[verifier::spinoff_prover]
    fn half_parts(&self) -> (t: (i128, i128))
        requires
            self.wf(),
        ensures
            t.0 == self.half_num(),
            t.1 == 2 * self.den,
            -0x8_0000_0000_0000_0000_0000_0000i128 <= t.0 <= 0x8_0000_0000_0000_0000_0000_0000i128,
    {
        let s: i64 = if self.radius == 0 {
            1
        } else {
            self.radius as i64
        };
        proof {
            assert(
                -0x1_0000_0000_0000_0000_0000_0000i128 <= 2 * (self.num as int) * (s as int)
                    <= 0x1_0000_0000_0000_0000_0000_0000i128
            ) by (nonlinear_arith)
                requires -NUM_CAP <= self.num <= NUM_CAP && 1 <= s <= 0x1_0000_0000i64
            ;
        }
        let t: i128 = 2 * (self.num as i128) * (s as i128) + (self.den as i128);
        (t, 2 * (self.den as i128))
    }

    /// Index of the discrete hex cell along the circle that corresponds
    /// to this point.
    pub fn winding_index(&self) -> (w: i64)
        requires
            self.wf(),
            self.pos_bounded(OP_CAP as int),
        ensures
            w == self.winding_of(),
    {
        let (t, d2) = self.half_parts();
        let q = floor_div_i128(t, d2);
        proof {
            self.lemma_index_bounds(OP_CAP as int);
        }
        q as i64
    }

    /// Exclusive upper cell index of a span ending at this point.
    pub fn end_index(&self) -> (e: i64)
        requires
            self.wf(),
            self.pos_bounded(OP_CAP as int),
        ensures
            e == self.end_of(),
    {
        let (t, d2) = self.half_parts();
        let q = floor_div_i128(-t, d2);
        proof {
            self.lemma_index_bounds(OP_CAP as int);
            Self::lemma_ceil_floor(t as int, d2 as int);
        }
        -(q as i64)
    }

    /// Whether this point's cell lies strictly inside a half-open span
    /// that ends at `other`.
    pub fn is_below(self, other: PolarPoint) -> (r: bool)
        requires
            self.wf(),
            other.wf(),
            self.pos_bounded(OP_CAP as int),
            other.pos_bounded(OP_CAP as int),
        ensures
            r == (self.winding_of() < other.end_of()),
    {
        self.winding_index() < other.end_index()
    }

    /// The point one discrete step further along the ring.
    ///
    /// Each step advances the winding index by exactly one.
    pub fn next(self) -> (p: PolarPoint)
        requires
            self.wf(),
            self.pos_bounded(OP_CAP as int),
        ensures
            p == self.next_of(),
            p.wf(),
            p.scale() == self.scale(),
            p.winding_of() == self.winding_of() + 1,
            p.end_of() == self.winding_of() + 1,
            p.pos_bounded(OP_CAP as int + 2),
    {
        let w = self.winding_index();
        proof {
            self.lemma_index_bounds(OP_CAP as int);
        }
        let s: i64 = if self.radius == 0 {
            1
        } else {
            self.radius as i64
        };
        let p = PolarPoint { num: 2 * w + 1, den: 2 * s, radius: self.radius };
        proof {
            let wg = self.winding_of();
            assert(p.half_num() == (4 * wg + 4) * s && 2 * p.den == 4 * s && p.num * p.scale() == (
            2 * wg + 1) * s) by (nonlinear_arith)
                requires
                    p.num == 2 * wg + 1 && p.den == 2 * s && s == self.scale() && s == p.scale()
                        && p.half_num() == 2 * p.num * p.scale() + p.den
            ;
            assert((4 * wg + 4) * s == (wg + 1) * (4 * s) + 0) by (nonlinear_arith);
            lemma_fundamental_div_mod_converse((4 * wg + 4) * s, 4 * s, wg + 1, 0);
            Self::lemma_ceil_floor(p.half_num(), 2 * p.den);
            assert(-(OP_CAP as int + 2) * p.den <= p.num * p.scale() <= (OP_CAP as int + 2)
                * p.den) by (nonlinear_arith)
                requires
                    p.num * p.scale() == (2 * wg + 1) * s && p.den == 2 * s && s >= 1
                        && -(OP_CAP as int + 1) <= wg <= OP_CAP as int + 1
            ;
        }
        p
    }

    /// The acute-corner cell between this point's cell and the next one
    /// along the ring, when the step between them runs vertically on the
    /// grid; `None` on any other step.
    pub open spec fn side_point_of(self) -> Option<CellVector> {
        let a = self.offset_of();
        let b = self.next_of().offset_of();
        if b.x == a.x + 1 && b.y == a.y + 1 {
            Some(CellVector { x: (a.x + 1) as i32, y: a.y })
        } else if b.x == a.x - 1 && b.y == a.y - 1 {
            Some(CellVector { x: (a.x - 1) as i32, y: a.y })
        } else {
            None
        }
    }

    /// The cell offset this point projects to on the grid.
    pub fn to_v2(self) -> (v: CellVector)
        requires
            self.wf(),
            self.pos_bounded(OP_CAP as int),
            self.radius <= RADIUS_CAP,
        ensures
            v == self.offset_of(),
            // every angular position on ring zero projects to the origin
            self.radius == 0 ==> v == (CellVector { x: 0i32, y: 0i32 }),
            -2 * self.radius <= v.x as int <= 2 * self.radius,
            -2 * self.radius <= v.y as int <= 2 * self.radius,
    {
        if self.radius == 0 {
            return CellVector { x: 0, y: 0 };
        }
        let w = self.winding_index();
        let r: i64 = self.radius as i64;
        let m6 = floor_mod_i64(w, 6 * r);
        let sector = m6 / r;
        proof {
            assert(6 * r - 1 == 5 * r + (r - 1)) by (nonlinear_arith);
            lemma_fundamental_div_mod_converse(6 * r - 1, r as int, 5, r - 1);
            lemma_div_is_ordered(m6 as int, 6 * r - 1, r as int);
            vstd::arithmetic::div_mod::lemma_div_pos_is_pos(m6 as int, r as int);
        }
        let off = floor_mod_i64(w, r);
        let rod = dir6_vector(sector);
        let tan = dir6_vector(sector + 2);
        proof {
            assert(-1 <= rod.x as int <= 1 && -1 <= rod.y as int <= 1 && -1 <= tan.x as int <= 1
                && -1 <= tan.y as int <= 1);
            assert(-r <= (rod.x as int) * r <= r && -r <= (rod.y as int) * r <= r && -(r - 1) <= (
            tan.x as int) * off <= r - 1 && -(r - 1) <= (tan.y as int) * off <= r - 1)
                by (nonlinear_arith)
                requires
                    -1 <= rod.x as int <= 1 && -1 <= rod.y as int <= 1 && -1 <= tan.x as int <= 1
                        && -1 <= tan.y as int <= 1 && r >= 1 && 0 <= off <= r - 1,
            ;
        }
        let x = (rod.x as i64) * r + (tan.x as i64) * off;
        let y = (rod.y as i64) * r + (tan.y as i64) * off;
        CellVector { x: x as i32, y: y as i32 }
    }

    /// If this point and the next point are adjacent vertically (along
    /// the xy axis), return the point outside of the circle between the
    /// two points.
    ///
    /// This is a helper for the FOV special case where acute corners of
    /// fake isometric rooms are marked visible even though strict hex FOV
    /// logic would keep them unseen.
    pub fn side_point(self) -> (sp: Option<CellVector>)
        requires
            self.wf(),
            self.pos_bounded(SIDE_CAP as int),
            self.radius <= RADIUS_CAP,
        ensures
            sp == self.side_point_of(),
    {
        let next = self.next();
        proof {
            self.lemma_index_bounds(SIDE_CAP as int);
            let wg = self.winding_of();
            let s = self.scale();
            assert(-(OP_CAP as int) * next.den <= next.num * next.scale() <= (OP_CAP as int)
                * next.den) by (nonlinear_arith)
                requires
                    next.num == 2 * wg + 1 && next.den == 2 * s && next.scale() == s && s >= 1
                        && -(SIDE_CAP as int + 1) <= wg <= SIDE_CAP as int + 1,
            ;
        }
        let a = self.to_v2();
        let b = next.to_v2();
        if b.x == a.x + 1 && b.y == a.y + 1 {
            Some(CellVector { x: a.x + 1, y: a.y })
        } else if b.x == a.x - 1 && b.y == a.y - 1 {
            Some(CellVector { x: a.x - 1, y: a.y })
        } else {
            None
        }
    }

    /// The corresponding point on the hex circle with radius one larger.
    ///
    /// Keeps the ring fraction, so the angular position scales by
    /// `(radius + 1) / radius` exactly.
    pub fn further(self) -> (p: PolarPoint)
        requires
            self.wf(),
            1 <= self.radius < 0xffff_ffffu32,
        ensures
            p == self.further_of(),
            p.wf(),
            p.num == self.num,
            p.den == self.den,
            p.radius == self.radius + 1,
    {
        PolarPoint { num: self.num, den: self.den, radius: self.radius + 1 }
    }
}

/// User data for field of view cells, supplied by the caller.
///
/// The two spec functions name what the executable methods return, so
/// that the scan's behaviour can be stated exactly; an implementation
/// must compute exactly them.
pub trait FovValue: Sized {
    /// The value `advance` is required to return.
    spec fn advance_spec(&self, offset: CellVector) -> Option<Self>;

    /// The value `is_fake_isometric_wall` is required to return.
    spec fn wall_spec(&self, offset: CellVector) -> bool;

    /// Construct a new value for a position based on the previous one
    /// along the line of sight; `None` stops propagation there.
    fn advance(&self, offset: CellVector) -> (r: Option<Self>)
        ensures
            r == self.advance_spec(offset),
    ;

    /// Whether the given offset contains an isometric wall tile.
    ///
    /// Consulted only by the special case that shows acute corners of
    /// fake isometric rooms in the field of view.
    fn is_fake_isometric_wall(&self, offset: CellVector) -> (r: bool)
        ensures
            r == self.wall_spec(offset),
    ;

    /// An equal copy of the value; propagation retains prior-ring copies.
    fn clone_value(&self) -> (r: Self)
        ensures
            r == *self,
    ;

    /// Whether two values belong to the same visibility group.
    fn eq_value(&self, other: &Self) -> (r: bool)
        ensures
            r == (*self == *other),
    ;
}

/// An equal copy of an optional value.
fn opt_clone<T: FovValue>(v: &Option<T>) -> (r: Option<T>)
    ensures
        r == *v,
{
    match v {
        Some(x) => Some(x.clone_value()),
        None => None,
    }
}

/// Structural equality of two optional values.
fn opt_eq<T: FovValue>(a: &Option<T>, b: &Option<T>) -> (r: bool)
    ensures
        r == (*a == *b),
{
    match (a, b) {
        (Some(x), Some(y)) => x.eq_value(y),
        (None, None) => true,
        _ => false,
    }
}

/// A contiguous angular span on one hex ring sharing one propagated
/// visibility value.
pub struct Arc<T> {
    /// Start point of the current arc.
    pub begin: PolarPoint,
    /// Point currently being processed.
    pub pt: PolarPoint,
    /// End point of the current arc.
    pub end: PolarPoint,
    /// The user value from the previous ring.
    pub prev_value: T,
    /// The user value for this group; `None` denotes an opaque span.
    pub group_value: Option<T>,
}

/// A polar point fit to live in an arc on the scan stack.
pub open spec fn point_ok(p: PolarPoint) -> bool {
    &&& p.wf()
    &&& p.pos_bounded(ARC_CAP as int)
    &&& 1 <= p.radius <= RADIUS_CAP
}

/// An arc fit to live on the scan stack: three well-formed points on one
/// ring.
pub open spec fn arc_ok<T>(a: Arc<T>) -> bool {
    &&& point_ok(a.begin)
    &&& point_ok(a.pt)
    &&& point_ok(a.end)
    &&& a.begin.radius == a.pt.radius
    &&& a.end.radius == a.pt.radius
}

/// Every arc of a scan stack is fit to process.
pub open spec fn stack_ok<T>(st: Seq<Arc<T>>) -> bool {
    forall|i: int| 0 <= i < st.len() ==> arc_ok(#[trigger] st[i])
}

/// The arc that spans `[begin, end)` carrying `prev_value`, exactly as
/// `Arc::new` builds it.
pub open spec fn arc_model<T: FovValue>(begin: PolarPoint, end: PolarPoint, prev_value: T) -> Arc<
    T,
> {
    Arc {
        begin,
        pt: begin,
        end,
        prev_value,
        group_value: prev_value.advance_spec(begin.offset_of()),
    }
}

/// Push an arc only if it is fit to process; an arc whose numbers left
/// the exact-arithmetic range is dropped as a dead end.
pub open spec fn push_if_ok<T>(st: Seq<Arc<T>>, a: Arc<T>) -> Seq<Arc<T>> {
    if arc_ok(a) {
        st.push(a)
    } else {
        st
    }
}

/// Whether a point inside an arc keeps its angular position within `k`.
proof fn lemma_point_widen(p: PolarPoint, k1: int, k2: int)
    requires
        p.wf(),
        p.pos_bounded(k1),
        0 <= k1 <= k2,
    ensures
        p.pos_bounded(k2),
{
    assert(-k2 * p.den <= p.num * p.scale() <= k2 * p.den) by (nonlinear_arith)
        requires
            -k1 * p.den <= p.num * p.scale() <= k1 * p.den && 0 <= k1 <= k2 && p.den >= 1,
    ;
}

/// Stepping once along the ring keeps a stack point's angular position
/// within the single-operation range.
proof fn lemma_next_in_op_range(p: PolarPoint)
    requires
        p.wf(),
        p.pos_bounded(ARC_CAP as int),
    ensures
        p.pos_bounded(OP_CAP as int),
        p.pos_bounded(SIDE_CAP as int),
        p.next_of().pos_bounded(OP_CAP as int),
        p.next_of().wf(),
{
    lemma_point_widen(p, ARC_CAP as int, OP_CAP as int);
    lemma_point_widen(p, ARC_CAP as int, SIDE_CAP as int);
    p.lemma_index_bounds(ARC_CAP as int);
    let n = p.next_of();
    let wg = p.winding_of();
    let s = p.scale();
    assert(n.num == 2 * wg + 1 && n.den == 2 * s && n.scale() == s);
    assert(-(OP_CAP as int) * n.den <= n.num * n.scale() <= (OP_CAP as int) * n.den)
        by (nonlinear_arith)
        requires
            n.num == 2 * wg + 1 && n.den == 2 * s && n.scale() == s && s >= 1 && -(ARC_CAP as int
                + 1) <= wg <= ARC_CAP as int + 1,
    ;
}

/// Projecting a stack point one ring outward keeps its angular position
/// within the single-operation range.
proof fn lemma_further_in_op_range(p: PolarPoint)
    requires
        point_ok(p),
    ensures
        p.further_of().wf(),
        p.further_of().pos_bounded(OP_CAP as int),
{
    let f = p.further_of();
    assert(f.scale() <= 2 * p.scale());
    assert(-(OP_CAP as int) * f.den <= f.num * f.scale() <= (OP_CAP as int) * f.den)
        by (nonlinear_arith)
        requires
            f.num == p.num && f.den == p.den && p.den >= 1 && p.scale() >= 1 && 1 <= f.scale() <= 2
                * p.scale() && -(ARC_CAP as int) * p.den <= p.num * p.scale() <= (ARC_CAP as int)
                * p.den,
    ;
}

/// Whether a polar point is fit to live in an arc on the scan stack.
fn point_ok_exec(p: &PolarPoint) -> (r: bool)
    ensures
        r == point_ok(*p),
{
    if !(1 <= p.den && p.den <= DEN_CAP && -NUM_CAP <= p.num && p.num <= NUM_CAP) {
        return false;
    }
    if !(1 <= p.radius && p.radius <= RADIUS_CAP) {
        return false;
    }
    proof {
        assert(p.scale() == p.radius as int);
        assert(-0x100_0000_0000_0000_0000_0000_0000i128 <= (p.num as int) * (p.radius as int)
            <= 0x100_0000_0000_0000_0000_0000_0000i128 && (ARC_CAP as int) * (p.den as int)
            <= 0x100_0000_0000_0000_0000_0000_0000i128 && (ARC_CAP as int) * (p.den as int) >= 0)
            by (nonlinear_arith)
            requires
                -NUM_CAP <= p.num <= NUM_CAP && 1 <= p.radius as int <= RADIUS_CAP as int && 1
                    <= p.den <= DEN_CAP,
        ;
    }
    let prod: i128 = (p.num as i128) * (p.radius as i128);
    let bound: i128 = (ARC_CAP as i128) * (p.den as i128);
    -bound <= prod && prod <= bound
}

/// Whether an arc is fit to live on the scan stack.
fn arc_ok_exec<T>(a: &Arc<T>) -> (r: bool)
    ensures
        r == arc_ok(*a),
{
    point_ok_exec(&a.begin) && point_ok_exec(&a.pt) && point_ok_exec(&a.end) && a.begin.radius
        == a.pt.radius && a.end.radius == a.pt.radius
}

impl<T: FovValue> Arc<T> {
    /// Build the arc spanning `[begin, end)`, deriving its group value
    /// from `prev_value` at the start cell.
    pub fn new(begin: PolarPoint, end: PolarPoint, prev_value: T) -> (a: Arc<T>)
        requires
            begin.wf(),
            begin.pos_bounded(OP_CAP as int),
            begin.radius <= RADIUS_CAP,
        ensures
            a == arc_model(begin, end, prev_value),
    {
        let group_value = prev_value.advance(begin.to_v2());
        Arc { begin, pt: begin, end, prev_value, group_value }
    }
}

/// Graduate the span `[begin, end)` outward: push the corresponding arc
/// on the next ring, seeded with `g`, unless its numbers left the
/// exact-arithmetic range.
fn push_new_ring<T: FovValue>(stack: &mut Vec<Arc<T>>, begin: PolarPoint, end: PolarPoint, g: T)
    requires
        point_ok(begin),
        point_ok(end),
        begin.radius == end.radius,
        stack_ok(old(stack)@),
    ensures
        final(stack)@ == push_if_ok(old(stack)@, arc_model(begin.further_of(), end.further_of(), g)),
        stack_ok(final(stack)@),
{
    if begin.radius >= RADIUS_CAP {
        proof {
            assert(!arc_ok(arc_model(begin.further_of(), end.further_of(), g)));
        }
        return ;
    }
    let b2 = begin.further();
    let e2 = end.further();
    proof {
        lemma_further_in_op_range(begin);
        lemma_further_in_op_range(end);
    }
    let cand = Arc::new(b2, e2, g);
    if arc_ok_exec(&cand) {
        stack.push(cand);
        proof {
            assert(stack@ =~= push_if_ok(old(stack)@, arc_model(b2, e2, g)));
        }
    }
}

/// Whether the corner-visibility special case fires on the arc's current
/// cell: the scan is moving along a vertical rim, the current and next
/// cells are wallforms in the same value group, and the acute corner cell
/// between them is a wallform that strict hex visibility would occlude.
pub open spec fn corner_fires<T: FovValue>(a: Arc<T>) -> bool {
    let np = a.pt.next_of();
    let next_value = a.prev_value.advance_spec(np.offset_of());
    &&& a.pt.side_point_of() matches Some(sp)
    &&& np.winding_of() < a.end.end_of()
    &&& a.prev_value.wall_spec(a.pt.offset_of())
    &&& next_value == a.prev_value.advance_spec(a.pt.offset_of())
    &&& next_value matches Some(nv)
    &&& nv.wall_spec(np.offset_of())
    &&& nv.advance_spec(sp) is None
    &&& nv.wall_spec(sp)
}

/// The acute corner cell the special case emits.
pub open spec fn corner_point<T>(a: Arc<T>) -> CellVector {
    a.pt.side_point_of()->0
}

/// The side channel after the corner-visibility check on `a`.
pub open spec fn corner_push<T: FovValue>(side: Seq<(CellVector, T)>, a: Arc<T>) -> Seq<
    (CellVector, T),
> {
    if corner_fires(a) {
        side.push((corner_point(a), a.prev_value))
    } else {
        side
    }
}

/// The stack after splitting arc `a` on a value-group change to
/// `next_value`: a continuation arc resumes the scan under the new group,
/// and a finished non-opaque group graduates outward first.
pub open spec fn split_result<T: FovValue>(
    st: Seq<Arc<T>>,
    a: Arc<T>,
    next_value: Option<T>,
) -> Seq<Arc<T>> {
    let st1 = st.push(
        Arc {
            begin: a.pt,
            pt: a.pt,
            end: a.end,
            prev_value: a.prev_value,
            group_value: next_value,
        },
    );
    match a.group_value {
        Some(g) => push_if_ok(st1, arc_model(a.begin.further_of(), a.pt.further_of(), g)),
        None => st1,
    }
}

/// The stack after advancing arc `a` one step: the arc is pushed back
/// while its point stays inside the span; a finished non-opaque arc
/// graduates outward whole; a finished opaque arc is dropped.
pub open spec fn advance_result<T: FovValue>(st: Seq<Arc<T>>, a: Arc<T>) -> Seq<Arc<T>> {
    let p2 = a.pt.next_of();
    if p2.winding_of() < a.end.end_of() {
        push_if_ok(
            st,
            Arc { begin: a.begin, pt: p2, end: a.end, prev_value: a.prev_value, group_value: a.group_value },
        )
    } else {
        match a.group_value {
            Some(g) => push_if_ok(st, arc_model(a.begin.further_of(), a.end.further_of(), g)),
            None => st,
        }
    }
}

impl<T: FovValue> Arc<T> {
    /// Consume the arc and add its descendant, if any, to the stack.
    pub fn advance(self, stack: &mut Vec<Arc<T>>)
        requires
            arc_ok(self),
            stack_ok(old(stack)@),
        ensures
            final(stack)@ == advance_result(old(stack)@, self),
            stack_ok(final(stack)@),
    {
        proof {
            lemma_next_in_op_range(self.pt);
            lemma_point_widen(self.end, ARC_CAP as int, OP_CAP as int);
        }
        let p2 = self.pt.next();
        if p2.is_below(self.end) {
            let a2 = Arc {
                begin: self.begin,
                pt: p2,
                end: self.end,
                prev_value: self.prev_value,
                group_value: self.group_value,
            };
            if point_ok_exec(&a2.pt) {
                stack.push(a2);
            }
        } else if let Some(group_value) = self.group_value {
            push_new_ring(stack, self.begin, self.end, group_value);
        }
    }

    /// If the arc has advanced into a different value group, split it
    /// into the given stack.
    ///
    /// Returns whether the arc was split; a split never itself emits a
    /// cell.
    pub fn arc_has_split(&self, stack: &mut Vec<Arc<T>>) -> (r: bool)
        requires
            arc_ok(*self),
            stack_ok(old(stack)@),
        ensures
            r == (self.prev_value.advance_spec(self.pt.offset_of()) != self.group_value),
            r ==> final(stack)@ == split_result(
                old(stack)@,
                *self,
                self.prev_value.advance_spec(self.pt.offset_of()),
            ),
            !r ==> final(stack)@ == old(stack)@,
            stack_ok(final(stack)@),
    {
        proof {
            lemma_next_in_op_range(self.pt);
        }
        let next_value = self.prev_value.advance(self.pt.to_v2());
        if !opt_eq(&next_value, &self.group_value) {
            stack.push(
                Arc {
                    begin: self.pt,
                    pt: self.pt,
                    end: self.end,
                    prev_value: self.prev_value.clone_value(),
                    group_value: next_value,
                },
            );
            if let Some(group_value) = &self.group_value {
                push_new_ring(stack, self.begin, self.pt, group_value.clone_value());
            }
            true
        } else {
            false
        }
    }
}

/// Stepping once along the ring advances the winding index by one; a
/// spec-level restatement of what `PolarPoint::next` ensures.
proof fn lemma_next_of_winding(p: PolarPoint)
    requires
        p.wf(),
        p.pos_bounded(OP_CAP as int),
    ensures
        p.next_of().winding_of() == p.winding_of() + 1,
        p.next_of().end_of() == p.winding_of() + 1,
        p.next_of().wf(),
{
    p.lemma_index_bounds(OP_CAP as int);
    let n = p.next_of();
    let wg = p.winding_of();
    let s = p.scale();
    assert(n.half_num() == (4 * wg + 4) * s && 2 * n.den == 4 * s && n.num * n.scale() == (2 * wg
        + 1) * s) by (nonlinear_arith)
        requires
            n.num == 2 * wg + 1 && n.den == 2 * s && s == p.scale() && s == n.scale()
                && n.half_num() == 2 * n.num * n.scale() + n.den,
    ;
    assert((4 * wg + 4) * s == (wg + 1) * (4 * s) + 0) by (nonlinear_arith);
    lemma_fundamental_div_mod_converse((4 * wg + 4) * s, 4 * s, wg + 1, 0);
    PolarPoint::lemma_ceil_floor(n.half_num(), 2 * n.den);
}

/// Scan-loop measure of one arc: bounds the silent steps the loop can
/// take on the arc and on everything the arc spawns before it answers.
pub open spec fn arc_measure<T: FovValue>(a: Arc<T>) -> int {
    let rem = vstd::math::max(a.end.end_of() - a.pt.winding_of(), 0);
    if a.prev_value.advance_spec(a.pt.offset_of()) == a.group_value {
        2 * rem + 1
    } else {
        match a.group_value {
            Some(g) => {
                let ext_rem = vstd::math::max(
                    a.pt.further_of().end_of() - a.begin.further_of().winding_of(),
                    0,
                );
                2 * rem + 2 * ext_rem + 3
            },
            None => 2 * rem + 2,
        }
    }
}

/// Scan-loop measure of a whole stack.
pub open spec fn stack_measure<T: FovValue>(st: Seq<Arc<T>>) -> int
    decreases st.len(),
{
    if st.len() == 0 {
        0
    } else {
        stack_measure(st.drop_last()) + arc_measure(st.last())
    }
}

proof fn lemma_stack_measure_nonneg<T: FovValue>(st: Seq<Arc<T>>)
    ensures
        stack_measure(st) >= 0,
    decreases st.len(),
{
    if st.len() > 0 {
        lemma_stack_measure_nonneg(st.drop_last());
    }
}

proof fn lemma_stack_measure_push<T: FovValue>(st: Seq<Arc<T>>, a: Arc<T>)
    ensures
        stack_measure(st.push(a)) == stack_measure(st) + arc_measure(a),
{
    assert(st.push(a).last() == a);
    assert(st.push(a).drop_last() =~= st);
}

/// A split strictly shrinks the measure: both spawned arcs are fresh,
/// and the stale arc's measure paid for them in advance.
proof fn lemma_split_measure<T: FovValue>(st: Seq<Arc<T>>, a: Arc<T>, nv: Option<T>)
    requires
        nv == a.prev_value.advance_spec(a.pt.offset_of()),
        nv != a.group_value,
    ensures
        stack_measure(split_result(st, a, nv)) < stack_measure(st) + arc_measure(a),
{
    let cont = Arc {
        begin: a.pt,
        pt: a.pt,
        end: a.end,
        prev_value: a.prev_value,
        group_value: nv,
    };
    let st1 = st.push(cont);
    lemma_stack_measure_push(st, cont);
    match a.group_value {
        Some(g) => {
            let ext = arc_model(a.begin.further_of(), a.pt.further_of(), g);
            if arc_ok(ext) {
                lemma_stack_measure_push(st1, ext);
            }
        },
        None => {},
    }
}

/// Advancing a fresh opaque arc strictly shrinks the measure: the arc
/// either walks one cell, or dies.
proof fn lemma_advance_measure_opaque<T: FovValue>(st: Seq<Arc<T>>, a: Arc<T>)
    requires
        arc_ok(a),
        a.group_value is None,
        a.prev_value.advance_spec(a.pt.offset_of()) == a.group_value,
    ensures
        stack_measure(advance_result(st, a)) < stack_measure(st) + arc_measure(a),
{
    lemma_next_in_op_range(a.pt);
    lemma_next_of_winding(a.pt);
    let p2 = a.pt.next_of();
    if p2.winding_of() < a.end.end_of() {
        let a2 = Arc {
            begin: a.begin,
            pt: p2,
            end: a.end,
            prev_value: a.prev_value,
            group_value: a.group_value,
        };
        if arc_ok(a2) {
            lemma_stack_measure_push(st, a2);
        }
    }
}

/// The outcome of one step of the scan loop.
pub enum FovStep<T> {
    /// The step reorganized pending work and emitted nothing.
    Continue(Seq<Arc<T>>, Seq<(CellVector, T)>),
    /// The step emitted one visible cell.
    Emit(Seq<Arc<T>>, Seq<(CellVector, T)>, CellVector, T),
    /// The scan is complete.
    Done,
}

/// One step of the scan loop on the iterator state: drain the side
/// channel first, then pop the top arc, split it or scan its current
/// cell.
pub open spec fn fov_step<T: FovValue>(stack: Seq<Arc<T>>, side: Seq<(CellVector, T)>) -> FovStep<
    T,
> {
    if side.len() > 0 {
        FovStep::Emit(stack, side.drop_last(), side.last().0, side.last().1)
    } else if stack.len() == 0 {
        FovStep::Done
    } else {
        let a = stack.last();
        let st = stack.drop_last();
        let next_value = a.prev_value.advance_spec(a.pt.offset_of());
        if next_value != a.group_value {
            FovStep::Continue(split_result(st, a, next_value), side)
        } else {
            let side1 = corner_push(side, a);
            let st1 = advance_result(st, a);
            match a.group_value {
                Some(v) => FovStep::Emit(st1, side1, a.pt.offset_of(), v),
                None => FovStep::Continue(st1, side1),
            }
        }
    }
}

/// The scan loop makes `n` silent steps from the first state to the
/// second.
pub open spec fn reaches<T: FovValue>(
    stack: Seq<Arc<T>>,
    side: Seq<(CellVector, T)>,
    n: nat,
    stack2: Seq<Arc<T>>,
    side2: Seq<(CellVector, T)>,
) -> bool
    decreases n,
{
    if n == 0 {
        stack2 == stack && side2 == side
    } else {
        match fov_step(stack, side) {
            FovStep::Continue(st, sd) => reaches(st, sd, (n - 1) as nat, stack2, side2),
            _ => false,
        }
    }
}

/// The scan loop makes `n` silent steps from the first state and then
/// answers `r`: it emits a cell, or reports the scan complete, leaving
/// the second state.
pub open spec fn runs_to<T: FovValue>(
    stack: Seq<Arc<T>>,
    side: Seq<(CellVector, T)>,
    n: nat,
    stack2: Seq<Arc<T>>,
    side2: Seq<(CellVector, T)>,
    r: Option<(CellVector, T)>,
) -> bool
    decreases n,
{
    if n == 0 {
        match fov_step(stack, side) {
            FovStep::Emit(st, sd, o, v) => stack2 == st && side2 == sd && r == Some((o, v)),
            FovStep::Done => stack2 == stack && side2 == side && r is None,
            FovStep::Continue(st, sd) => false,
        }
    } else {
        match fov_step(stack, side) {
            FovStep::Continue(st, sd) => runs_to(st, sd, (n - 1) as nat, stack2, side2, r),
            _ => false,
        }
    }
}

/// Extending a silent run by one more silent step.
proof fn lemma_reaches_step<T: FovValue>(
    s0: Seq<Arc<T>>,
    d0: Seq<(CellVector, T)>,
    n: nat,
    s1: Seq<Arc<T>>,
    d1: Seq<(CellVector, T)>,
    s2: Seq<Arc<T>>,
    d2: Seq<(CellVector, T)>,
)
    requires
        reaches(s0, d0, n, s1, d1),
        fov_step(s1, d1) == FovStep::<T>::Continue(s2, d2),
    ensures
        reaches(s0, d0, (n + 1) as nat, s2, d2),
    decreases n,
{
    if n == 0 {
        assert(reaches(s2, d2, 0nat, s2, d2));
        assert(reaches(s0, d0, 1nat, s2, d2));
    } else {
        let st = fov_step(s0, d0)->Continue_0;
        let sd = fov_step(s0, d0)->Continue_1;
        lemma_reaches_step(st, sd, (n - 1) as nat, s1, d1, s2, d2);
        assert(reaches(s0, d0, (n + 1) as nat, s2, d2));
    }
}

/// A silent run followed by an answering step is an answering run.
proof fn lemma_reaches_answer<T: FovValue>(
    s0: Seq<Arc<T>>,
    d0: Seq<(CellVector, T)>,
    n: nat,
    s1: Seq<Arc<T>>,
    d1: Seq<(CellVector, T)>,
    s2: Seq<Arc<T>>,
    d2: Seq<(CellVector, T)>,
    r: Option<(CellVector, T)>,
)
    requires
        reaches(s0, d0, n, s1, d1),
        runs_to(s1, d1, 0, s2, d2, r),
    ensures
        runs_to(s0, d0, n, s2, d2, r),
    decreases n,
{
    if n > 0 {
        let st = fov_step(s0, d0)->Continue_0;
        let sd = fov_step(s0, d0)->Continue_1;
        lemma_reaches_answer(st, sd, (n - 1) as nat, s1, d1, s2, d2, r);
    }
}

/// Field of view iterator for a hexagonal map.
///
/// Pulls one visible cell at a time: side-channel entries first, then the
/// top arc of the LIFO work stack is split, scanned and advanced. The
/// sequence is potentially infinite; it ends only when every live arc's
/// propagation has stopped.
pub struct HexFov<T> {
    /// Pending arcs, expanded depth first.
    pub stack: Vec<Arc<T>>,
    /// Extra values generated by special cases, drained before any stack
    /// work.
    pub side_channel: Vec<(CellVector, T)>,
}

impl<T: FovValue> HexFov<T> {
    /// Every pending arc is fit to process.
    pub open spec fn inv(self) -> bool {
        stack_ok(self.stack@)
    }

    /// The seed arc's start point: angular position zero on ring one.
    pub open spec fn seed_begin() -> PolarPoint {
        PolarPoint { num: 0i64, den: 1i64, radius: 1u32 }
    }

    /// The seed arc's end point: angular position six on ring one.
    pub open spec fn seed_end() -> PolarPoint {
        PolarPoint { num: 6i64, den: 1i64, radius: 1u32 }
    }

    /// Create a new field of view iterator with a seed userdata for the
    /// origin position.
    ///
    /// The stack is seeded with one arc spanning the full first ring; the
    /// scan never generates the origin cell itself, so the side channel
    /// is pre-loaded with it, making the origin the first emission.
    pub fn new(init: T) -> (fov: HexFov<T>)
        ensures
            fov.inv(),
            fov.stack@ == seq![arc_model(Self::seed_begin(), Self::seed_end(), init)],
            fov.side_channel@ == seq![(CellVector { x: 0i32, y: 0i32 }, init)],
    {
        let begin = PolarPoint::new(0, 1, 1);
        let end = PolarPoint::new(6, 1, 1);
        let seed = Arc::new(begin, end, init.clone_value());
        let mut stack: Vec<Arc<T>> = Vec::new();
        stack.push(seed);
        let mut side_channel: Vec<(CellVector, T)> = Vec::new();
        side_channel.push((CellVector::new(0, 0), init));
        let fov = HexFov { stack, side_channel };
        proof {
            assert(fov.stack@ =~= seq![arc_model(Self::seed_begin(), Self::seed_end(), init)]);
            assert(fov.side_channel@ =~= seq![(CellVector { x: 0i32, y: 0i32 }, init)]);
            assert(arc_ok(fov.stack@[0]));
        }
        fov
    }

    /// Add visible horizontal corners of fake-isometric rooms to the
    /// side channel; the work stack is left untouched.
    fn make_corners_visible(&mut self, current: &Arc<T>)
        requires
            arc_ok(*current),
        ensures
            final(self).stack == old(self).stack,
            final(self).side_channel@ == corner_push(old(self).side_channel@, *current),
    {
        proof {
            lemma_next_in_op_range(current.pt);
            lemma_point_widen(current.end, ARC_CAP as int, OP_CAP as int);
        }
        if let Some(side_pos) = current.pt.side_point() {
            let next = current.pt.next();
            let next_value = current.prev_value.advance(next.to_v2());
            if next.is_below(current.end) && current.prev_value.is_fake_isometric_wall(
                current.pt.to_v2(),
            ) && opt_eq(&next_value, &current.prev_value.advance(current.pt.to_v2())) {
                if let Some(next_value) = next_value {
                    if next_value.is_fake_isometric_wall(next.to_v2()) && next_value.advance(
                        side_pos,
                    ).is_none() && next_value.is_fake_isometric_wall(side_pos) {
                        self.side_channel.push((side_pos, current.prev_value.clone_value()));
                    }
                }
            }
        }
    }

    /// Pull the next visible cell: its offset from the origin and the
    /// value propagated to it.
    ///
    /// The result and the new iterator state are exactly what the scan
    /// model reaches from the old state: the first answering step of
    /// `fov_step`.
    #[verifier::rlimit(60)]
    pub fn next(&mut self) -> (r: Option<(CellVector, T)>)
        requires
            old(self).inv(),
        ensures
            final(self).inv(),
            exists|n: nat|
                runs_to(
                    old(self).stack@,
                    old(self).side_channel@,
                    n,
                    final(self).stack@,
                    final(self).side_channel@,
                    r,
                ),
    {
        let ghost s0 = self.stack@;
        let ghost d0 = self.side_channel@;
        let ghost mut steps: nat = 0nat;
        loop
            invariant
                self.inv(),
                s0 == old(self).stack@,
                d0 == old(self).side_channel@,
                reaches(s0, d0, steps, self.stack@, self.side_channel@),
            decreases stack_measure(self.stack@),
        {
            let ghost s1 = self.stack@;
            let ghost d1 = self.side_channel@;
            if let Some(ret) = self.side_channel.pop() {
                proof {
                    assert(self.side_channel@ =~= d1.drop_last());
                    assert(ret == d1.last());
                    assert(ret == (d1.last().0, d1.last().1));
                    assert(fov_step(s1, d1) == FovStep::Emit(
                        s1,
                        d1.drop_last(),
                        d1.last().0,
                        d1.last().1,
                    ));
                    assert(runs_to(s1, d1, 0nat, self.stack@, self.side_channel@, Some(ret)));
                    lemma_reaches_answer(
                        s0,
                        d0,
                        steps,
                        s1,
                        d1,
                        self.stack@,
                        self.side_channel@,
                        Some(ret),
                    );
                }
                return Some(ret);
            }
            let popped = self.stack.pop();
            if let Some(current) = popped {
                proof {
                    assert(current == s1.last());
                    assert(self.stack@ =~= s1.drop_last());
                    assert(arc_ok(s1[s1.len() - 1]));
                }
                if current.arc_has_split(&mut self.stack) {
                    proof {
                        assert(stack_measure(s1) == stack_measure(s1.drop_last()) + arc_measure(
                            current,
                        ));
                        lemma_split_measure(
                            s1.drop_last(),
                            current,
                            current.prev_value.advance_spec(current.pt.offset_of()),
                        );
                        lemma_reaches_step(
                            s0,
                            d0,
                            steps,
                            s1,
                            d1,
                            self.stack@,
                            self.side_channel@,
                        );
                        steps = steps + 1;
                        lemma_stack_measure_nonneg(self.stack@);
                        assert(stack_measure(self.stack@) < stack_measure(s1));
                    }
                } else {
                    self.make_corners_visible(&current);
                    proof {
                        lemma_next_in_op_range(current.pt);
                    }
                    let pos = current.pt.to_v2();
                    let ret = opt_clone(&current.group_value);
                    current.advance(&mut self.stack);
                    if let Some(ret) = ret {
                        proof {
                            assert(current.group_value == Some(ret));
                            assert(self.side_channel@ == corner_push(d1, current));
                            assert(self.stack@ == advance_result(s1.drop_last(), current));
                            assert(fov_step(s1, d1) == FovStep::Emit(
                                advance_result(s1.drop_last(), current),
                                corner_push(d1, current),
                                current.pt.offset_of(),
                                ret,
                            ));
                            assert(runs_to(
                                s1,
                                d1,
                                0nat,
                                self.stack@,
                                self.side_channel@,
                                Some((pos, ret)),
                            ));
                            lemma_reaches_answer(
                                s0,
                                d0,
                                steps,
                                s1,
                                d1,
                                self.stack@,
                                self.side_channel@,
                                Some((pos, ret)),
                            );
                        }
                        return Some((pos, ret));
                    } else {
                        proof {
                            assert(stack_measure(s1) == stack_measure(s1.drop_last())
                                + arc_measure(current));
                            lemma_advance_measure_opaque(s1.drop_last(), current);
                            lemma_reaches_step(
                                s0,
                                d0,
                                steps,
                                s1,
                                d1,
                                self.stack@,
                                self.side_channel@,
                            );
                            steps = steps + 1;
                            lemma_stack_measure_nonneg(self.stack@);
                            assert(stack_measure(self.stack@) < stack_measure(s1));
                        }
                    }
                }
            } else {
                proof {
                    lemma_reaches_answer(
                        s0,
                        d0,
                        steps,
                        s1,
                        d1,
                        self.stack@,
                        self.side_channel@,
                        None,
                    );
                }
                return None;
            }
        }
    }
}

/// Determinism: from one state the scan answers in exactly one way.
/// Two runs that both reach an answer take the same number of silent
/// steps, leave the same state and emit the same thing — so two
/// iterators seeded identically yield the same sequence of pairs.
pub proof fn lemma_fov_deterministic<T: FovValue>(
    stack: Seq<Arc<T>>,
    side: Seq<(CellVector, T)>,
    n1: nat,
    st1: Seq<Arc<T>>,
    sd1: Seq<(CellVector, T)>,
    r1: Option<(CellVector, T)>,
    n2: nat,
    st2: Seq<Arc<T>>,
    sd2: Seq<(CellVector, T)>,
    r2: Option<(CellVector, T)>,
)
    requires
        runs_to(stack, side, n1, st1, sd1, r1),
        runs_to(stack, side, n2, st2, sd2, r2),
    ensures
        n1 == n2,
        st1 == st2,
        sd1 == sd2,
        r1 == r2,
    decreases n1,
{
    if n1 == 0 {
        assert(n2 == 0);
    } else {
        assert(n2 > 0);
        let st = fov_step(stack, side)->Continue_0;
        let sd = fov_step(stack, side)->Continue_1;
        lemma_fov_deterministic(st, sd, (n1 - 1) as nat, st1, sd1, r1, (n2 - 1) as nat, st2, sd2, r2);
    }
}

/// Opacity filters a cell entirely: a scan step that lands on an arc
/// whose group value is `None` reorganizes pending work but never emits
/// that cell, so no emitted pair ever carries an opaque value.
pub proof fn lemma_opaque_never_emitted<T: FovValue>(stack: Seq<Arc<T>>, side: Seq<(CellVector, T)>)
    requires
        side.len() == 0,
        stack.len() > 0,
        stack.last().group_value is None,
    ensures
        !(fov_step(stack, side) is Emit),
{
}

/// The origin offset `(0, 0)` with the unchanged initial value is always
/// the first emission: on the state `HexFov::new` builds, the very first
/// pull answers immediately with it.
pub proof fn lemma_origin_first<T: FovValue>(fov: HexFov<T>, init: T)
    requires
        fov.stack@ == seq![
            arc_model(HexFov::<T>::seed_begin(), HexFov::<T>::seed_end(), init),
        ],
        fov.side_channel@ == seq![(CellVector { x: 0i32, y: 0i32 }, init)],
    ensures
        runs_to(
            fov.stack@,
            fov.side_channel@,
            0nat,
            fov.stack@,
            fov.side_channel@.drop_last(),
            Some((CellVector { x: 0i32, y: 0i32 }, init)),
        ),
{
}

/// One step of the scan loop with the corner-visibility capability
/// disabled: identical to `fov_step` except that the corner check never
/// queues its extra cell.
pub open spec fn fov_step_plain<T: FovValue>(
    stack: Seq<Arc<T>>,
    side: Seq<(CellVector, T)>,
) -> FovStep<T> {
    if side.len() > 0 {
        FovStep::Emit(stack, side.drop_last(), side.last().0, side.last().1)
    } else if stack.len() == 0 {
        FovStep::Done
    } else {
        let a = stack.last();
        let st = stack.drop_last();
        let next_value = a.prev_value.advance_spec(a.pt.offset_of());
        if next_value != a.group_value {
            FovStep::Continue(split_result(st, a, next_value), side)
        } else {
            let st1 = advance_result(st, a);
            match a.group_value {
                Some(v) => FovStep::Emit(st1, side, a.pt.offset_of(), v),
                None => FovStep::Continue(st1, side),
            }
        }
    }
}

/// A pending side-channel cell is emitted before any further scan
/// progress: the step answers with it at once and touches nothing else.
pub proof fn lemma_pending_emitted_first<T: FovValue>(
    stack: Seq<Arc<T>>,
    side: Seq<(CellVector, T)>,
)
    requires
        side.len() > 0,
    ensures
        fov_step(stack, side) == FovStep::Emit(
            stack,
            side.drop_last(),
            side.last().0,
            side.last().1,
        ),
{
}

/// The corner-visibility capability strictly adds cells and removes
/// none: on every state, a scan step with the capability emits the same
/// cell (or stays silent in the same way) and leaves the same work stack
/// as the capability-free scan; the only difference is at most one extra
/// pending corner cell appended to the side channel.
pub proof fn lemma_corner_monotonic_step<T: FovValue>(
    stack: Seq<Arc<T>>,
    side: Seq<(CellVector, T)>,
)
    ensures
        match (fov_step(stack, side), fov_step_plain(stack, side)) {
            (FovStep::Continue(st1, sd1), FovStep::Continue(st2, sd2)) => st1 == st2 && (sd1 == sd2
                || sd1 == sd2.push((corner_point(stack.last()), stack.last().prev_value))),
            (FovStep::Emit(st1, sd1, o1, v1), FovStep::Emit(st2, sd2, o2, v2)) => st1 == st2 && o1
                == o2 && v1 == v2 && (sd1 == sd2 || sd1 == sd2.push(
                (corner_point(stack.last()), stack.last().prev_value),
            )),
            (FovStep::Done, FovStep::Done) => true,
            _ => false,
        },
{
}

/// Like `runs_to`, for the capability-free scan.
pub open spec fn plain_runs_to<T: FovValue>(
    stack: Seq<Arc<T>>,
    side: Seq<(CellVector, T)>,
    n: nat,
    stack2: Seq<Arc<T>>,
    side2: Seq<(CellVector, T)>,
    r: Option<(CellVector, T)>,
) -> bool
    decreases n,
{
    if n == 0 {
        match fov_step_plain(stack, side) {
            FovStep::Emit(st, sd, o, v) => stack2 == st && side2 == sd && r == Some((o, v)),
            FovStep::Done => stack2 == stack && side2 == side && r is None,
            FovStep::Continue(st, sd) => false,
        }
    } else {
        match fov_step_plain(stack, side) {
            FovStep::Continue(st, sd) => plain_runs_to(st, sd, (n - 1) as nat, stack2, side2, r),
            _ => false,
        }
    }
}

/// The scan emits the cell `(o, v)` within `fuel` pulls from this state.
pub open spec fn emits_within<T: FovValue>(
    stack: Seq<Arc<T>>,
    side: Seq<(CellVector, T)>,
    o: CellVector,
    v: T,
    fuel: nat,
) -> bool
    decreases fuel,
{
    fuel > 0 && exists|n: nat, st2: Seq<Arc<T>>, sd2: Seq<(CellVector, T)>, e: (CellVector, T)|
        {
            &&& #[trigger] runs_to(stack, side, n, st2, sd2, Some(e))
            &&& (e == (o, v) || emits_within(st2, sd2, o, v, (fuel - 1) as nat))
        }
}

/// More fuel never loses an emission.
proof fn lemma_emits_fuel_mono<T: FovValue>(
    stack: Seq<Arc<T>>,
    side: Seq<(CellVector, T)>,
    o: CellVector,
    v: T,
    f1: nat,
    f2: nat,
)
    requires
        emits_within(stack, side, o, v, f1),
        f1 <= f2,
    ensures
        emits_within(stack, side, o, v, f2),
    decreases f1,
{
    let (n, st2, sd2, e): (nat, Seq<Arc<T>>, Seq<(CellVector, T)>, (CellVector, T)) = choose|
        n: nat,
        st2: Seq<Arc<T>>,
        sd2: Seq<(CellVector, T)>,
        e: (CellVector, T),
    |
        {
            &&& #[trigger] runs_to(stack, side, n, st2, sd2, Some(e))
            &&& (e == (o, v) || emits_within(st2, sd2, o, v, (f1 - 1) as nat))
        };
    if e != (o, v) {
        lemma_emits_fuel_mono(st2, sd2, o, v, (f1 - 1) as nat, (f2 - 1) as nat);
    }
}

/// A silent step before an emission leaves the emission in reach.
proof fn lemma_emits_prepend<T: FovValue>(
    stack: Seq<Arc<T>>,
    side: Seq<(CellVector, T)>,
    st1: Seq<Arc<T>>,
    sd1: Seq<(CellVector, T)>,
    o: CellVector,
    v: T,
    fuel: nat,
)
    requires
        fov_step(stack, side) == FovStep::Continue(st1, sd1),
        emits_within(st1, sd1, o, v, fuel),
    ensures
        emits_within(stack, side, o, v, fuel),
{
    let (n, st2, sd2, e): (nat, Seq<Arc<T>>, Seq<(CellVector, T)>, (CellVector, T)) = choose|
        n: nat,
        st2: Seq<Arc<T>>,
        sd2: Seq<(CellVector, T)>,
        e: (CellVector, T),
    |
        {
            &&& #[trigger] runs_to(st1, sd1, n, st2, sd2, Some(e))
            &&& (e == (o, v) || emits_within(st2, sd2, o, v, (fuel - 1) as nat))
        };
    assert(runs_to(stack, side, (n + 1) as nat, st2, sd2, Some(e)));
}

/// Enabling the corner-visibility capability never removes a cell: every
/// cell the capability-free scan emits with its n-th silent step, the
/// full scan emits as well, within at most n + 1 pulls from the same
/// state. Together with `lemma_corner_monotonic_step` this pins the
/// difference between the two scans to extra corner cells only.
pub proof fn lemma_corner_monotonic<T: FovValue>(
    stack: Seq<Arc<T>>,
    n: nat,
    st2: Seq<Arc<T>>,
    o: CellVector,
    v: T,
)
    requires
        plain_runs_to(
            stack,
            Seq::<(CellVector, T)>::empty(),
            n,
            st2,
            Seq::<(CellVector, T)>::empty(),
            Some((o, v)),
        ),
    ensures
        emits_within(stack, Seq::<(CellVector, T)>::empty(), o, v, (n + 1) as nat),
    decreases n,
{
    let empty = Seq::<(CellVector, T)>::empty();
    lemma_corner_monotonic_step(stack, empty);
    if n == 0 {
        match fov_step(stack, empty) {
            FovStep::Emit(stc, sdc, oc, vc) => {
                assert(runs_to(stack, empty, 0nat, stc, sdc, Some((o, v))));
                assert(emits_within(stack, empty, o, v, 1nat));
            },
            _ => {
                assert(false);
            },
        }
    } else {
        let st1 = fov_step_plain(stack, empty)->Continue_0;
        let sd1 = fov_step_plain(stack, empty)->Continue_1;
        assert(sd1 == empty);
        lemma_corner_monotonic(st1, (n - 1) as nat, st2, o, v);
        match fov_step(stack, empty) {
            FovStep::Continue(stc, sdc) => {
                assert(stc == st1);
                if sdc == empty {
                    lemma_emits_prepend(stack, empty, st1, empty, o, v, n);
                    lemma_emits_fuel_mono(stack, empty, o, v, n, (n + 1) as nat);
                } else {
                    let entry = (corner_point(stack.last()), stack.last().prev_value);
                    assert(sdc == empty.push(entry));
                    assert(sdc.len() == 1 && sdc.last() == entry && sdc.drop_last() =~= empty);
                    assert(fov_step(st1, sdc) == FovStep::Emit(st1, empty, entry.0, entry.1));
                    assert(runs_to(st1, sdc, 0nat, st1, empty, Some(entry)));
                    assert(runs_to(stack, empty, 1nat, st1, empty, Some(entry)));
                    assert(emits_within(stack, empty, o, v, (n + 1) as nat));
                }
            },
            _ => {
                assert(false);
            },
        }
    }
}

} // verus!
