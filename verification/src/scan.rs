//! Ordered scans of an integer cube.
//!
//! Many routines of the world walk the cube `[lo, hi)^3` with three nested
//! loops (`x` outermost, `z` innermost) and keep the offsets that satisfy a
//! condition, translated by a centre.  This module gives that walk a single
//! mathematical meaning, `cube_scan`, and the facts the callers need about it.

use vstd::prelude::*;

verus! {

/// A point of the integer lattice, as mathematical integers.
pub type Point = (int, int, int);

/// The point `c + (x, y, z)`.
pub open spec fn shifted(c: Point, x: int, y: int, z: int) -> Point {
    (c.0 + x, c.1 + y, c.2 + z)
}

/// The kept points of the row `(x, y, lo..zend)`, in increasing `z`.
pub open spec fn row_scan(
    c: Point,
    lo: int,
    keep: spec_fn(int, int, int) -> bool,
    x: int,
    y: int,
    zend: int,
) -> Seq<Point>
    decreases zend - lo,
{
    if zend <= lo {
        Seq::empty()
    } else {
        let prev = row_scan(c, lo, keep, x, y, zend - 1);
        if keep(x, y, zend - 1) {
            prev.push(shifted(c, x, y, zend - 1))
        } else {
            prev
        }
    }
}

/// The kept points of the plane `(x, lo..yend, lo..hi)`, rows in increasing `y`.
pub open spec fn plane_scan(
    c: Point,
    lo: int,
    hi: int,
    keep: spec_fn(int, int, int) -> bool,
    x: int,
    yend: int,
) -> Seq<Point>
    decreases yend - lo,
{
    if yend <= lo {
        Seq::empty()
    } else {
        plane_scan(c, lo, hi, keep, x, yend - 1) + row_scan(c, lo, keep, x, yend - 1, hi)
    }
}

/// The kept points of the block `(lo..xend, lo..hi, lo..hi)`, planes in increasing `x`.
pub open spec fn block_scan(
    c: Point,
    lo: int,
    hi: int,
    keep: spec_fn(int, int, int) -> bool,
    xend: int,
) -> Seq<Point>
    decreases xend - lo,
{
    if xend <= lo {
        Seq::empty()
    } else {
        block_scan(c, lo, hi, keep, xend - 1) + plane_scan(c, lo, hi, keep, xend - 1, hi)
    }
}

/// The kept points of the whole cube `[lo, hi)^3` around `c`, in scan order.
pub open spec fn cube_scan(
    c: Point,
    lo: int,
    hi: int,
    keep: spec_fn(int, int, int) -> bool,
) -> Seq<Point> {
    block_scan(c, lo, hi, keep, hi)
}

/// Whether `p` is `c` shifted by a kept offset of the cube `[lo, hi)^3`.
pub open spec fn scan_member(
    c: Point,
    lo: int,
    hi: int,
    keep: spec_fn(int, int, int) -> bool,
    p: Point,
) -> bool {
    let (x, y, z) = (p.0 - c.0, p.1 - c.1, p.2 - c.2);
    lo <= x < hi && lo <= y < hi && lo <= z < hi && keep(x, y, z)
}

proof fn lemma_row_members(
    c: Point,
    lo: int,
    keep: spec_fn(int, int, int) -> bool,
    x: int,
    y: int,
    zend: int,
    p: Point,
)
    ensures
        row_scan(c, lo, keep, x, y, zend).contains(p) <==> (p.0 == c.0 + x && p.1 == c.1 + y
            && lo <= p.2 - c.2 < zend && keep(x, y, p.2 - c.2)),
    decreases zend - lo,
{
    if zend > lo {
        lemma_row_members(c, lo, keep, x, y, zend - 1, p);
        let prev = row_scan(c, lo, keep, x, y, zend - 1);
        if keep(x, y, zend - 1) {
            let q = shifted(c, x, y, zend - 1);
            assert(prev.push(q).contains(p) <==> (prev.contains(p) || q == p)) by {
                if prev.push(q).contains(p) {
                    let i = choose|i: int| 0 <= i < prev.push(q).len() && prev.push(q)[i] == p;
                    if i < prev.len() {
                        assert(prev[i] == p);
                    }
                }
                if prev.contains(p) {
                    let i = choose|i: int| 0 <= i < prev.len() && prev[i] == p;
                    assert(prev.push(q)[i] == p);
                }
                if q == p {
                    assert(prev.push(q)[prev.len() as int] == p);
                }
            }
        }
    }
}

proof fn lemma_plane_members(
    c: Point,
    lo: int,
    hi: int,
    keep: spec_fn(int, int, int) -> bool,
    x: int,
    yend: int,
    p: Point,
)
    ensures
        plane_scan(c, lo, hi, keep, x, yend).contains(p) <==> (p.0 == c.0 + x && lo <= p.1 - c.1
            < yend && lo <= p.2 - c.2 < hi && keep(x, p.1 - c.1, p.2 - c.2)),
    decreases yend - lo,
{
    if yend > lo {
        lemma_plane_members(c, lo, hi, keep, x, yend - 1, p);
        lemma_row_members(c, lo, keep, x, yend - 1, hi, p);
        let a = plane_scan(c, lo, hi, keep, x, yend - 1);
        let b = row_scan(c, lo, keep, x, yend - 1, hi);
        assert((a + b).contains(p) <==> (a.contains(p) || b.contains(p))) by {
            if (a + b).contains(p) {
                let i = choose|i: int| 0 <= i < (a + b).len() && (a + b)[i] == p;
                if i >= a.len() {
                    assert(b[i - a.len()] == p);
                }
            }
            if a.contains(p) {
                let i = choose|i: int| 0 <= i < a.len() && a[i] == p;
                assert((a + b)[i] == p);
            }
            if b.contains(p) {
                let i = choose|i: int| 0 <= i < b.len() && b[i] == p;
                assert((a + b)[a.len() + i] == p);
            }
        }
    }
}

proof fn lemma_block_members(
    c: Point,
    lo: int,
    hi: int,
    keep: spec_fn(int, int, int) -> bool,
    xend: int,
    p: Point,
)
    ensures
        block_scan(c, lo, hi, keep, xend).contains(p) <==> (lo <= p.0 - c.0 < xend && lo <= p.1
            - c.1 < hi && lo <= p.2 - c.2 < hi && keep(p.0 - c.0, p.1 - c.1, p.2 - c.2)),
    decreases xend - lo,
{
    if xend > lo {
        lemma_block_members(c, lo, hi, keep, xend - 1, p);
        lemma_plane_members(c, lo, hi, keep, xend - 1, hi, p);
        let a = block_scan(c, lo, hi, keep, xend - 1);
        let b = plane_scan(c, lo, hi, keep, xend - 1, hi);
        assert((a + b).contains(p) <==> (a.contains(p) || b.contains(p))) by {
            if (a + b).contains(p) {
                let i = choose|i: int| 0 <= i < (a + b).len() && (a + b)[i] == p;
                if i >= a.len() {
                    assert(b[i - a.len()] == p);
                }
            }
            if a.contains(p) {
                let i = choose|i: int| 0 <= i < a.len() && a[i] == p;
                assert((a + b)[i] == p);
            }
            if b.contains(p) {
                let i = choose|i: int| 0 <= i < b.len() && b[i] == p;
                assert((a + b)[a.len() + i] == p);
            }
        }
    }
}

/// A point occurs in a cube scan exactly when it is the centre shifted by a
/// kept offset of the cube.
pub proof fn lemma_cube_scan_members(
    c: Point,
    lo: int,
    hi: int,
    keep: spec_fn(int, int, int) -> bool,
    p: Point,
)
    ensures
        cube_scan(c, lo, hi, keep).contains(p) <==> scan_member(c, lo, hi, keep, p),
{
    lemma_block_members(c, lo, hi, keep, hi, p);
}

/// Strict lexicographic order on points.
pub open spec fn lex_lt(a: Point, b: Point) -> bool {
    a.0 < b.0 || (a.0 == b.0 && (a.1 < b.1 || (a.1 == b.1 && a.2 < b.2)))
}

/// A sequence in strictly increasing lexicographic order.
pub open spec fn lex_sorted(s: Seq<Point>) -> bool {
    forall|i: int, j: int| 0 <= i < j < s.len() ==> lex_lt(#[trigger] s[i], #[trigger] s[j])
}

proof fn lemma_concat_sorted(a: Seq<Point>, b: Seq<Point>)
    requires
        lex_sorted(a),
        lex_sorted(b),
        forall|i: int, j: int| 0 <= i < a.len() && 0 <= j < b.len() ==> lex_lt(#[trigger] a[i], #[trigger] b[j]),
    ensures
        lex_sorted(a + b),
{
    assert forall|i: int, j: int| 0 <= i < j < (a + b).len() implies lex_lt(#[trigger] (a + b)[i], #[trigger] (a + b)[j]) by {
        if j < a.len() {
            assert((a + b)[i] == a[i] && (a + b)[j] == a[j]);
        } else if i >= a.len() {
            assert((a + b)[i] == b[i - a.len()] && (a + b)[j] == b[j - a.len()]);
        } else {
            assert((a + b)[i] == a[i] && (a + b)[j] == b[j - a.len()]);
        }
    }
}

proof fn lemma_row_sorted(c: Point, lo: int, keep: spec_fn(int, int, int) -> bool, x: int, y: int, zend: int)
    ensures
        lex_sorted(row_scan(c, lo, keep, x, y, zend)),
    decreases zend - lo,
{
    if zend > lo {
        lemma_row_sorted(c, lo, keep, x, y, zend - 1);
        let prev = row_scan(c, lo, keep, x, y, zend - 1);
        if keep(x, y, zend - 1) {
            let q = shifted(c, x, y, zend - 1);
            assert forall|i: int| 0 <= i < prev.len() implies lex_lt(#[trigger] prev[i], q) by {
                assert(prev.contains(prev[i]));
                lemma_row_members(c, lo, keep, x, y, zend - 1, prev[i]);
            }
            assert forall|i: int, j: int| 0 <= i < j < prev.push(q).len() implies lex_lt(
                #[trigger] prev.push(q)[i], #[trigger] prev.push(q)[j]) by {
                if j == prev.len() {
                    assert(prev.push(q)[j] == q && prev.push(q)[i] == prev[i]);
                } else {
                    assert(prev.push(q)[j] == prev[j] && prev.push(q)[i] == prev[i]);
                }
            }
        }
    }
}

proof fn lemma_plane_sorted(c: Point, lo: int, hi: int, keep: spec_fn(int, int, int) -> bool, x: int, yend: int)
    ensures
        lex_sorted(plane_scan(c, lo, hi, keep, x, yend)),
    decreases yend - lo,
{
    if yend > lo {
        lemma_plane_sorted(c, lo, hi, keep, x, yend - 1);
        lemma_row_sorted(c, lo, keep, x, yend - 1, hi);
        let a = plane_scan(c, lo, hi, keep, x, yend - 1);
        let b = row_scan(c, lo, keep, x, yend - 1, hi);
        assert forall|i: int, j: int| 0 <= i < a.len() && 0 <= j < b.len() implies lex_lt(#[trigger] a[i], #[trigger] b[j]) by {
            assert(a.contains(a[i]));
            assert(b.contains(b[j]));
            lemma_plane_members(c, lo, hi, keep, x, yend - 1, a[i]);
            lemma_row_members(c, lo, keep, x, yend - 1, hi, b[j]);
        }
        lemma_concat_sorted(a, b);
    }
}

proof fn lemma_block_sorted(c: Point, lo: int, hi: int, keep: spec_fn(int, int, int) -> bool, xend: int)
    ensures
        lex_sorted(block_scan(c, lo, hi, keep, xend)),
    decreases xend - lo,
{
    if xend > lo {
        lemma_block_sorted(c, lo, hi, keep, xend - 1);
        lemma_plane_sorted(c, lo, hi, keep, xend - 1, hi);
        let a = block_scan(c, lo, hi, keep, xend - 1);
        let b = plane_scan(c, lo, hi, keep, xend - 1, hi);
        assert forall|i: int, j: int| 0 <= i < a.len() && 0 <= j < b.len() implies lex_lt(#[trigger] a[i], #[trigger] b[j]) by {
            assert(a.contains(a[i]));
            assert(b.contains(b[j]));
            lemma_block_members(c, lo, hi, keep, xend - 1, a[i]);
            lemma_plane_members(c, lo, hi, keep, xend - 1, hi, b[j]);
        }
        lemma_concat_sorted(a, b);
    }
}

/// A cube scan visits its points in strictly increasing lexicographic order,
/// so it never visits a point twice.
pub proof fn lemma_cube_scan_sorted(c: Point, lo: int, hi: int, keep: spec_fn(int, int, int) -> bool)
    ensures
        lex_sorted(cube_scan(c, lo, hi, keep)),
        cube_scan(c, lo, hi, keep).no_duplicates(),
{
    lemma_block_sorted(c, lo, hi, keep, hi);
    let s = cube_scan(c, lo, hi, keep);
    assert forall|i: int, j: int| 0 <= i < s.len() && 0 <= j < s.len() && i != j implies s[i] != s[j] by {
        if i < j {
            assert(lex_lt(s[i], s[j]));
        } else {
            assert(lex_lt(s[j], s[i]));
        }
    }
}

proof fn lemma_row_len_all(c: Point, lo: int, keep: spec_fn(int, int, int) -> bool, x: int, y: int, zend: int)
    requires
        forall|a: int, b: int, d: int| #[trigger] keep(a, b, d),
        lo <= zend,
    ensures
        row_scan(c, lo, keep, x, y, zend).len() == zend - lo,
    decreases zend - lo,
{
    if zend > lo {
        lemma_row_len_all(c, lo, keep, x, y, zend - 1);
        assert(keep(x, y, zend - 1));
    }
}

proof fn lemma_plane_len_all(c: Point, lo: int, hi: int, keep: spec_fn(int, int, int) -> bool, x: int, yend: int)
    requires
        forall|a: int, b: int, d: int| #[trigger] keep(a, b, d),
        lo <= yend,
        lo <= hi,
    ensures
        plane_scan(c, lo, hi, keep, x, yend).len() == (yend - lo) * (hi - lo),
    decreases yend - lo,
{
    if yend > lo {
        lemma_plane_len_all(c, lo, hi, keep, x, yend - 1);
        lemma_row_len_all(c, lo, keep, x, yend - 1, hi);
        assert((yend - 1 - lo) * (hi - lo) + (hi - lo) == (yend - lo) * (hi - lo)) by (nonlinear_arith);
    } else {
        assert((yend - lo) * (hi - lo) == 0) by (nonlinear_arith) requires yend == lo;
    }
}

proof fn lemma_block_len_all(c: Point, lo: int, hi: int, keep: spec_fn(int, int, int) -> bool, xend: int)
    requires
        forall|a: int, b: int, d: int| #[trigger] keep(a, b, d),
        lo <= xend,
        lo <= hi,
    ensures
        block_scan(c, lo, hi, keep, xend).len() == (xend - lo) * ((hi - lo) * (hi - lo)),
    decreases xend - lo,
{
    if xend > lo {
        lemma_block_len_all(c, lo, hi, keep, xend - 1);
        lemma_plane_len_all(c, lo, hi, keep, xend - 1, hi);
        assert((xend - 1 - lo) * ((hi - lo) * (hi - lo)) + (hi - lo) * (hi - lo) == (xend - lo) * ((hi - lo) * (hi - lo))) by (nonlinear_arith);
    } else {
        assert((xend - lo) * ((hi - lo) * (hi - lo)) == 0) by (nonlinear_arith) requires xend == lo;
    }
}

/// A scan that keeps every offset visits all `(hi - lo)^3` points of the cube.
pub proof fn lemma_cube_scan_len_all(c: Point, lo: int, hi: int)
    requires
        lo <= hi,
    ensures
        cube_scan(c, lo, hi, rule_keep(CubeRule::All)).len() == (hi - lo) * (hi - lo) * (hi - lo),
{
    let keep = rule_keep(CubeRule::All);
    assert forall|a: int, b: int, d: int| #[trigger] keep(a, b, d) by {}
    lemma_block_len_all(c, lo, hi, keep, hi);
    assert((hi - lo) * ((hi - lo) * (hi - lo)) == (hi - lo) * (hi - lo) * (hi - lo)) by (nonlinear_arith);
}

/// The lattice point named by a chunk key or voxel coordinate.
pub open spec fn key_view(k: [i64; 3]) -> Point {
    (k[0] as int, k[1] as int, k[2] as int)
}

/// The selection rules used when walking a cube.
#[derive(Clone, Copy)]
pub enum CubeRule {
    /// Every offset of the cube.
    All,
    /// Offsets that lie beyond `inner` on every axis.
    OutsideInner { inner: i64 },
    /// Offsets whose squared length is at most `max_sq`.
    WithinSq { max_sq: i64 },
}

/// The condition on offsets that a rule stands for.
pub open spec fn rule_keep(rule: CubeRule) -> spec_fn(int, int, int) -> bool {
    match rule {
        CubeRule::All => |x: int, y: int, z: int| true,
        CubeRule::OutsideInner { inner } => |x: int, y: int, z: int|
            abs_int(x) > inner && abs_int(y) > inner && abs_int(z) > inner,
        CubeRule::WithinSq { max_sq } => |x: int, y: int, z: int| x * x + y * y + z * z <= max_sq,
    }
}

/// Absolute value of a mathematical integer.
pub open spec fn abs_int(x: int) -> int {
    if x < 0 { -x } else { x }
}

/// The bounds under which `collect_cube` computes without overflow.
pub open spec fn cube_fits(c: [i64; 3], lo: i64, hi: i64, rule: CubeRule) -> bool {
    &&& lo < hi ==> (forall|i: int| 0 <= i < 3 ==> i64::MIN <= c[i] + lo && c[i] + hi - 1 <= i64::MAX)
    &&& lo > i64::MIN
    &&& rule is WithinSq ==> (-0x8000_0000 < lo && hi <= 0x8000_0000)
}

fn rule_keeps(rule: &CubeRule, x: i64, y: i64, z: i64) -> (r: bool)
    requires
        x > i64::MIN,
        y > i64::MIN,
        z > i64::MIN,
        rule is WithinSq ==> (-0x8000_0000 < x < 0x8000_0000 && -0x8000_0000 < y < 0x8000_0000
            && -0x8000_0000 < z < 0x8000_0000),
    ensures
        r == rule_keep(*rule)(x as int, y as int, z as int),
{
    match rule {
        CubeRule::All => true,
        CubeRule::OutsideInner { inner } => {
            let ax = if x < 0 { -x } else { x };
            let ay = if y < 0 { -y } else { y };
            let az = if z < 0 { -z } else { z };
            ax > *inner && ay > *inner && az > *inner
        },
        CubeRule::WithinSq { max_sq } => {
            let xx = x as i128;
            let yy = y as i128;
            let zz = z as i128;
            assert(xx * xx < 0x4000_0000_0000_0000) by (nonlinear_arith)
                requires -0x8000_0000 < xx < 0x8000_0000;
            assert(yy * yy < 0x4000_0000_0000_0000) by (nonlinear_arith)
                requires -0x8000_0000 < yy < 0x8000_0000;
            assert(zz * zz < 0x4000_0000_0000_0000) by (nonlinear_arith)
                requires -0x8000_0000 < zz < 0x8000_0000;
            assert(xx * xx >= 0) by (nonlinear_arith);
            assert(yy * yy >= 0) by (nonlinear_arith);
            assert(zz * zz >= 0) by (nonlinear_arith);
            xx * xx + yy * yy + zz * zz <= *max_sq as i128
        },
    }
}

pub(crate) proof fn lemma_push_map(s: Seq<[i64; 3]>, k: [i64; 3])
    ensures
        s.push(k).map_values(|q: [i64; 3]| key_view(q)) =~= s.map_values(|q: [i64; 3]| key_view(q)).push(key_view(k)),
{
}

/// Walks the cube `[lo, hi)^3` around `c` in scan order and collects the
/// translated offsets that the rule keeps.
pub(crate) fn collect_cube(c: [i64; 3], lo: i64, hi: i64, rule: CubeRule) -> (res: Vec<[i64; 3]>)
    requires
        cube_fits(c, lo, hi, rule),
    ensures
        res@.map_values(|q: [i64; 3]| key_view(q)) == cube_scan(key_view(c), lo as int, hi as int, rule_keep(rule)),
{
    let ghost cv = key_view(c);
    let ghost keep = rule_keep(rule);
    let mut res: Vec<[i64; 3]> = Vec::new();
    if lo >= hi {
        assert(res@.map_values(|q: [i64; 3]| key_view(q)) =~= Seq::empty());
        return res;
    }
    let mut x: i64 = lo;
    while x < hi
        invariant
            lo < hi,
            lo <= x <= hi,
            cube_fits(c, lo, hi, rule),
            cv == key_view(c),
            keep == rule_keep(rule),
            res@.map_values(|q: [i64; 3]| key_view(q)) == block_scan(cv, lo as int, hi as int, keep, x as int),
        decreases hi - x,
    {
        let ghost before_x = res@.map_values(|q: [i64; 3]| key_view(q));
        let mut y: i64 = lo;
        while y < hi
            invariant
                lo < hi,
                lo <= x < hi,
                lo <= y <= hi,
                cube_fits(c, lo, hi, rule),
                cv == key_view(c),
                keep == rule_keep(rule),
                res@.map_values(|q: [i64; 3]| key_view(q)) == before_x + plane_scan(cv, lo as int, hi as int, keep, x as int, y as int),
            decreases hi - y,
        {
            let ghost before_y = res@.map_values(|q: [i64; 3]| key_view(q));
            let mut z: i64 = lo;
            while z < hi
                invariant
                    lo < hi,
                    lo <= x < hi,
                    lo <= y < hi,
                    lo <= z <= hi,
                    cube_fits(c, lo, hi, rule),
                    cv == key_view(c),
                    keep == rule_keep(rule),
                    res@.map_values(|q: [i64; 3]| key_view(q)) == before_y + row_scan(cv, lo as int, keep, x as int, y as int, z as int),
                decreases hi - z,
            {
                assert(c[0] + x <= i64::MAX && c[0] + x >= i64::MIN);
                assert(c[1] + y <= i64::MAX && c[1] + y >= i64::MIN);
                assert(c[2] + z <= i64::MAX && c[2] + z >= i64::MIN);
                if rule_keeps(&rule, x, y, z) {
                    let k: [i64; 3] = [c[0] + x, c[1] + y, c[2] + z];
                    proof {
                        lemma_push_map(res@, k);
                        assert(key_view(k) == shifted(cv, x as int, y as int, z as int));
                    }
                    res.push(k);
                    assert(res@.map_values(|q: [i64; 3]| key_view(q)) =~= before_y + row_scan(cv, lo as int, keep, x as int, y as int, z + 1));
                } else {
                    assert(row_scan(cv, lo as int, keep, x as int, y as int, z + 1) == row_scan(cv, lo as int, keep, x as int, y as int, z as int));
                }
                z = z + 1;
            }
            assert(before_x + plane_scan(cv, lo as int, hi as int, keep, x as int, y + 1) =~= before_y + row_scan(cv, lo as int, keep, x as int, y as int, hi as int));
            y = y + 1;
        }
        assert(block_scan(cv, lo as int, hi as int, keep, x + 1) =~= before_x + plane_scan(cv, lo as int, hi as int, keep, x as int, hi as int));
        x = x + 1;
    }
    res
}

} // verus!
