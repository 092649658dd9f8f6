//! Grid snapping used when a ray places the edit preview.

use vstd::prelude::*;
use crate::scan::{cube_scan, key_view, lemma_cube_scan_len_all, lemma_cube_scan_members, lemma_push_map, rule_keep, CubeRule, Point};
use crate::shapes::get_unit_offsets;

verus! {

/// Division of `a` by a positive `b`, rounded toward zero as Rust's `/` does.
pub open spec fn div_toward_zero(a: int, b: int) -> int {
    if a >= 0 { a / b } else { -((-a) / b) }
}

fn snap_axis(r: i64, size: i64) -> (res: i64)
    requires size > 0,
    ensures res == div_toward_zero(r as int, size as int) * size,
{
    let q = r / size;
    proof {
        let a = r as int;
        let b = size as int;
        if a >= 0 {
            assert(0 <= (a / b) * b <= a) by (nonlinear_arith)
                requires a >= 0, b > 0;
        } else {
            assert(0 <= ((-a) / b) * b <= -a) by (nonlinear_arith)
                requires -a > 0, b > 0;
            assert((-((-a) / b)) * b == -(((-a) / b) * b)) by (nonlinear_arith);
        }
    }
    q * size
}

/// The grid point of spacing `size` that `r` snaps to on one axis.
pub open spec fn snap_base(r: int, size: int) -> int {
    div_toward_zero(r, size) * size
}

/// The 27 grid points of spacing `size` around the snapped base of `rounded`,
/// in scan order of the unit neighbourhood.
pub open spec fn snapped_neighbours(rounded: [i64; 3], size: int) -> Seq<Point> {
    let b = (snap_base(rounded[0] as int, size), snap_base(rounded[1] as int, size), snap_base(rounded[2] as int, size));
    cube_scan((0, 0, 0), -1, 2, rule_keep(CubeRule::All)).map_values(
        |o: Point| (b.0 + o.0 * size, b.1 + o.1 * size, b.2 + o.2 * size),
    )
}

/// The candidates are 27 points, each on the grid of spacing `size`.
pub proof fn lemma_snapped_on_grid(rounded: [i64; 3], size: int, j: int)
    requires
        size > 0,
        0 <= j < snapped_neighbours(rounded, size).len(),
    ensures
        snapped_neighbours(rounded, size).len() == 27,
        snapped_neighbours(rounded, size)[j].0 % size == 0,
        snapped_neighbours(rounded, size)[j].1 % size == 0,
        snapped_neighbours(rounded, size)[j].2 % size == 0,
{
    let unit = cube_scan((0, 0, 0), -1, 2, rule_keep(CubeRule::All));
    lemma_cube_scan_len_all((0, 0, 0), -1, 2);
    let o = unit[j];
    let qx = div_toward_zero(rounded[0] as int, size);
    let qy = div_toward_zero(rounded[1] as int, size);
    let qz = div_toward_zero(rounded[2] as int, size);
    let p = snapped_neighbours(rounded, size)[j];
    assert(p == (qx * size + o.0 * size, qy * size + o.1 * size, qz * size + o.2 * size));
    assert(qx * size + o.0 * size == (qx + o.0) * size) by (nonlinear_arith);
    assert(qy * size + o.1 * size == (qy + o.1) * size) by (nonlinear_arith);
    assert(qz * size + o.2 * size == (qz + o.2) * size) by (nonlinear_arith);
    vstd::arithmetic::div_mod::lemma_mod_multiples_basic(qx + o.0, size);
    vstd::arithmetic::div_mod::lemma_mod_multiples_basic(qy + o.1, size);
    vstd::arithmetic::div_mod::lemma_mod_multiples_basic(qz + o.2, size);
}

/// The snapped base of a coordinate lies between zero and the coordinate,
/// less than one spacing away from it.
pub proof fn lemma_snap_base_near(r: int, size: int)
    requires
        size > 0,
    ensures
        r >= 0 ==> 0 <= snap_base(r, size) <= r < snap_base(r, size) + size,
        r < 0 ==> snap_base(r, size) - size < r <= snap_base(r, size) <= 0,
{
    let a = if r >= 0 { r } else { -r };
    let q = a / size;
    let m = a % size;
    vstd::arithmetic::div_mod::lemma_fundamental_div_mod(a, size);
    vstd::arithmetic::div_mod::lemma_mod_pos_bound(a, size);
    assert(q * size == a - m) by (nonlinear_arith)
        requires a == size * q + m;
    assert(q * size >= 0) by (nonlinear_arith)
        requires q * size == a - m, 0 <= m < size, a >= 0, size > 0;
    if r < 0 {
        assert((-q) * size == -(q * size)) by (nonlinear_arith);
    }
}

/// Ray helpers of the editor.  The floating-point parts (casting a ray from
/// the camera and picking the nearest candidate) live with the caller; the
/// grid arithmetic lives here.
pub struct RayUtils;

impl RayUtils {
    /// The candidate positions for snapping a point whose coordinates round to
    /// `rounded`: the grid of spacing `size` around the point's snapped base.
    pub fn get_nearby_snapped_positions(rounded: [i64; 3], size: u32) -> (res: Vec<[i64; 3]>)
        requires
            size > 0,
            forall|i: int| 0 <= i < 3 ==> i64::MIN <= #[trigger] snap_base(rounded[i] as int, size as int) - size
                && snap_base(rounded[i] as int, size as int) + size <= i64::MAX,
        ensures
            res@.map_values(|q: [i64; 3]| key_view(q)) == snapped_neighbours(rounded, size as int),
    {
        let s = size as i64;
        let bx = snap_axis(rounded[0], s);
        let by = snap_axis(rounded[1], s);
        let bz = snap_axis(rounded[2], s);
        assert(i64::MIN <= snap_base(rounded[0] as int, s as int) - s);
        assert(i64::MIN <= snap_base(rounded[1] as int, s as int) - s);
        assert(i64::MIN <= snap_base(rounded[2] as int, s as int) - s);
        let offsets = get_unit_offsets();
        let ghost unit = cube_scan((0, 0, 0), -1, 2, rule_keep(CubeRule::All));
        proof {
            assert forall|j: int| 0 <= j < offsets@.len() implies -1 <= #[trigger] offsets@[j][0] <= 1
                && -1 <= offsets@[j][1] <= 1 && -1 <= offsets@[j][2] <= 1 by {
                assert(offsets@.map_values(|q: [i64; 3]| key_view(q))[j] == key_view(offsets@[j]));
                assert(unit[j] == key_view(offsets@[j]));
                assert(unit.contains(key_view(offsets@[j])));
                lemma_cube_scan_members((0, 0, 0), -1, 2, rule_keep(CubeRule::All), key_view(offsets@[j]));
            }
        }
        let ghost b: Point = (bx as int, by as int, bz as int);
        let ghost f = |o: Point| (b.0 + o.0 * s, b.1 + o.1 * s, b.2 + o.2 * s);
        let mut res: Vec<[i64; 3]> = Vec::new();
        let mut j: usize = 0;
        while j < offsets.len()
            invariant
                j <= offsets.len(),
                s == size as i64,
                s > 0,
                b == (bx as int, by as int, bz as int),
                f == (|o: Point| (b.0 + o.0 * s, b.1 + o.1 * s, b.2 + o.2 * s)),
                i64::MIN <= bx - s, bx + s <= i64::MAX,
                i64::MIN <= by - s, by + s <= i64::MAX,
                i64::MIN <= bz - s, bz + s <= i64::MAX,
                forall|j: int| 0 <= j < offsets@.len() ==> -1 <= #[trigger] offsets@[j][0] <= 1
                    && -1 <= offsets@[j][1] <= 1 && -1 <= offsets@[j][2] <= 1,
                res@.map_values(|q: [i64; 3]| key_view(q)) == offsets@.take(j as int).map_values(|q: [i64; 3]| key_view(q)).map_values(f),
            decreases offsets.len() - j,
        {
            let o = offsets[j];
            assert(offsets@[j as int] == o);
            let ox = o[0];
            let oy = o[1];
            let oz = o[2];
            assert(-s <= ox * s <= s) by (nonlinear_arith) requires -1 <= ox <= 1, s > 0;
            assert(-s <= oy * s <= s) by (nonlinear_arith) requires -1 <= oy <= 1, s > 0;
            assert(-s <= oz * s <= s) by (nonlinear_arith) requires -1 <= oz <= 1, s > 0;
            let k: [i64; 3] = [bx + ox * s, by + oy * s, bz + oz * s];
            proof {
                lemma_push_map(res@, k);
                lemma_push_map(offsets@.take(j as int), o);
                assert(offsets@.take(j + 1) =~= offsets@.take(j as int).push(o));
                let pre = offsets@.take(j as int).map_values(|q: [i64; 3]| key_view(q));
                assert(pre.push(key_view(o)).map_values(f) =~= pre.map_values(f).push(f(key_view(o))));
                assert(f(key_view(o)) == key_view(k));
            }
            res.push(k);
            j = j + 1;
        }
        proof {
            assert(offsets@.take(offsets.len() as int) =~= offsets@);
            assert(b == (snap_base(rounded[0] as int, size as int), snap_base(rounded[1] as int, size as int), snap_base(rounded[2] as int, size as int)));
        }
        res
    }
}

} // verus!
