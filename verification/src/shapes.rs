//! Integer shapes used when editing voxels: cubes and spheres of offsets
//! around a voxel, and the windows a preview copies.

use vstd::prelude::*;
use crate::scan::{lemma_push_map, collect_cube, cube_scan, key_view, lemma_cube_scan_len_all, lemma_cube_scan_sorted, rule_keep,
    CubeRule, Point};

verus! {

/// The half-open offset range `[min, max)` that a cube edit of edge `size`
/// covers on each axis: `max = size / 2 + 1` and `min = max - size`.
pub open spec fn cube_range(size: u8) -> (int, int) {
    let max = size / 2 + 1;
    (max - size, max)
}

/// The offset range of a cube edit of edge `size` (see `cube_range`).
pub fn cube_edit_range(size: u8) -> (r: (i64, i64))
    ensures
        (r.0 as int, r.1 as int) == cube_range(size),
{
    let s = size as i64;
    let max = (s / 2) + 1;
    let min = max - s;
    (min, max)
}

/// The voxels, in scan order, that a cube edit of edge `size` at `center`
/// writes: `center` plus every offset of `cube_range(size)` on each axis.
pub fn get_cube_coords(center: [i64; 3], size: u8) -> (res: Vec<[i64; 3]>)
    requires
        size > 0 ==> forall|i: int| 0 <= i < 3 ==> i64::MIN <= #[trigger] center[i] + cube_range(size).0
            && center[i] + cube_range(size).1 - 1 <= i64::MAX,
    ensures
        res@.map_values(|q: [i64; 3]| key_view(q)) == cube_scan(
            key_view(center),
            cube_range(size).0,
            cube_range(size).1,
            rule_keep(CubeRule::All),
        ),
{
    let (min, max) = cube_edit_range(size);
    collect_cube(center, min, max, CubeRule::All)
}

/// The offsets, in scan order, of a sphere edit: every offset of the cube
/// `[-reach, reach]^3` whose squared length is at most `max_dist_sq`.
pub fn get_sphere_offsets(reach: i8, max_dist_sq: i64) -> (res: Vec<[i64; 3]>)
    requires
        -128 < reach < 127,
    ensures
        res@.map_values(|q: [i64; 3]| key_view(q)) == cube_scan(
            (0, 0, 0),
            -reach,
            reach + 1,
            rule_keep(CubeRule::WithinSq { max_sq: max_dist_sq }),
        ),
{
    let s = reach as i64;
    let origin: [i64; 3] = [0, 0, 0];
    assert(key_view(origin) == (0int, 0int, 0int));
    collect_cube(origin, -s, s + 1, CubeRule::WithinSq { max_sq: max_dist_sq })
}

/// The unit neighbourhood: the 27 offsets of `[-1, 1]^3` in scan order.
pub fn get_unit_offsets() -> (res: Vec<[i64; 3]>)
    ensures
        res@.map_values(|q: [i64; 3]| key_view(q)) == cube_scan((0, 0, 0), -1, 2, rule_keep(CubeRule::All)),
{
    let origin: [i64; 3] = [0, 0, 0];
    assert(key_view(origin) == (0int, 0int, 0int));
    collect_cube(origin, -1, 2, CubeRule::All)
}

/// `base` shifted by each offset, in the order of the offsets.
pub open spec fn shifted_all(base: [i64; 3], offsets: Seq<[i64; 3]>) -> Seq<Point> {
    offsets.map_values(|o: [i64; 3]| (base[0] + o[0], base[1] + o[1], base[2] + o[2]))
}

/// Whether every shift of `base` by an offset stays representable.
pub open spec fn shifts_fit(base: [i64; 3], offsets: Seq<[i64; 3]>) -> bool {
    forall|j: int, i: int| 0 <= j < offsets.len() && 0 <= i < 3 ==>
        i64::MIN <= base[i] + #[trigger] offsets[j][i] <= i64::MAX
}

/// The voxels an edit writes: `base` shifted by each offset.
pub fn offset_coords(base: [i64; 3], offsets: &Vec<[i64; 3]>) -> (res: Vec<[i64; 3]>)
    requires
        shifts_fit(base, offsets@),
    ensures
        res@.map_values(|q: [i64; 3]| key_view(q)) == shifted_all(base, offsets@),
{
    let mut res: Vec<[i64; 3]> = Vec::new();
    let mut j: usize = 0;
    while j < offsets.len()
        invariant
            j <= offsets.len(),
            shifts_fit(base, offsets@),
            res@.map_values(|q: [i64; 3]| key_view(q)) == shifted_all(base, offsets@.take(j as int)),
        decreases offsets.len() - j,
    {
        let o = offsets[j];
        assert(offsets@[j as int] == o);
        assert(i64::MIN <= base[0] + offsets@[j as int][0] <= i64::MAX);
        assert(i64::MIN <= base[1] + offsets@[j as int][1] <= i64::MAX);
        assert(i64::MIN <= base[2] + offsets@[j as int][2] <= i64::MAX);
        let k: [i64; 3] = [base[0] + o[0], base[1] + o[1], base[2] + o[2]];
        proof {
            lemma_push_map(res@, k);
            assert(offsets@.take(j + 1) =~= offsets@.take(j as int).push(o));
            assert(shifted_all(base, offsets@.take(j + 1)) =~= shifted_all(base, offsets@.take(j as int)).push(key_view(k)));
        }
        res.push(k);
        assert(res@.map_values(|q: [i64; 3]| key_view(q)) =~= shifted_all(base, offsets@.take(j + 1)));
        j = j + 1;
    }
    assert(offsets@.take(offsets.len() as int) =~= offsets@);
    res
}

/// A cube edit of edge `size` writes `size^3` distinct voxels: its range
/// spans exactly `size` offsets on each axis.
pub proof fn lemma_cube_edit_count(center: Point, size: u8)
    ensures
        cube_range(size).1 - cube_range(size).0 == size,
        cube_scan(center, cube_range(size).0, cube_range(size).1, rule_keep(CubeRule::All)).len() == size * size * size,
        cube_scan(center, cube_range(size).0, cube_range(size).1, rule_keep(CubeRule::All)).no_duplicates(),
{
    lemma_cube_scan_len_all(center, cube_range(size).0, cube_range(size).1);
    lemma_cube_scan_sorted(center, cube_range(size).0, cube_range(size).1, rule_keep(CubeRule::All));
}

} // verus!
