//! Chunk keys around a centre, by level of detail.
//!
//! The world is loaded in shells: the finest level covers a full cube of
//! chunks around the centre key, and each coarser level covers a larger cube
//! whose keys lie beyond the previous radius on every axis.  `ranges[i]` is
//! the radius that level index `i` reaches.

use vstd::prelude::*;
use crate::scan::{abs_int, collect_cube, cube_scan, key_view, lemma_cube_scan_len_all, lemma_cube_scan_members,
    lemma_cube_scan_sorted, rule_keep, CubeRule, Point};

verus! {

/// The level index that a level of detail stands for: the finest level is
/// `max_lod`, which has index 0.
pub open spec fn lod_index(max_lod: u8, lod: u8) -> int {
    max_lod - lod
}

/// The selection rule of a level index: everything at index 0, otherwise the
/// keys beyond the inner radius on every axis.
pub open spec fn lod_rule(index: int, inner: i64) -> CubeRule {
    if index == 0 {
        CubeRule::All
    } else {
        CubeRule::OutsideInner { inner }
    }
}

/// The keys, in scan order, that a level of detail covers around `key`.
pub open spec fn lod_keys(ranges: Seq<i64>, key: [i64; 3], max_lod: u8, lod: u8) -> Seq<Point> {
    let index = lod_index(max_lod, lod);
    let outer = ranges[index + 1] as int;
    cube_scan(key_view(key), -outer, outer + 1, rule_keep(lod_rule(index, ranges[index])))
}

/// What `get_keys_by_lod` needs of its inputs: the level exists in `ranges`
/// and every key it visits is representable.
pub open spec fn lod_inputs_ok(ranges: Seq<i64>, key: [i64; 3], max_lod: u8, lod: u8) -> bool {
    let index = lod_index(max_lod, lod);
    &&& lod <= max_lod
    &&& index + 1 < ranges.len()
    &&& i64::MIN < ranges[index + 1] < i64::MAX
    &&& ranges[index + 1] >= 0 ==> (forall|i: int| 0 <= i < 3 ==>
            i64::MIN + ranges[index + 1] <= #[trigger] key[i] <= i64::MAX - ranges[index + 1])
}

/// The chunk keys that level of detail `lod` covers around `key`: the cube of
/// radius `ranges[max_lod - lod + 1]`, and for every level but the finest only
/// the keys that lie beyond radius `ranges[max_lod - lod]` on all three axes.
pub fn get_keys_by_lod(ranges: Vec<i64>, key: [i64; 3], max_lod: u8, lod: u8) -> (res: Vec<[i64; 3]>)
    requires
        lod_inputs_ok(ranges@, key, max_lod, lod),
    ensures
        res@.map_values(|q: [i64; 3]| key_view(q)) == lod_keys(ranges@, key, max_lod, lod),
{
    let level = max_lod - lod;
    let index = level as usize;
    let m0 = ranges[index];
    let m1 = ranges[index + 1];
    let rule = if index == 0 {
        CubeRule::All
    } else {
        CubeRule::OutsideInner { inner: m0 }
    };
    if m1 < 0 {
        let res: Vec<[i64; 3]> = Vec::new();
        proof {
            assert(res@.map_values(|q: [i64; 3]| key_view(q)) =~= Seq::empty());
        }
        return res;
    }
    collect_cube(key, -m1, m1 + 1, rule)
}

/// Whether `p` is covered by level of detail `lod` around `key`: within the
/// outer radius on every axis, and for every level but the finest beyond the
/// inner radius on every axis.
pub open spec fn lod_covers(ranges: Seq<i64>, key: [i64; 3], max_lod: u8, lod: u8, p: Point) -> bool {
    let index = lod_index(max_lod, lod);
    let outer = ranges[index + 1] as int;
    let inner = ranges[index] as int;
    let d = (p.0 - key[0], p.1 - key[1], p.2 - key[2]);
    &&& abs_int(d.0) <= outer && abs_int(d.1) <= outer && abs_int(d.2) <= outer
    &&& index == 0 || (abs_int(d.0) > inner && abs_int(d.1) > inner && abs_int(d.2) > inner)
}

/// The keys of a level are exactly the points it covers.
pub proof fn lemma_lod_keys_members(ranges: Seq<i64>, key: [i64; 3], max_lod: u8, lod: u8, p: Point)
    ensures
        lod_keys(ranges, key, max_lod, lod).contains(p) <==> lod_covers(ranges, key, max_lod, lod, p),
{
    let index = lod_index(max_lod, lod);
    let outer = ranges[index + 1] as int;
    lemma_cube_scan_members(key_view(key), -outer, outer + 1, rule_keep(lod_rule(index, ranges[index])), p);
}

/// A level never lists a key twice; its keys come in increasing
/// lexicographic order.
pub proof fn lemma_lod_keys_distinct(ranges: Seq<i64>, key: [i64; 3], max_lod: u8, lod: u8)
    ensures
        lod_keys(ranges, key, max_lod, lod).no_duplicates(),
{
    let index = lod_index(max_lod, lod);
    let outer = ranges[index + 1] as int;
    lemma_cube_scan_sorted(key_view(key), -outer, outer + 1, rule_keep(lod_rule(index, ranges[index])));
}

/// The finest level lists the whole cube of radius `ranges[1]`:
/// `(2 * ranges[1] + 1)^3` keys.
pub proof fn lemma_finest_level_count(ranges: Seq<i64>, key: [i64; 3], max_lod: u8)
    requires
        ranges.len() >= 2,
        ranges[1] >= 0,
    ensures
        lod_keys(ranges, key, max_lod, max_lod).len() == (2 * ranges[1] + 1) * (2 * ranges[1] + 1) * (2 * ranges[1] + 1),
{
    let outer = ranges[1] as int;
    assert(lod_index(max_lod, max_lod) == 0);
    lemma_cube_scan_len_all(key_view(key), -outer, outer + 1);
}

/// Radii that never shrink from one level index to the next.
pub open spec fn ranges_sorted(ranges: Seq<i64>) -> bool {
    forall|i: int, j: int| 0 <= i <= j < ranges.len() ==> ranges[i] <= ranges[j]
}

/// Two different levels of detail never cover the same key, when the radii
/// never shrink: each coarser level lies beyond the reach of every finer one.
pub proof fn lemma_levels_disjoint(
    ranges: Seq<i64>,
    key: [i64; 3],
    max_lod: u8,
    fine: u8,
    coarse: u8,
    p: Point,
)
    requires
        ranges_sorted(ranges),
        coarse < fine <= max_lod,
        lod_index(max_lod, coarse) + 1 < ranges.len(),
    ensures
        !(lod_keys(ranges, key, max_lod, fine).contains(p) && lod_keys(ranges, key, max_lod, coarse).contains(p)),
{
    lemma_lod_keys_members(ranges, key, max_lod, fine, p);
    lemma_lod_keys_members(ranges, key, max_lod, coarse, p);
    let a = lod_index(max_lod, fine);
    let b = lod_index(max_lod, coarse);
    assert(ranges[a + 1] <= ranges[b]);
}

} // verus!
