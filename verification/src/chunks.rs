//! Decisions about which chunks to take from storage, which to generate, and
//! which drawn chunks a new mesh replaces.

use vstd::prelude::*;
use crate::scan::{collect_cube, cube_scan, key_view, lemma_cube_scan_members, rule_keep, CubeRule, Point};
use crate::shapes::cube_range;

verus! {

fn same_key(a: [i64; 3], b: [i64; 3]) -> (r: bool)
    ensures
        r == (a == b),
{
    let r = a[0] == b[0] && a[1] == b[1] && a[2] == b[2];
    proof {
        if r {
            assert(a@ =~= b@);
            assert(a == b) by {
                assert(a@ == b@);
                vstd::array::lemma_array_index(a, 0);
            }
        }
    }
    r
}

/// Whether `keys` holds `key`.
fn holds_key(keys: &Vec<[i64; 3]>, key: [i64; 3]) -> (r: bool)
    ensures
        r == keys@.contains(key),
{
    let mut i: usize = 0;
    while i < keys.len()
        invariant
            i <= keys.len(),
            forall|j: int| 0 <= j < i ==> keys@[j] != key,
        decreases keys.len() - i,
    {
        if same_key(keys[i], key) {
            assert(keys@[i as int] == key);
            return true;
        }
        i = i + 1;
    }
    false
}

/// The keys, in order, that have no stored data among `stored`.
pub fn get_keys_without_data(keys: &Vec<[i64; 3]>, stored: &Vec<[i64; 3]>) -> (r: Vec<[i64; 3]>)
    ensures
        r@ == keys@.filter(|k: [i64; 3]| !stored@.contains(k)),
        r@ == keys@.filter(|k: [i64; 3]| !exists|j: int| 0 <= j < stored@.len() && same_coords(stored@[j], k)),
        forall|k: [i64; 3]| r@.contains(k) <==> (keys@.contains(k) && !exists|j: int|
            0 <= j < stored@.len() && same_coords(stored@[j], k)),
{
    let mut r: Vec<[i64; 3]> = Vec::new();
    let mut i: usize = 0;
    while i < keys.len()
        invariant
            i <= keys.len(),
            r@ == keys@.take(i as int).filter(|k: [i64; 3]| !stored@.contains(k)),
        decreases keys.len() - i,
    {
        let k = keys[i];
        proof {
            assert(keys@.take(i + 1).drop_last() =~= keys@.take(i as int));
            reveal_with_fuel(Seq::filter, 1);
        }
        if !holds_key(stored, k) {
            r.push(k);
        }
        i = i + 1;
    }
    proof {
        assert(keys@.take(keys.len() as int) =~= keys@);
        assert forall|k: [i64; 3]| #[trigger] r@.contains(k) <==> (keys@.contains(k) && !exists|j: int|
            0 <= j < stored@.len() && same_coords(stored@[j], k)) by {
            lemma_keys_without_data_members(keys@, stored@, k);
        }
        lemma_unstored_by_coords(stored@);
        assert((|k: [i64; 3]| !stored@.contains(k)) =~= (|k: [i64; 3]| !exists|j: int| 0 <= j < stored@.len()
            && same_coords(stored@[j], k)));
    }
    r
}

/// Where a chunk comes from.
#[derive(Clone, Copy, Debug, PartialEq, Eq, Structural)]
pub enum ChunkSource {
    /// Its data is already stored.
    Stored,
    /// It has to be generated (or requested from a worker).
    Generated,
}

/// Where each key's chunk comes from: storage where `stored` holds the key,
/// generation otherwise.
pub open spec fn sources_of(keys: Seq<[i64; 3]>, stored: Seq<[i64; 3]>) -> Seq<ChunkSource> {
    keys.map_values(|k: [i64; 3]| if stored.contains(k) { ChunkSource::Stored } else { ChunkSource::Generated })
}

/// Where each of `keys` is loaded from, in order: storage for the keys that
/// `stored` holds, generation for the others.
pub fn plan_load_chunks(keys: &Vec<[i64; 3]>, stored: &Vec<[i64; 3]>) -> (r: Vec<ChunkSource>)
    ensures
        r@ == sources_of(keys@, stored@),
        r@.len() == keys@.len(),
        forall|i: int| 0 <= i < keys@.len() ==> ((r@[i] == ChunkSource::Stored) <==> exists|j: int|
            0 <= j < stored@.len() && same_coords(stored@[j], keys@[i])),
        forall|i: int| 0 <= i < keys@.len() ==> (r@[i] == ChunkSource::Stored || r@[i] == ChunkSource::Generated),
{
    let mut r: Vec<ChunkSource> = Vec::new();
    let mut i: usize = 0;
    while i < keys.len()
        invariant
            i <= keys.len(),
            r@ == sources_of(keys@.take(i as int), stored@),
        decreases keys.len() - i,
    {
        let source = if holds_key(stored, keys[i]) { ChunkSource::Stored } else { ChunkSource::Generated };
        proof {
            assert(keys@.take(i + 1) =~= keys@.take(i as int).push(keys@[i as int]));
            assert(sources_of(keys@.take(i + 1), stored@) =~= sources_of(keys@.take(i as int), stored@).push(source));
        }
        r.push(source);
        i = i + 1;
    }
    proof {
        assert(keys@.take(keys.len() as int) =~= keys@);
        lemma_sources_exact(keys@, stored@);
    }
    r
}

/// A drawn chunk that a new mesh replaces: its position among the drawn
/// chunks, and whether it carries a collider to remove (only the finest
/// level, 0, does).
#[derive(Clone, Copy, Debug, PartialEq, Eq, Structural)]
pub struct Replaced {
    pub index: usize,
    pub remove_collider: bool,
}

/// The drawn chunks with the same key as a new mesh, in order.
pub open spec fn replaced_by(drawn: Seq<([i64; 3], usize)>, key: [i64; 3], n: int) -> Seq<Replaced>
    decreases n,
{
    if n <= 0 {
        Seq::empty()
    } else {
        let prev = replaced_by(drawn, key, n - 1);
        if drawn[n - 1].0 == key {
            prev.push(Replaced { index: (n - 1) as usize, remove_collider: drawn[n - 1].1 == 0 })
        } else {
            prev
        }
    }
}

/// The drawn chunks (key and level of detail of each) that a new mesh for
/// `key` replaces, so that a key is drawn once.
pub fn graphics_replaced_by(drawn: &Vec<([i64; 3], usize)>, key: [i64; 3]) -> (r: Vec<Replaced>)
    ensures
        r@ == replaced_by(drawn@, key, drawn@.len() as int),
        forall|j: int| #![trigger r@[j]] 0 <= j < r@.len() ==> {
            let i = r@[j].index as int;
            &&& i < drawn@.len()
            &&& same_coords(drawn@[i].0, key)
            &&& r@[j].remove_collider == (drawn@[i].1 == 0)
        },
        forall|j: int, l: int| 0 <= j < l < r@.len() ==> r@[j].index < r@[l].index,
        forall|i: int| 0 <= i < drawn@.len() ==> (same_coords(drawn@[i].0, key) <==> exists|j: int|
            0 <= j < r@.len() && r@[j].index == i),
{
    let mut r: Vec<Replaced> = Vec::new();
    let mut i: usize = 0;
    while i < drawn.len()
        invariant
            i <= drawn.len(),
            r@ == replaced_by(drawn@, key, i as int),
        decreases drawn.len() - i,
    {
        let (k, lod) = drawn[i];
        if same_key(k, key) {
            r.push(Replaced { index: i, remove_collider: lod == 0 });
        }
        i = i + 1;
    }
    proof {
        lemma_replaced_exactly_same_key(drawn@, key, drawn@.len() as int);
    }
    r
}

/// The offsets a preview copies around its position: the cube
/// `[-(reach + 2), reach + 2)^3` in scan order, where `reach` is the edge of
/// a cube preview or the radius of a sphere preview.
pub fn get_preview_window(reach: i64) -> (r: Vec<[i64; 3]>)
    requires
        reach <= i64::MAX - 2,
    ensures
        r@.map_values(|q: [i64; 3]| key_view(q)) == cube_scan((0, 0, 0), -(reach + 2), reach + 2, rule_keep(CubeRule::All)),
{
    let extent = reach + 2;
    let origin: [i64; 3] = [0, 0, 0];
    assert(key_view(origin) == (0int, 0int, 0int));
    collect_cube(origin, -extent, extent, CubeRule::All)
}


/// A cell of a preview as plain integers: its position in the preview chunk
/// and the world voxel it copies.
pub open spec fn cell_view(c: ([u32; 3], [i64; 3])) -> (Point, Point) {
    ((c.0[0] as int, c.0[1] as int, c.0[2] as int), key_view(c.1))
}

/// The cells a preview copies, in scan order of the window of
/// `get_preview_window(reach)`: offset `o` is stored at `mid + o` of the
/// preview chunk and read from `center + o` of the world.
pub open spec fn preview_cell_pairs(center: [i64; 3], reach: int, mid: int) -> Seq<(Point, Point)> {
    cube_scan((0, 0, 0), -(reach + 2), reach + 2, rule_keep(CubeRule::All)).map_values(
        |o: Point| ((mid + o.0, mid + o.1, mid + o.2), (center[0] + o.0, center[1] + o.1, center[2] + o.2)),
    )
}

/// The cells that a cube or sphere preview around the voxel `center` copies
/// into a preview chunk whose middle is `mid`.
pub fn preview_cells(center: [i64; 3], reach: i64, mid: i64) -> (r: Vec<([u32; 3], [i64; 3])>)
    requires
        reach <= i64::MAX - 2,
        reach + 2 <= mid,
        mid + reach + 1 <= u32::MAX,
        forall|i: int| 0 <= i < 3 ==> i64::MIN + reach + 2 <= #[trigger] center[i] <= i64::MAX - reach - 1,
    ensures
        r@.map_values(|c: ([u32; 3], [i64; 3])| cell_view(c)) == preview_cell_pairs(center, reach as int, mid as int),
{
    let window = get_preview_window(reach);
    let ghost ext = reach + 2;
    let ghost ws = window@.map_values(|q: [i64; 3]| key_view(q));
    let ghost f = |o: Point| ((mid + o.0, mid + o.1, mid + o.2), (center[0] + o.0, center[1] + o.1, center[2] + o.2));
    assert(ws == cube_scan((0, 0, 0), -ext, ext, rule_keep(CubeRule::All)));
    let mut r: Vec<([u32; 3], [i64; 3])> = Vec::new();
    let mut j: usize = 0;
    while j < window.len()
        invariant
            j <= window.len(),
            ext == reach + 2,
            ws == window@.map_values(|q: [i64; 3]| key_view(q)),
            ws == cube_scan((0, 0, 0), -ext, ext, rule_keep(CubeRule::All)),
            f == (|o: Point| ((mid + o.0, mid + o.1, mid + o.2), (center[0] + o.0, center[1] + o.1, center[2] + o.2))),
            reach + 2 <= mid,
            mid + reach + 1 <= u32::MAX,
            forall|i: int| 0 <= i < 3 ==> i64::MIN + reach + 2 <= #[trigger] center[i] <= i64::MAX - reach - 1,
            r@.map_values(|c: ([u32; 3], [i64; 3])| cell_view(c)) == ws.take(j as int).map_values(f),
        decreases window.len() - j,
    {
        let o = window[j];
        proof {
            assert(ws[j as int] == key_view(o));
            assert(ws.contains(key_view(o)));
            lemma_cube_scan_members((0, 0, 0), -ext, ext, rule_keep(CubeRule::All), key_view(o));
        }
        assert(-ext <= o[0] < ext && -ext <= o[1] < ext && -ext <= o[2] < ext);
        assert(center[0] + o[0] <= i64::MAX && center[0] + o[0] >= i64::MIN);
        assert(center[1] + o[1] <= i64::MAX && center[1] + o[1] >= i64::MIN);
        assert(center[2] + o[2] <= i64::MAX && center[2] + o[2] >= i64::MIN);
        let local: [u32; 3] = [(mid + o[0]) as u32, (mid + o[1]) as u32, (mid + o[2]) as u32];
        let world: [i64; 3] = [center[0] + o[0], center[1] + o[1], center[2] + o[2]];
        let cell = (local, world);
        proof {
            assert(cell_view(cell) == f(key_view(o)));
            assert(ws.take(j + 1) =~= ws.take(j as int).push(key_view(o)));
            assert(ws.take(j + 1).map_values(f) =~= ws.take(j as int).map_values(f).push(f(key_view(o))));
            assert(r@.push(cell).map_values(|c: ([u32; 3], [i64; 3])| cell_view(c))
                =~= r@.map_values(|c: ([u32; 3], [i64; 3])| cell_view(c)).push(cell_view(cell)));
        }
        r.push(cell);
        j = j + 1;
    }
    proof {
        assert(ws.take(window.len() as int) =~= ws);
        assert(ws.map_values(f) =~= preview_cell_pairs(center, reach as int, mid as int));
    }
    r
}

/// The preview window of a cube edit holds every offset the edit writes, so
/// the preview shows the whole edit.
pub proof fn lemma_window_holds_cube_edit(size: u8, p: Point)
    requires
        cube_scan((0, 0, 0), cube_range(size).0, cube_range(size).1, rule_keep(CubeRule::All)).contains(p),
    ensures
        cube_scan((0, 0, 0), -(size + 2), size + 2, rule_keep(CubeRule::All)).contains(p),
{
    lemma_cube_scan_members((0, 0, 0), cube_range(size).0, cube_range(size).1, rule_keep(CubeRule::All), p);
    lemma_cube_scan_members((0, 0, 0), -(size + 2), size + 2, rule_keep(CubeRule::All), p);
}

/// The preview window of a sphere edit of radius `reach` holds every offset
/// the edit writes.
pub proof fn lemma_window_holds_sphere_edit(reach: int, max_sq: i64, p: Point)
    requires
        cube_scan((0, 0, 0), -reach, reach + 1, rule_keep(CubeRule::WithinSq { max_sq })).contains(p),
    ensures
        cube_scan((0, 0, 0), -(reach + 2), reach + 2, rule_keep(CubeRule::All)).contains(p),
{
    lemma_cube_scan_members((0, 0, 0), -reach, reach + 1, rule_keep(CubeRule::WithinSq { max_sq }), p);
    lemma_cube_scan_members((0, 0, 0), -(reach + 2), reach + 2, rule_keep(CubeRule::All), p);
}

/// Two keys with the same three coordinates.
pub open spec fn same_coords(a: [i64; 3], b: [i64; 3]) -> bool {
    a[0] == b[0] && a[1] == b[1] && a[2] == b[2]
}

/// Keys are equal exactly when all three coordinates are.
pub proof fn lemma_same_coords(a: [i64; 3], b: [i64; 3])
    ensures
        (a == b) <==> same_coords(a, b),
{
    if same_coords(a, b) {
        assert(a@ =~= b@);
        vstd::array::lemma_array_index(a, 0);
        assert(a == b);
    }
}

/// A new mesh replaces exactly the drawn chunks whose key equals its key on
/// all three coordinates, each once and in drawing order, and removes a
/// collider exactly for those drawn at the finest level.
pub proof fn lemma_replaced_exactly_same_key(drawn: Seq<([i64; 3], usize)>, key: [i64; 3], n: int)
    requires
        0 <= n <= drawn.len(),
        drawn.len() <= usize::MAX,
    ensures
        forall|j: int| #![trigger replaced_by(drawn, key, n)[j]] 0 <= j < replaced_by(drawn, key, n).len() ==> {
            let i = replaced_by(drawn, key, n)[j].index as int;
            &&& i < n
            &&& same_coords(drawn[i].0, key)
            &&& replaced_by(drawn, key, n)[j].remove_collider == (drawn[i].1 == 0)
        },
        forall|j: int, l: int| 0 <= j < l < replaced_by(drawn, key, n).len() ==>
            replaced_by(drawn, key, n)[j].index < replaced_by(drawn, key, n)[l].index,
        forall|i: int| 0 <= i < n ==> (same_coords(drawn[i].0, key) <==> exists|j: int|
            0 <= j < replaced_by(drawn, key, n).len() && replaced_by(drawn, key, n)[j].index == i),
    decreases n,
{
    if n > 0 {
        lemma_replaced_exactly_same_key(drawn, key, n - 1);
        let prev = replaced_by(drawn, key, n - 1);
        let r = replaced_by(drawn, key, n);
        lemma_same_coords(drawn[n - 1].0, key);
        let item = Replaced { index: (n - 1) as usize, remove_collider: drawn[n - 1].1 == 0 };
        assert(r == (if drawn[n - 1].0 == key { prev.push(item) } else { prev }));
        assert(item.index as int == n - 1);
        assert forall|i: int| 0 <= i < n implies (same_coords(drawn[i].0, key) <==> exists|j: int|
            0 <= j < r.len() && r[j].index == i) by {
            lemma_same_coords(drawn[i].0, key);
            if i < n - 1 {
                if same_coords(drawn[i].0, key) {
                    let j = choose|j: int| 0 <= j < prev.len() && prev[j].index == i;
                    assert(r[j] == prev[j]);
                }
                if exists|j: int| 0 <= j < r.len() && r[j].index == i {
                    let j = choose|j: int| 0 <= j < r.len() && r[j].index == i;
                    if j < prev.len() {
                        assert(r[j] == prev[j]);
                    }
                }
            } else {
                if same_coords(drawn[i].0, key) {
                    assert(r[prev.len() as int].index == i);
                }
                if exists|j: int| 0 <= j < r.len() && r[j].index == i {
                    let j = choose|j: int| 0 <= j < r.len() && r[j].index == i;
                    if j < prev.len() {
                        assert(r[j] == prev[j]);
                    }
                }
            }
        }
    }
}

/// Each key is loaded from storage exactly when the stored keys hold it,
/// at any position, and generated otherwise.
pub proof fn lemma_sources_exact(keys: Seq<[i64; 3]>, stored: Seq<[i64; 3]>)
    ensures
        sources_of(keys, stored).len() == keys.len(),
        forall|i: int| 0 <= i < keys.len() ==> ((sources_of(keys, stored)[i] == ChunkSource::Stored) <==> exists|j: int|
            0 <= j < stored.len() && same_coords(stored[j], keys[i])),
        forall|i: int| 0 <= i < keys.len() ==> (sources_of(keys, stored)[i] == ChunkSource::Stored
            || sources_of(keys, stored)[i] == ChunkSource::Generated),
{
    assert forall|i: int| 0 <= i < keys.len() implies ((sources_of(keys, stored)[i] == ChunkSource::Stored) <==> exists|j: int|
        0 <= j < stored.len() && same_coords(stored[j], keys[i])) by {
        if stored.contains(keys[i]) {
            let j = choose|j: int| 0 <= j < stored.len() && stored[j] == keys[i];
            lemma_same_coords(stored[j], keys[i]);
        }
        if exists|j: int| 0 <= j < stored.len() && same_coords(stored[j], keys[i]) {
            let j = choose|j: int| 0 <= j < stored.len() && same_coords(stored[j], keys[i]);
            lemma_same_coords(stored[j], keys[i]);
            assert(stored.contains(keys[i]));
        }
    }
}

/// The keys without data are exactly the keys that no stored key equals.
pub proof fn lemma_keys_without_data_members(keys: Seq<[i64; 3]>, stored: Seq<[i64; 3]>, k: [i64; 3])
    ensures
        keys.filter(|x: [i64; 3]| !stored.contains(x)).contains(k) <==> (keys.contains(k) && !exists|j: int|
            0 <= j < stored.len() && same_coords(stored[j], k)),
{
    let pred = |x: [i64; 3]| !stored.contains(x);
    let f = keys.filter(pred);
    assert(stored.contains(k) <==> exists|j: int| 0 <= j < stored.len() && same_coords(stored[j], k)) by {
        if stored.contains(k) {
            let j = choose|j: int| 0 <= j < stored.len() && stored[j] == k;
            lemma_same_coords(stored[j], k);
        }
        if exists|j: int| 0 <= j < stored.len() && same_coords(stored[j], k) {
            let j = choose|j: int| 0 <= j < stored.len() && same_coords(stored[j], k);
            lemma_same_coords(stored[j], k);
        }
    }
    if f.contains(k) {
        keys.lemma_filter_contains_rev(pred, k);
        let i = choose|i: int| 0 <= i < f.len() && f[i] == k;
        keys.lemma_filter_pred(pred, i);
    }
    if keys.contains(k) && !stored.contains(k) {
        let i = choose|i: int| 0 <= i < keys.len() && keys[i] == k;
        keys.lemma_filter_contains(pred, i);
    }
}

/// A key is held by the stored keys exactly when one of them has its three
/// coordinates.
pub proof fn lemma_unstored_by_coords(stored: Seq<[i64; 3]>)
    ensures
        forall|k: [i64; 3]| #[trigger] stored.contains(k) <==> exists|j: int| 0 <= j < stored.len()
            && same_coords(stored[j], k),
{
    assert forall|k: [i64; 3]| #[trigger] stored.contains(k) <==> exists|j: int| 0 <= j < stored.len()
        && same_coords(stored[j], k) by {
        if stored.contains(k) {
            let j = choose|j: int| 0 <= j < stored.len() && stored[j] == k;
            lemma_same_coords(stored[j], k);
        }
        if exists|j: int| 0 <= j < stored.len() && same_coords(stored[j], k) {
            let j = choose|j: int| 0 <= j < stored.len() && same_coords(stored[j], k);
            lemma_same_coords(stored[j], k);
        }
    }
}

} // verus!
