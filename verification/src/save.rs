//! The terrain section of a save file: for each modified chunk its key and
//! the bytes of its voxel octree in text form.

use vstd::prelude::*;
use crate::payload::{decode_payload, encode_payload, hex_decodable, hex_decode, hex_lower, lemma_payload_round_trip};

verus! {

/// Modified chunks as they are written to a save file: `voxels[i]` is the
/// text form of the octree bytes of chunk `keys[i]`.
pub struct Terrains {
    pub keys: Vec<[i64; 3]>,
    pub voxels: Vec<String>,
}

/// A chunk as plain values: its key and the bytes of its octree.
pub type ChunkBytes = ([i64; 3], Vec<u8>);

/// The mathematical view of a list of chunks.
pub open spec fn chunks_view(chunks: Seq<ChunkBytes>) -> Seq<([i64; 3], Seq<u8>)> {
    chunks.map_values(|c: ChunkBytes| (c.0, c.1@))
}

/// The chunks that the first `n` entries of a terrain section load: the
/// entries whose text decodes, in order, with their decoded bytes.
pub open spec fn loaded_terrains(keys: Seq<[i64; 3]>, voxels: Seq<Seq<char>>, n: int) -> Seq<([i64; 3], Seq<u8>)>
    decreases n,
{
    if n <= 0 {
        Seq::empty()
    } else {
        let prev = loaded_terrains(keys, voxels, n - 1);
        if hex_decodable(voxels[n - 1]) {
            prev.push((keys[n - 1], hex_decode(voxels[n - 1])))
        } else {
            prev
        }
    }
}

impl Terrains {
    /// The text of each entry.
    pub open spec fn voxel_texts(&self) -> Seq<Seq<char>> {
        self.voxels@.map_values(|s: String| s@)
    }
}

/// The terrain section that saves the given chunks, in their order.
pub fn save_terrains(chunks: &Vec<ChunkBytes>) -> (t: Terrains)
    ensures
        t.keys@ == chunks@.map_values(|c: ChunkBytes| c.0),
        t.voxel_texts() == chunks@.map_values(|c: ChunkBytes| hex_lower(c.1@)),
{
    let mut keys: Vec<[i64; 3]> = Vec::new();
    let mut voxels: Vec<String> = Vec::new();
    let mut i: usize = 0;
    while i < chunks.len()
        invariant
            i <= chunks.len(),
            keys@ == chunks@.take(i as int).map_values(|c: ChunkBytes| c.0),
            voxels@.map_values(|s: String| s@) == chunks@.take(i as int).map_values(|c: ChunkBytes| hex_lower(c.1@)),
        decreases chunks.len() - i,
    {
        let key = chunks[i].0;
        let text = encode_payload(&chunks[i].1);
        proof {
            assert(chunks@.take(i + 1) =~= chunks@.take(i as int).push(chunks@[i as int]));
            assert(chunks@.take(i + 1).map_values(|c: ChunkBytes| c.0) =~= chunks@.take(i as int).map_values(|c: ChunkBytes| c.0).push(key));
            assert(chunks@.take(i + 1).map_values(|c: ChunkBytes| hex_lower(c.1@)) =~= chunks@.take(i as int).map_values(|c: ChunkBytes| hex_lower(c.1@)).push(text@));
            assert(voxels@.push(text).map_values(|s: String| s@) =~= voxels@.map_values(|s: String| s@).push(text@));
        }
        keys.push(key);
        voxels.push(text);
        i = i + 1;
    }
    proof {
        assert(chunks@.take(chunks.len() as int) =~= chunks@);
    }
    Terrains { keys, voxels }
}

/// The chunks a terrain section loads: every entry whose text decodes, in
/// order; an entry whose text does not decode is skipped.
pub fn load_terrains(t: &Terrains) -> (chunks: Vec<ChunkBytes>)
    requires
        t.keys.len() <= t.voxels.len(),
    ensures
        chunks_view(chunks@) == loaded_terrains(t.keys@, t.voxel_texts(), t.keys.len() as int),
{
    let mut chunks: Vec<ChunkBytes> = Vec::new();
    let mut i: usize = 0;
    while i < t.keys.len()
        invariant
            i <= t.keys.len() <= t.voxels.len(),
            chunks_view(chunks@) == loaded_terrains(t.keys@, t.voxel_texts(), i as int),
        decreases t.keys.len() - i,
    {
        let key = t.keys[i];
        let decoded = decode_payload(t.voxels[i].as_str());
        assert(t.voxel_texts()[i as int] == t.voxels@[i as int]@);
        match decoded {
            Some(bytes) => {
                proof {
                    assert(chunks@.push((key, bytes)).map_values(|c: ChunkBytes| (c.0, c.1@)) =~= chunks_view(chunks@).push((key, bytes@)));
                }
                chunks.push((key, bytes));
            },
            None => {},
        }
        i = i + 1;
    }
    chunks
}

/// Loading what was saved gives back the same chunks, in the same order.
pub proof fn lemma_save_load_round_trip(chunks: Seq<ChunkBytes>)
    ensures
        loaded_terrains(
            chunks.map_values(|c: ChunkBytes| c.0),
            chunks.map_values(|c: ChunkBytes| hex_lower(c.1@)),
            chunks.len() as int,
        ) == chunks_view(chunks),
    decreases chunks.len(),
{
    if chunks.len() > 0 {
        let n = chunks.len() - 1;
        let front = chunks.take(n as int);
        lemma_save_load_round_trip(front);
        let keys = chunks.map_values(|c: ChunkBytes| c.0);
        let texts = chunks.map_values(|c: ChunkBytes| hex_lower(c.1@));
        lemma_prefix_loads(keys, texts, front.map_values(|c: ChunkBytes| c.0), front.map_values(|c: ChunkBytes| hex_lower(c.1@)), n as int);
        lemma_payload_round_trip(chunks[n as int].1@);
        assert(chunks_view(chunks) =~= chunks_view(front).push((chunks[n as int].0, chunks[n as int].1@)));
    }
}

/// Loading the first `n` entries depends only on those entries.
proof fn lemma_prefix_loads(
    keys: Seq<[i64; 3]>,
    texts: Seq<Seq<char>>,
    keys2: Seq<[i64; 3]>,
    texts2: Seq<Seq<char>>,
    n: int,
)
    requires
        n <= keys.len(),
        n <= keys2.len(),
        n <= texts.len(),
        n <= texts2.len(),
        forall|i: int| 0 <= i < n ==> keys[i] == keys2[i] && texts[i] == texts2[i],
    ensures
        loaded_terrains(keys, texts, n) == loaded_terrains(keys2, texts2, n),
    decreases n,
{
    if n > 0 {
        lemma_prefix_loads(keys, texts, keys2, texts2, n - 1);
    }
}

} // verus!
