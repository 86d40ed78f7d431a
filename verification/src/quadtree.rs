//! The per-face quadtree over cell keys: split/merge navigation, the set of
//! active leaf chunks, and the search for coarser neighbours across an edge
//! that drives edge stitching and 2:1 balancing.

use vstd::prelude::*;
use std::collections::{HashMap, HashSet};
use crate::cell::{
    cell_neighbor, edge_cells, spec_cell_neighbor, step_stays_on_face, lemma_neighbor_is_cell, CellKey, NeighborSide,
};
use vstd::arithmetic::power2::{pow2, lemma_pow2_unfold, lemma_pow2_pos};
use vstd::bits::lemma_u32_pow2_no_overflow;

verus! {

broadcast use vstd::std_specs::hash::group_hash_axioms;

/// The four children of a cell, one level finer: `(2i, 2j)`, `(2i+1, 2j)`,
/// `(2i, 2j+1)`, `(2i+1, 2j+1)`.
pub open spec fn spec_children(key: CellKey) -> [CellKey; 4] {
    [
        CellKey { face: key.face, i: (2 * key.i) as u32, j: (2 * key.j) as u32, lod: (key.lod + 1) as u8 },
        CellKey { face: key.face, i: (2 * key.i + 1) as u32, j: (2 * key.j) as u32, lod: (key.lod + 1) as u8 },
        CellKey { face: key.face, i: (2 * key.i) as u32, j: (2 * key.j + 1) as u32, lod: (key.lod + 1) as u8 },
        CellKey { face: key.face, i: (2 * key.i + 1) as u32, j: (2 * key.j + 1) as u32, lod: (key.lod + 1) as u8 },
    ]
}

/// The parent of a cell (one level coarser), or `None` at a face root.
pub open spec fn spec_parent(key: CellKey) -> Option<CellKey> {
    if key.lod == 0 {
        None
    } else {
        Some(CellKey { face: key.face, i: key.i / 2, j: key.j / 2, lod: (key.lod - 1) as u8 })
    }
}

/// The four children of `key` (a split).
pub fn children_of(key: CellKey) -> (children: [CellKey; 4])
    requires
        key.lod < 255,
        key.i < 0x8000_0000,
        key.j < 0x8000_0000,
    ensures
        children == spec_children(key),
{
    let lod = key.lod + 1;
    let i = key.i * 2;
    let j = key.j * 2;
    [
        CellKey { face: key.face, i, j, lod },
        CellKey { face: key.face, i: i + 1, j, lod },
        CellKey { face: key.face, i, j: j + 1, lod },
        CellKey { face: key.face, i: i + 1, j: j + 1, lod },
    ]
}

/// The parent of `key` (a merge target), `None` for a face root.
pub fn parent_of(key: CellKey) -> (parent: Option<CellKey>)
    ensures
        parent == spec_parent(key),
{
    if key.lod == 0 {
        return None;
    }
    Some(CellKey { face: key.face, i: key.i / 2, j: key.j / 2, lod: key.lod - 1 })
}

/// The six face roots, one per cube face in face order.
pub open spec fn spec_root(face: int) -> CellKey {
    CellKey { face: face as u8, i: 0, j: 0, lod: 0 }
}

/// The coarse coverage floor: the level-0 root of every cube face.
pub fn root_chunks() -> (roots: Vec<CellKey>)
    ensures
        roots@.len() == 6,
        forall|f: int| 0 <= f < 6 ==> #[trigger] roots@[f] == spec_root(f),
{
    let mut roots: Vec<CellKey> = Vec::new();
    let mut face: u8 = 0;
    while face < 6
        invariant
            face <= 6,
            roots@.len() == face,
            forall|f: int| 0 <= f < face ==> #[trigger] roots@[f] == spec_root(f),
        decreases 6 - face,
    {
        roots.push(CellKey { face, i: 0, j: 0, lod: 0 });
        face = face + 1;
    }
    roots
}

/// Splitting then merging is the identity: every child of a cell has that
/// cell as its parent, one level coarser; and the four children are distinct.
pub proof fn lemma_split_merge_roundtrip(parent: CellKey)
    requires
        parent.lod < 255,
        parent.i < 0x8000_0000,
        parent.j < 0x8000_0000,
    ensures
        forall|c: int| 0 <= c < 4 ==> spec_parent(#[trigger] spec_children(parent)[c]) == Some(parent),
        forall|c: int| 0 <= c < 4 ==> (#[trigger] spec_children(parent)[c]).lod == parent.lod + 1,
        forall|a: int, b: int| 0 <= a < b < 4 ==> spec_children(parent)[a] != spec_children(parent)[b],
{
}

/// Merging then splitting recovers the cell among its parent's children.
pub proof fn lemma_merge_split_roundtrip(child: CellKey)
    requires
        child.lod > 0,
    ensures
        ({
            let p = spec_parent(child)->Some_0;
            exists|c: int| 0 <= c < 4 && #[trigger] spec_children(p)[c] == child
        }),
{
    let p = spec_parent(child)->Some_0;
    let c: int = (child.i % 2) + 2 * (child.j % 2);
    assert(spec_children(p)[c] == child);
}

/// Splitting a cell of a valid quadtree (below the deepest level) yields
/// valid cells.
pub proof fn lemma_children_are_cells(parent: CellKey)
    requires
        parent.wf(),
        parent.lod < 31,
    ensures
        forall|c: int| 0 <= c < 4 ==> (#[trigger] spec_children(parent)[c]).wf(),
{
    lemma_pow2_unfold((parent.lod + 1) as nat);
    lemma_u32_pow2_no_overflow((parent.lod + 1) as nat);
}

/// The parent of a valid non-root cell is a valid cell.
pub proof fn lemma_parent_is_cell(child: CellKey)
    requires
        child.wf(),
        child.lod > 0,
    ensures
        (spec_parent(child)->Some_0).wf(),
{
    lemma_pow2_unfold(child.lod as nat);
}

/// A valid cell meets the bounds under which it can be split.
pub(crate) proof fn lemma_cell_can_split(key: CellKey)
    requires
        key.wf(),
    ensures
        key.lod < 255,
        key.i < 0x8000_0000,
        key.j < 0x8000_0000,
{
    vstd::arithmetic::power2::lemma2_to64();
    if key.lod < 31 {
        vstd::arithmetic::power2::lemma_pow2_strictly_increases(key.lod as nat, 31);
    }
}

/// The 128-bit code under which a cell is stored in the active-chunk table:
/// `face` in bits 72..80, `lod` in bits 64..72, `i` in bits 32..64 and `j`
/// in bits 0..32.
pub open spec fn cell_code(key: CellKey) -> u128 {
    ((key.face as u128) << 72u128) | ((key.lod as u128) << 64u128) | ((key.i as u128) << 32u128)
        | (key.j as u128)
}

/// The cell stored under a code (the inverse of `cell_code`).
pub open spec fn spec_decode(code: u128) -> CellKey {
    CellKey {
        face: (code >> 72u128) as u8,
        lod: ((code >> 64u128) & 0xffu128) as u8,
        i: ((code >> 32u128) & 0xffff_ffffu128) as u32,
        j: (code & 0xffff_ffffu128) as u32,
    }
}

/// Decoding a cell's code gives back the cell, and codes stay below `2^80`.
pub proof fn lemma_code_roundtrip(key: CellKey)
    ensures
        spec_decode(cell_code(key)) == key,
        cell_code(key) < 0x1_0000_0000_0000_0000_0000u128,
{
    let f = key.face;
    let l = key.lod;
    let i = key.i;
    let j = key.j;
    assert((((((f as u128) << 72u128) | ((l as u128) << 64u128) | ((i as u128) << 32u128)
        | (j as u128)) >> 72u128) as u8) == f) by (bit_vector);
    assert((((((f as u128) << 72u128) | ((l as u128) << 64u128) | ((i as u128) << 32u128)
        | (j as u128)) >> 64u128) & 0xffu128) as u8 == l) by (bit_vector);
    assert((((((f as u128) << 72u128) | ((l as u128) << 64u128) | ((i as u128) << 32u128)
        | (j as u128)) >> 32u128) & 0xffff_ffffu128) as u32 == i) by (bit_vector);
    assert(((((f as u128) << 72u128) | ((l as u128) << 64u128) | ((i as u128) << 32u128)
        | (j as u128)) & 0xffff_ffffu128) as u32 == j) by (bit_vector);
    assert((((f as u128) << 72u128) | ((l as u128) << 64u128) | ((i as u128) << 32u128)
        | (j as u128)) < 0x1_0000_0000_0000_0000_0000u128) by (bit_vector);
}

/// Distinct cells have distinct codes.
pub proof fn lemma_code_injective(a: CellKey, b: CellKey)
    ensures
        cell_code(a) == cell_code(b) <==> a == b,
{
    lemma_code_roundtrip(a);
    lemma_code_roundtrip(b);
}

/// Every code below `2^80` is the code of the cell it decodes to.
pub proof fn lemma_decode_roundtrip(code: u128)
    requires
        code < 0x1_0000_0000_0000_0000_0000u128,
    ensures
        cell_code(spec_decode(code)) == code,
{
    assert(code < 0x1_0000_0000_0000_0000_0000u128 ==> ((((((code >> 72u128) as u8) as u128) << 72u128)
        | (((((code >> 64u128) & 0xffu128) as u8) as u128) << 64u128)
        | (((((code >> 32u128) & 0xffff_ffffu128) as u32) as u128) << 32u128)
        | (((code & 0xffff_ffffu128) as u32) as u128)) == code)) by (bit_vector);
}

fn encode(key: CellKey) -> (code: u128)
    ensures
        code == cell_code(key),
{
    ((key.face as u128) << 72u128) | ((key.lod as u128) << 64u128) | ((key.i as u128) << 32u128)
        | (key.j as u128)
}

fn decode(code: u128) -> (key: CellKey)
    ensures
        key == spec_decode(code),
{
    CellKey {
        face: (code >> 72u128) as u8,
        lod: ((code >> 64u128) & 0xffu128) as u8,
        i: ((code >> 32u128) & 0xffff_ffffu128) as u32,
        j: (code & 0xffff_ffffu128) as u32,
    }
}

/// The live leaf chunks of the terrain quadtree, each with the id of the
/// entity that renders it, plus the splits and merges waiting for this
/// frame's budget. The chunks are keyed by `cell_code`.
pub struct ActiveChunks {
    chunks: HashMap<u128, u64>,
    pending_splits: Vec<CellKey>,
    pending_merges: Vec<CellKey>,
}

impl View for ActiveChunks {
    type V = Map<CellKey, u64>;

    /// The active chunks as a map from cell to entity id.
    closed spec fn view(&self) -> Map<CellKey, u64> {
        Map::new(
            |k: CellKey| self.chunks@.contains_key(cell_code(k)),
            |k: CellKey| self.chunks@[cell_code(k)],
        )
    }
}

impl ActiveChunks {
    /// Every stored code is the code of a cell.
    #[verifier::type_invariant]
    spec fn codes_are_cells(&self) -> bool {
        forall|c: u128| #[trigger] self.chunks@.contains_key(c) ==> c < 0x1_0000_0000_0000_0000_0000u128
    }

    /// Splits waiting for this frame's budget, in order.
    pub closed spec fn spec_pending_splits(&self) -> Seq<CellKey> {
        self.pending_splits@
    }

    /// Merges (by parent cell) waiting for this frame's budget, in order.
    pub closed spec fn spec_pending_merges(&self) -> Seq<CellKey> {
        self.pending_merges@
    }

    /// An empty table with no pending work.
    pub fn new() -> (s: Self)
        ensures
            s@ == Map::<CellKey, u64>::empty(),
            s.spec_pending_splits().len() == 0,
            s.spec_pending_merges().len() == 0,
    {
        let s = ActiveChunks { chunks: HashMap::new(), pending_splits: Vec::new(), pending_merges: Vec::new() };
        assert(s@ =~= Map::<CellKey, u64>::empty());
        s
    }

    /// Records `entity` as the chunk for `key` (replacing any previous one).
    pub fn insert(&mut self, key: CellKey, entity: u64)
        ensures
            final(self)@ == old(self)@.insert(key, entity),
            final(self).spec_pending_splits() == old(self).spec_pending_splits(),
            final(self).spec_pending_merges() == old(self).spec_pending_merges(),
    {
        proof {
            use_type_invariant(&*self);
        }
        let code = encode(key);
        proof { lemma_code_roundtrip(key); }
        let mut chunks: HashMap<u128, u64> = HashMap::new();
        std::mem::swap(&mut chunks, &mut self.chunks);
        chunks.insert(code, entity);
        self.chunks = chunks;
        proof {
            assert forall|k: CellKey| #![auto] final(self)@.contains_key(k) == old(self)@.insert(key, entity).contains_key(k) by {
                lemma_code_injective(k, key);
            }
            assert forall|k: CellKey| #![auto] final(self)@.contains_key(k) implies final(self)@[k] == old(self)@.insert(key, entity)[k] by {
                lemma_code_injective(k, key);
            }
            assert(final(self)@ =~= old(self)@.insert(key, entity));
        }
    }

    /// Removes the chunk for `key`, returning its entity if it was active.
    pub fn remove(&mut self, key: &CellKey) -> (removed: Option<u64>)
        ensures
            final(self)@ == old(self)@.remove(*key),
            removed == (if old(self)@.contains_key(*key) { Some(old(self)@[*key]) } else { None }),
            final(self).spec_pending_splits() == old(self).spec_pending_splits(),
            final(self).spec_pending_merges() == old(self).spec_pending_merges(),
    {
        proof {
            use_type_invariant(&*self);
        }
        let code = encode(*key);
        let mut chunks: HashMap<u128, u64> = HashMap::new();
        std::mem::swap(&mut chunks, &mut self.chunks);
        let removed = chunks.remove(&code);
        self.chunks = chunks;
        proof {
            assert forall|k: CellKey| #![auto] final(self)@.contains_key(k) == old(self)@.remove(*key).contains_key(k) by {
                lemma_code_injective(k, *key);
            }
            assert(final(self)@ =~= old(self)@.remove(*key));
        }
        removed
    }

    /// Whether `key` is an active chunk.
    pub fn contains(&self, key: &CellKey) -> (b: bool)
        ensures
            b == self@.contains_key(*key),
    {
        let code = encode(*key);
        self.chunks.contains_key(&code)
    }

    /// The entity rendering `key`, if `key` is active.
    pub fn get(&self, key: &CellKey) -> (entity: Option<u64>)
        ensures
            entity == (if self@.contains_key(*key) { Some(self@[*key]) } else { None }),
    {
        let code = encode(*key);
        match self.chunks.get(&code) {
            Some(e) => Some(*e),
            None => None,
        }
    }

    /// A table with the same chunks and entities and no pending work.
    pub fn duplicate(&self) -> (d: Self)
        ensures
            d@ == self@,
            d.spec_pending_splits().len() == 0,
            d.spec_pending_merges().len() == 0,
    {
        let keys = self.keys();
        let mut d = ActiveChunks::new();
        let mut k: usize = 0;
        while k < keys.len()
            invariant
                k <= keys@.len(),
                keys@.to_set() == self@.dom(),
                d@ == self@.restrict(keys@.subrange(0, k as int).to_set()),
                d.spec_pending_splits().len() == 0,
                d.spec_pending_merges().len() == 0,
            decreases keys@.len() - k,
        {
            let key = keys[k];
            assert(keys@.to_set().contains(keys@[k as int]));
            let entity = self.get(&key);
            match entity {
                Some(e) => {
                    d.insert(key, e);
                },
                None => {},
            }
            proof {
                let before = keys@.subrange(0, k as int).to_set();
                let after = keys@.subrange(0, k + 1).to_set();
                assert(after =~= before.insert(key)) by {
                    assert forall|x: CellKey| after.contains(x) implies before.insert(key).contains(x) by {
                        let w = choose|w: int| 0 <= w < k + 1 && #[trigger] keys@.subrange(0, k + 1)[w] == x;
                        if w < k {
                            assert(keys@.subrange(0, k as int)[w] == x);
                        }
                    }
                    assert forall|x: CellKey| before.insert(key).contains(x) implies after.contains(x) by {
                        if x == key {
                            assert(keys@.subrange(0, k + 1)[k as int] == x);
                        } else {
                            let w = choose|w: int| 0 <= w < k && #[trigger] keys@.subrange(0, k as int)[w] == x;
                            assert(keys@.subrange(0, k + 1)[w] == x);
                        }
                    }
                }
                assert(d@ =~= self@.restrict(after));
            }
            k = k + 1;
        }
        assert(keys@.subrange(0, keys@.len() as int) =~= keys@);
        assert(d@ =~= self@);
        d
    }

    /// Number of active chunks.
    pub fn len(&self) -> (n: usize)
        ensures
            n == self@.dom().len(),
    {
        proof {
            use_type_invariant(self);
            self.lemma_dom_len();
        }
        self.chunks.len()
    }

    /// Whether no chunk is active.
    pub fn is_empty(&self) -> (b: bool)
        ensures
            b == (self@.dom() == Set::<CellKey>::empty()),
    {
        proof {
            use_type_invariant(self);
        }
        let b = self.chunks.is_empty();
        proof {
            if !b {
                let c = choose|c: u128| self.chunks@.contains_key(c);
                assert(self.chunks@.contains_key(c));
                lemma_decode_roundtrip(c);
                assert(self@.dom().contains(spec_decode(c)));
            }
            if b {
                assert(self@.dom() =~= Set::<CellKey>::empty());
            }
        }
        b
    }

    /// The active cells, each exactly once, in unspecified order.
    pub fn keys(&self) -> (keys: Vec<CellKey>)
        ensures
            keys@.to_set() == self@.dom(),
            keys@.no_duplicates(),
    {
        proof {
            use_type_invariant(self);
        }
        let mut keys: Vec<CellKey> = Vec::new();
        let ghost refs = vstd::std_specs::iter::IteratorSpec::remaining(&vstd::std_specs::hash::spec_keys_iter(&self.chunks));
        let ghost codes = refs.map_values(|r: &u128| *r);
        proof {
            vstd::std_specs::hash::axiom_spec_keys_iter(&self.chunks);
            assert(refs.unref() == codes);
        }
        for code in it: self.chunks.keys()
            invariant
                forall|c: u128| #[trigger] self.chunks@.contains_key(c) ==> c < 0x1_0000_0000_0000_0000_0000u128,
                it.seq() == refs,
                keys@.len() == it.index(),
                forall|x: int| 0 <= x < it.index() ==> #[trigger] keys@[x] == spec_decode(*refs[x]),
        {
            keys.push(decode(*code));
        }
        proof {
            assert(keys@.len() == codes.len());
            assert forall|x: int| 0 <= x < keys@.len() implies #[trigger] keys@[x] == spec_decode(codes[x]) by {}
            assert forall|k: CellKey| keys@.to_set().contains(k) <==> #[trigger] self@.dom().contains(k) by {
                if keys@.to_set().contains(k) {
                    let x = choose|x: int| 0 <= x < keys@.len() && keys@[x] == k;
                    assert(codes.to_set().contains(codes[x]));
                    lemma_decode_roundtrip(codes[x]);
                }
                if self@.dom().contains(k) {
                    let c = cell_code(k);
                    assert(codes.to_set().contains(c));
                    let x = choose|x: int| 0 <= x < codes.len() && codes[x] == c;
                    lemma_code_roundtrip(k);
                    assert(keys@[x] == k);
                }
            }
            assert(keys@.to_set() =~= self@.dom());
            assert forall|a: int, b: int| 0 <= a < b < keys@.len() implies keys@[a] != keys@[b] by {
                assert(codes.to_set().contains(codes[a]));
                assert(codes.to_set().contains(codes[b]));
                lemma_decode_roundtrip(codes[a]);
                lemma_decode_roundtrip(codes[b]);
            }
        }
        keys
    }

    /// The splits waiting for this frame's budget, in order.
    pub fn pending_splits(&self) -> (v: &Vec<CellKey>)
        ensures
            v@ == self.spec_pending_splits(),
    {
        &self.pending_splits
    }

    /// The merges (by parent cell) waiting for this frame's budget, in order.
    pub fn pending_merges(&self) -> (v: &Vec<CellKey>)
        ensures
            v@ == self.spec_pending_merges(),
    {
        &self.pending_merges
    }

    /// Queues a split of `key` after the splits already waiting.
    pub fn push_pending_split(&mut self, key: CellKey)
        ensures
            final(self)@ == old(self)@,
            final(self).spec_pending_splits() == old(self).spec_pending_splits().push(key),
            final(self).spec_pending_merges() == old(self).spec_pending_merges(),
    {
        proof {
            use_type_invariant(&*self);
        }
        let mut list: Vec<CellKey> = Vec::new();
        std::mem::swap(&mut list, &mut self.pending_splits);
        list.push(key);
        self.pending_splits = list;
    }

    /// Queues a merge of the children of `parent` after the merges already
    /// waiting.
    pub fn push_pending_merge(&mut self, parent: CellKey)
        ensures
            final(self)@ == old(self)@,
            final(self).spec_pending_splits() == old(self).spec_pending_splits(),
            final(self).spec_pending_merges() == old(self).spec_pending_merges().push(parent),
    {
        proof {
            use_type_invariant(&*self);
        }
        let mut list: Vec<CellKey> = Vec::new();
        std::mem::swap(&mut list, &mut self.pending_merges);
        list.push(parent);
        self.pending_merges = list;
    }

    /// Drops this frame's pending splits and merges.
    pub fn clear_pending(&mut self)
        ensures
            final(self)@ == old(self)@,
            final(self).spec_pending_splits().len() == 0,
            final(self).spec_pending_merges().len() == 0,
    {
        proof {
            use_type_invariant(&*self);
        }
        self.pending_splits = Vec::new();
        self.pending_merges = Vec::new();
    }

    proof fn lemma_dom_len(&self)
        requires
            forall|c: u128| #[trigger] self.chunks@.contains_key(c) ==> c < 0x1_0000_0000_0000_0000_0000u128,
        ensures
            self.chunks@.len() == self@.dom().len(),
    {
        let codes = self.chunks@.dom();
        let cells = self@.dom();
        assert(cells =~= codes.map(|c: u128| spec_decode(c))) by {
            assert forall|k: CellKey| cells.contains(k) implies codes.map(|c: u128| spec_decode(c)).contains(k) by {
                lemma_code_roundtrip(k);
                assert(codes.contains(cell_code(k)));
            }
            assert forall|k: CellKey| codes.map(|c: u128| spec_decode(c)).contains(k) implies cells.contains(k) by {
                let c = choose|c: u128| codes.contains(c) && spec_decode(c) == k;
                lemma_decode_roundtrip(c);
            }
        }
        assert forall|a: u128, b: u128| codes.contains(a) && codes.contains(b) && spec_decode(a) == spec_decode(b) implies a == b by {
            lemma_decode_roundtrip(a);
            lemma_decode_roundtrip(b);
        }
        vstd::set_lib::lemma_map_size(codes, cells, |c: u128| spec_decode(c));
    }
}

/// Whether `key` lies on its parent's edge on `side` (so the neighbour of
/// its parent across `side` is also adjacent to `key`).
pub open spec fn on_parent_edge(key: CellKey, side: NeighborSide) -> bool {
    match side {
        NeighborSide::NegU => key.i % 2 == 0,
        NeighborSide::PosU => key.i % 2 == 1,
        NeighborSide::NegV => key.j % 2 == 0,
        NeighborSide::PosV => key.j % 2 == 1,
    }
}

/// The coarser active chunk adjacent to a chunk at level `origin_lod` across
/// `side`, searched from `current` upward: at each level check the
/// same-level neighbour; the first active one is the answer if it is coarser
/// than the origin. The walk stops (no coarser neighbour) once `current` is
/// an inner child on that side, or at the face root.
pub open spec fn spec_coarser_neighbor(
    current: CellKey,
    origin_lod: u8,
    side: NeighborSide,
    active: Map<CellKey, u64>,
) -> Option<CellKey>
    decreases current.lod,
{
    let nb = spec_cell_neighbor(current, side);
    if active.contains_key(nb) {
        if nb.lod < origin_lod { Some(nb) } else { None }
    } else if !on_parent_edge(current, side) || current.lod == 0 {
        None
    } else {
        spec_coarser_neighbor(spec_parent(current)->Some_0, origin_lod, side, active)
    }
}

/// A coarser neighbour found by the search is an active cell strictly
/// coarser than the origin.
pub proof fn lemma_coarser_neighbor_is_active_and_coarser(
    current: CellKey,
    origin_lod: u8,
    side: NeighborSide,
    active: Map<CellKey, u64>,
)
    requires
        current.wf(),
    ensures
        spec_coarser_neighbor(current, origin_lod, side, active) matches Some(nb) ==> {
            &&& active.contains_key(nb)
            &&& nb.lod < origin_lod
            &&& nb.lod <= current.lod
            &&& nb.wf()
        },
    decreases current.lod,
{
    lemma_neighbor_is_cell(current, side);
    let nb = spec_cell_neighbor(current, side);
    if !active.contains_key(nb) && on_parent_edge(current, side) && current.lod > 0 {
        lemma_parent_is_cell(current);
        lemma_coarser_neighbor_is_active_and_coarser(spec_parent(current)->Some_0, origin_lod, side, active);
    }
}

/// The active chunk coarser than `key` whose boundary touches `key` across
/// `side`, if any. Same-level and finer neighbours need no stitching from
/// this chunk.
pub fn coarser_neighbor_across_edge(
    key: CellKey,
    side: NeighborSide,
    active_chunks: &ActiveChunks,
) -> (found: Option<CellKey>)
    requires
        key.wf(),
    ensures
        found == spec_coarser_neighbor(key, key.lod, side, active_chunks@),
        found matches Some(nb) ==> active_chunks@.contains_key(nb) && nb.lod < key.lod && nb.wf(),
        key.lod > 0 && step_stays_on_face(key, side) && !active_chunks@.contains_key(spec_cell_neighbor(key, side)) ==> {
            &&& spec_parent(spec_cell_neighbor(key, side)) == spec_parent(key) ==> found is None
            &&& spec_parent(spec_cell_neighbor(key, side)) != spec_parent(key)
                && active_chunks@.contains_key(spec_parent(spec_cell_neighbor(key, side))->Some_0)
                ==> found == spec_parent(spec_cell_neighbor(key, side))
        },
{
    proof {
        lemma_coarser_neighbor_is_active_and_coarser(key, key.lod, side, active_chunks@);
        if key.lod > 0 && step_stays_on_face(key, side) && !active_chunks@.contains_key(spec_cell_neighbor(key, side)) {
            lemma_coarser_neighbor_one_level_up(key, side, active_chunks@);
        }
    }
    let mut current = key;
    loop
        invariant
            current.wf(),
            spec_coarser_neighbor(current, key.lod, side, active_chunks@)
                == spec_coarser_neighbor(key, key.lod, side, active_chunks@),
            key.lod > 0 && step_stays_on_face(key, side) && !active_chunks@.contains_key(spec_cell_neighbor(key, side)) ==> {
                &&& spec_parent(spec_cell_neighbor(key, side)) == spec_parent(key)
                    ==> spec_coarser_neighbor(key, key.lod, side, active_chunks@) is None
                &&& spec_parent(spec_cell_neighbor(key, side)) != spec_parent(key)
                    && active_chunks@.contains_key(spec_parent(spec_cell_neighbor(key, side))->Some_0)
                    ==> spec_coarser_neighbor(key, key.lod, side, active_chunks@) == spec_parent(spec_cell_neighbor(key, side))
            },
        decreases current.lod,
    {
        let nb = cell_neighbor(current, side);
        if active_chunks.contains(&nb) {
            return if nb.lod < key.lod { Some(nb) } else { None };
        }
        let on_edge = match side {
            NeighborSide::NegU => current.i % 2 == 0,
            NeighborSide::PosU => current.i % 2 == 1,
            NeighborSide::NegV => current.j % 2 == 0,
            NeighborSide::PosV => current.j % 2 == 1,
        };
        if !on_edge {
            return None;
        }
        match parent_of(current) {
            Some(parent) => {
                proof { lemma_parent_is_cell(current); }
                current = parent;
            },
            None => {
                return None;
            },
        }
    }
}

/// Level of the active chunk adjacent across `side`: the coarser neighbour's
/// level if there is one, otherwise `key.lod` (the neighbour is the same
/// level or finer, or there is none).
pub fn neighbor_lod_across_edge(key: CellKey, side: NeighborSide, active_chunks: &ActiveChunks) -> (lod: u8)
    requires
        key.wf(),
    ensures
        lod == match spec_coarser_neighbor(key, key.lod, side, active_chunks@) {
            Some(nb) => nb.lod,
            None => key.lod,
        },
        lod <= key.lod,
{
    match coarser_neighbor_across_edge(key, side, active_chunks) {
        Some(neighbor) => neighbor.lod,
        None => key.lod,
    }
}

/// `ancestor` is a strict ancestor of `key`: reachable by one or more
/// `parent` steps.
pub open spec fn spec_is_ancestor(ancestor: CellKey, key: CellKey) -> bool
    decreases key.lod,
{
    if key.lod == 0 {
        false
    } else {
        let parent = spec_parent(key)->Some_0;
        parent == ancestor || spec_is_ancestor(ancestor, parent)
    }
}

/// Whether `ancestor_key` is a strict ancestor of `key`.
pub fn is_ancestor_of(ancestor_key: CellKey, key: CellKey) -> (b: bool)
    ensures
        b == spec_is_ancestor(ancestor_key, key),
{
    let mut ancestor = parent_of(key);
    loop
        invariant
            ancestor matches Some(p) ==> spec_is_ancestor(ancestor_key, key) == (p == ancestor_key
                || spec_is_ancestor(ancestor_key, p)),
            ancestor is None ==> !spec_is_ancestor(ancestor_key, key),
        decreases match ancestor { Some(p) => p.lod as int + 1, None => 0 },
    {
        match ancestor {
            Some(parent) => {
                if parent == ancestor_key {
                    return true;
                }
                ancestor = parent_of(parent);
            },
            None => {
                return false;
            },
        }
    }
}

/// The ancestors of a cell are exactly the coarser cells of its face that
/// contain it: at level `l` the one whose indices are the key's indices
/// divided by `2^(key.lod - l)`.
pub proof fn lemma_ancestor_is_containing_cell(ancestor: CellKey, key: CellKey)
    ensures
        spec_is_ancestor(ancestor, key) <==> {
            &&& ancestor.lod < key.lod
            &&& ancestor.face == key.face
            &&& ancestor.i == key.i as nat / pow2((key.lod - ancestor.lod) as nat)
            &&& ancestor.j == key.j as nat / pow2((key.lod - ancestor.lod) as nat)
        },
    decreases key.lod,
{
    if key.lod > 0 {
        let parent = spec_parent(key)->Some_0;
        lemma_ancestor_is_containing_cell(ancestor, parent);
        vstd::arithmetic::power2::lemma2_to64();
        assert(pow2(1) == 2);
        if ancestor.lod + 1 == key.lod {
            assert((key.lod - ancestor.lod) as nat == 1);
        } else if ancestor.lod + 1 < key.lod {
            let m = (key.lod - ancestor.lod) as nat;
            assert((parent.lod - ancestor.lod) as nat == m - 1);
            lemma_pow2_pos((m - 1) as nat);
            lemma_pow2_unfold(m);
            vstd::arithmetic::div_mod::lemma_div_denominator(key.i as int, 2, pow2((m - 1) as nat) as int);
            vstd::arithmetic::div_mod::lemma_div_denominator(key.j as int, 2, pow2((m - 1) as nat) as int);
            assert(parent.i as nat / pow2((m - 1) as nat) == key.i as nat / pow2(m));
            assert(parent.j as nat / pow2((m - 1) as nat) == key.j as nat / pow2(m));
        }
    }
}

/// The side at position `k` of the fixed order `[NegU, PosU, NegV, PosV]`.
pub open spec fn side_at(k: int) -> NeighborSide {
    if k == 0 {
        NeighborSide::NegU
    } else if k == 1 {
        NeighborSide::PosU
    } else if k == 2 {
        NeighborSide::NegV
    } else {
        NeighborSide::PosV
    }
}

/// The neighbours a chunk must stitch its edges to: on each side, the
/// coarser active neighbour when it is exactly one level coarser (the
/// balanced 2:1 case), otherwise `None`.
pub fn stitch_neighbors(key: CellKey, active_chunks: &ActiveChunks) -> (nbs: [Option<CellKey>; 4])
    requires
        key.wf(),
    ensures
        forall|k: int| 0 <= k < 4 ==> #[trigger] nbs[k] == match spec_coarser_neighbor(key, key.lod, side_at(k), active_chunks@) {
            Some(nb) => if nb.lod + 1 == key.lod { Some(nb) } else { None },
            None => None,
        },
{
    let mut nbs: [Option<CellKey>; 4] = [None, None, None, None];
    let sides = [NeighborSide::NegU, NeighborSide::PosU, NeighborSide::NegV, NeighborSide::PosV];
    let mut k: usize = 0;
    while k < 4
        invariant
            k <= 4,
            key.wf(),
            sides@ == seq![NeighborSide::NegU, NeighborSide::PosU, NeighborSide::NegV, NeighborSide::PosV],
            forall|m: int| 0 <= m < k ==> #[trigger] nbs[m] == match spec_coarser_neighbor(key, key.lod, side_at(m), active_chunks@) {
                Some(nb) => if nb.lod + 1 == key.lod { Some(nb) } else { None },
                None => None,
            },
        decreases 4 - k,
    {
        let side = sides[k];
        assert(side == side_at(k as int));
        let found = match coarser_neighbor_across_edge(key, side, active_chunks) {
            Some(neighbor) => if neighbor.lod + 1 == key.lod { Some(neighbor) } else { None },
            None => None,
        };
        nbs[k] = found;
        k = k + 1;
    }
    nbs
}

/// Level each edge of a chunk is stitched to: the stitch neighbour's level,
/// or the chunk's own level where there is none.
pub fn stitch_neighbor_depths(key: CellKey, neighbors: [Option<CellKey>; 4]) -> (depths: [u8; 4])
    ensures
        forall|k: int| 0 <= k < 4 ==> #[trigger] depths[k] == match neighbors[k] {
            Some(nb) => nb.lod,
            None => key.lod,
        },
{
    let mut depths: [u8; 4] = [key.lod; 4];
    let mut k: usize = 0;
    while k < 4
        invariant
            k <= 4,
            forall|m: int| 0 <= m < k ==> #[trigger] depths[m] == match neighbors[m] {
                Some(nb) => nb.lod,
                None => key.lod,
            },
        decreases 4 - k,
    {
        let d = match neighbors[k] {
            Some(nb) => nb.lod,
            None => key.lod,
        };
        depths[k] = d;
        k = k + 1;
    }
    depths
}

/// Order used to pick among candidate splits: by level, then face, `i`, `j`.
pub open spec fn key_order_le(a: CellKey, b: CellKey) -> bool {
    ||| a.lod < b.lod
    ||| a.lod == b.lod && a.face < b.face
    ||| a.lod == b.lod && a.face == b.face && a.i < b.i
    ||| a.lod == b.lod && a.face == b.face && a.i == b.i && a.j <= b.j
}

fn key_order_le_exec(a: CellKey, b: CellKey) -> (r: bool)
    ensures
        r == key_order_le(a, b),
{
    a.lod < b.lod || (a.lod == b.lod && (a.face < b.face || (a.face == b.face && (a.i < b.i
        || (a.i == b.i && a.j <= b.j)))))
}

/// The least of two optional cells by `key_order_le` (the first on ties).
pub open spec fn least_key(a: Option<CellKey>, b: Option<CellKey>) -> Option<CellKey> {
    match (a, b) {
        (None, _) => b,
        (_, None) => a,
        (Some(p), Some(q)) => if key_order_le(p, q) { a } else { b },
    }
}

/// The least coarser neighbour of `key` over the first `n` sides (in
/// `side_at` order).
pub open spec fn least_coarser_neighbor(key: CellKey, active: Map<CellKey, u64>, n: nat) -> Option<CellKey>
    decreases n,
{
    if n == 0 {
        None
    } else {
        least_key(
            least_coarser_neighbor(key, active, (n - 1) as nat),
            spec_coarser_neighbor(key, key.lod, side_at(n - 1), active),
        )
    }
}

/// The split that `balancing_split_for` asks for first.
pub open spec fn spec_balancing_split(key: CellKey, active: Map<CellKey, u64>) -> Option<CellKey> {
    least_coarser_neighbor(key, active, 4)
}

/// The coarsest adjacent leaf that must split before `key` may split, so
/// that neighbouring leaves never differ by more than one level: among the
/// coarser neighbours on the four sides, the least by (level, face, i, j).
pub fn balancing_split_for(key: CellKey, active_chunks: &ActiveChunks) -> (split: Option<CellKey>)
    requires
        key.wf(),
    ensures
        split is None <==> forall|k: int| 0 <= k < 4 ==>
            #[trigger] spec_coarser_neighbor(key, key.lod, side_at(k), active_chunks@) is None,
        split matches Some(s) ==> {
            &&& exists|k: int| 0 <= k < 4 && #[trigger] spec_coarser_neighbor(key, key.lod, side_at(k), active_chunks@) == Some(s)
            &&& forall|k: int| 0 <= k < 4 ==> (#[trigger] spec_coarser_neighbor(key, key.lod, side_at(k), active_chunks@) matches Some(o) ==> key_order_le(s, o))
        },
        split == spec_balancing_split(key, active_chunks@),
{
    let sides = [NeighborSide::NegU, NeighborSide::PosU, NeighborSide::NegV, NeighborSide::PosV];
    let mut best: Option<CellKey> = None;
    let mut k: usize = 0;
    while k < 4
        invariant
            k <= 4,
            key.wf(),
            sides@ == seq![NeighborSide::NegU, NeighborSide::PosU, NeighborSide::NegV, NeighborSide::PosV],
            best is None <==> forall|m: int| 0 <= m < k ==>
                #[trigger] spec_coarser_neighbor(key, key.lod, side_at(m), active_chunks@) is None,
            best matches Some(s) ==> {
                &&& exists|m: int| 0 <= m < k && #[trigger] spec_coarser_neighbor(key, key.lod, side_at(m), active_chunks@) == Some(s)
                &&& forall|m: int| 0 <= m < k ==> (#[trigger] spec_coarser_neighbor(key, key.lod, side_at(m), active_chunks@) matches Some(o) ==> key_order_le(s, o))
            },
            best == least_coarser_neighbor(key, active_chunks@, k as nat),
        decreases 4 - k,
    {
        let side = sides[k];
        assert(side == side_at(k as int));
        let found = coarser_neighbor_across_edge(key, side, active_chunks);
        match found {
            Some(candidate) => {
                match best {
                    Some(current) => {
                        if !key_order_le_exec(current, candidate) {
                            best = Some(candidate);
                        }
                    },
                    None => {
                        best = Some(candidate);
                    },
                }
            },
            None => {},
        }
        k = k + 1;
    }
    best
}

/// Whether some merged cell is a strict ancestor of `key`.
pub fn has_merged_ancestor(key: CellKey, merged_keys: &[CellKey]) -> (b: bool)
    ensures
        b == exists|m: int| 0 <= m < merged_keys@.len() && spec_is_ancestor(#[trigger] merged_keys@[m], key),
{
    let mut m: usize = 0;
    while m < merged_keys.len()
        invariant
            m <= merged_keys@.len(),
            forall|x: int| 0 <= x < m ==> !spec_is_ancestor(#[trigger] merged_keys@[x], key),
        decreases merged_keys@.len() - m,
    {
        if is_ancestor_of(merged_keys[m], key) {
            return true;
        }
        m = m + 1;
    }
    false
}

/// Whether merging would conflict with `key`: some merged cell is a strict
/// ancestor of `key` or a strict descendant of it.
pub fn has_conflicting_merge(key: CellKey, merged_keys: &[CellKey]) -> (b: bool)
    ensures
        b == exists|m: int| 0 <= m < merged_keys@.len() && (spec_is_ancestor(#[trigger] merged_keys@[m], key)
            || spec_is_ancestor(key, merged_keys@[m])),
{
    let mut m: usize = 0;
    while m < merged_keys.len()
        invariant
            m <= merged_keys@.len(),
            forall|x: int| 0 <= x < m ==> !spec_is_ancestor(#[trigger] merged_keys@[x], key)
                && !spec_is_ancestor(key, merged_keys@[x]),
        decreases merged_keys@.len() - m,
    {
        if is_ancestor_of(merged_keys[m], key) || is_ancestor_of(key, merged_keys[m]) {
            return true;
        }
        m = m + 1;
    }
    false
}

/// Whether `key` is one of `keys`.
pub(crate) fn contains_key(keys: &[CellKey], key: CellKey) -> (b: bool)
    ensures
        b == keys@.contains(key),
{
    let mut m: usize = 0;
    while m < keys.len()
        invariant
            m <= keys@.len(),
            forall|x: int| 0 <= x < m ==> keys@[x] != key,
        decreases keys@.len() - m,
    {
        if keys[m] == key {
            return true;
        }
        m = m + 1;
    }
    false
}

/// Whether `key`'s parent is still waiting on a retained split handoff (one
/// of `retained_parents`): such a chunk must not split yet.
pub fn is_child_of_retained_split(key: CellKey, retained_parents: &[CellKey]) -> (b: bool)
    ensures
        b == (spec_parent(key) matches Some(p) && retained_parents@.contains(p)),
{
    match parent_of(key) {
        Some(parent) => contains_key(retained_parents, parent),
        None => false,
    }
}

/// Walking up from `key` (itself first), the first cell that is active or a
/// retained split parent; the face root when none is.
pub open spec fn spec_containing_ancestor(key: CellKey, active: Map<CellKey, u64>, retained: Seq<CellKey>) -> CellKey
    decreases key.lod,
{
    if active.contains_key(key) || retained.contains(key) {
        key
    } else if key.lod == 0 {
        spec_root(key.face as int)
    } else {
        spec_containing_ancestor(spec_parent(key)->Some_0, active, retained)
    }
}

/// The deepest cell covering `finest` (the finest cell containing the
/// camera direction) that is active or held as a retained split parent,
/// falling back to the root of `finest`'s face.
pub fn containing_ancestor_key(finest: CellKey, active_chunks: &ActiveChunks, retained_parents: &[CellKey]) -> (found: CellKey)
    ensures
        found == spec_containing_ancestor(finest, active_chunks@, retained_parents@),
{
    let mut current = finest;
    loop
        invariant
            spec_containing_ancestor(current, active_chunks@, retained_parents@)
                == spec_containing_ancestor(finest, active_chunks@, retained_parents@),
            current.face == finest.face,
        decreases current.lod,
    {
        if active_chunks.contains(&current) || contains_key(retained_parents, current) {
            return current;
        }
        match parent_of(current) {
            Some(parent) => {
                current = parent;
            },
            None => {
                return CellKey { face: finest.face, i: 0, j: 0, lod: 0 };
            },
        }
    }
}

/// The cell found by the containing-ancestor walk from a valid cell covers
/// it: it is the cell itself or one of its ancestors; it is active or
/// retained unless it is the face root reached as the fallback; and no
/// finer cell on the way up (the cell itself or a finer ancestor) is active
/// or retained.
pub proof fn lemma_containing_ancestor_covers(key: CellKey, active: Map<CellKey, u64>, retained: Seq<CellKey>)
    requires
        key.wf(),
    ensures
        ({
            let found = spec_containing_ancestor(key, active, retained);
            &&& found == key || spec_is_ancestor(found, key)
            &&& (active.contains_key(found) || retained.contains(found) || found == spec_root(key.face as int))
            &&& forall|c: CellKey| (c == key || spec_is_ancestor(c, key)) && c.lod > found.lod
                ==> !active.contains_key(c) && !retained.contains(c)
        }),
    decreases key.lod,
{
    let found = spec_containing_ancestor(key, active, retained);
    if !(active.contains_key(key) || retained.contains(key)) && key.lod > 0 {
        let parent = spec_parent(key)->Some_0;
        lemma_parent_is_cell(key);
        lemma_containing_ancestor_covers(parent, active, retained);
        assert forall|c: CellKey| (c == key || spec_is_ancestor(c, key)) && c.lod > found.lod
            implies !active.contains_key(c) && !retained.contains(c) by {
            if c != key {
                assert(c == parent || spec_is_ancestor(c, parent));
            }
        }
    } else if !(active.contains_key(key) || retained.contains(key)) {
        assert(edge_cells(0) == 1) by {
            vstd::arithmetic::power2::lemma2_to64();
        }
    } else {
        assert forall|c: CellKey| (c == key || spec_is_ancestor(c, key)) && c.lod > found.lod
            implies !active.contains_key(c) && !retained.contains(c) by {
            if c != key {
                lemma_ancestor_is_containing_cell(c, key);
            }
        }
    }
}

/// `c` is next to `key` across `side`: the same-level neighbour there, its
/// parent, or one of its children.
pub open spec fn near_across(key: CellKey, side: NeighborSide, c: CellKey) -> bool {
    let nb = spec_cell_neighbor(key, side);
    c == nb || spec_parent(nb) == Some(c) || spec_parent(c) == Some(nb)
}

/// The chunks whose edge stitching may change when `key` splits or merges:
/// `key`, its children, its siblings, and across each side the neighbour,
/// the neighbour's parent and the neighbour's children.
pub open spec fn in_stitch_neighborhood(key: CellKey, c: CellKey) -> bool {
    ||| c == key
    ||| spec_parent(c) == Some(key)
    ||| (spec_parent(key) matches Some(p) && spec_parent(c) == Some(p))
    ||| near_across(key, NeighborSide::NegU, c)
    ||| near_across(key, NeighborSide::PosU, c)
    ||| near_across(key, NeighborSide::NegV, c)
    ||| near_across(key, NeighborSide::PosV, c)
}

/// Adds `key` to the set held in `v` (no-op when present).
fn push_unique(v: &mut Vec<CellKey>, key: CellKey)
    ensures
        forall|c: CellKey| #[trigger] final(v)@.contains(c) <==> (old(v)@.contains(c) || c == key),
{
    if !contains_key(v.as_slice(), key) {
        v.push(key);
        proof {
            assert forall|c: CellKey| #[trigger] final(v)@.contains(c) <==> (old(v)@.contains(c) || c == key) by {
                if final(v)@.contains(c) {
                    let x = choose|x: int| 0 <= x < final(v)@.len() && final(v)@[x] == c;
                    if x < old(v)@.len() {
                        assert(old(v)@[x] == c);
                    }
                }
                if old(v)@.contains(c) {
                    let x = choose|x: int| 0 <= x < old(v)@.len() && old(v)@[x] == c;
                    assert(final(v)@[x] == c);
                }
                if c == key {
                    assert(final(v)@[old(v)@.len() as int] == c);
                }
            }
        }
    }
}

/// The cells whose parent is `p` are exactly its four children.
proof fn lemma_children_by_parent(p: CellKey, c: CellKey)
    requires
        p.lod < 255,
        p.i < 0x8000_0000,
        p.j < 0x8000_0000,
    ensures
        spec_parent(c) == Some(p) <==> (c == spec_children(p)[0] || c == spec_children(p)[1]
            || c == spec_children(p)[2] || c == spec_children(p)[3]),
{
}

/// Adds the four children of `p` to the set held in `v`.
fn push_children(v: &mut Vec<CellKey>, p: CellKey)
    requires
        p.lod < 255,
        p.i < 0x8000_0000,
        p.j < 0x8000_0000,
    ensures
        forall|c: CellKey| #[trigger] final(v)@.contains(c) <==> (old(v)@.contains(c) || spec_parent(c) == Some(p)),
{
    let children = children_of(p);
    push_unique(v, children[0]);
    push_unique(v, children[1]);
    push_unique(v, children[2]);
    push_unique(v, children[3]);
    proof {
        assert forall|c: CellKey| #[trigger] final(v)@.contains(c) <==> (old(v)@.contains(c) || spec_parent(c) == Some(p)) by {
            lemma_children_by_parent(p, c);
        }
    }
}

/// Adds, for `side`, the neighbour of `key`, its parent and its children.
fn push_near_across(v: &mut Vec<CellKey>, key: CellKey, side: NeighborSide)
    requires
        key.wf(),
    ensures
        forall|c: CellKey| #[trigger] final(v)@.contains(c) <==> (old(v)@.contains(c) || near_across(key, side, c)),
{
    let ghost v0 = v@;
    let neighbor = cell_neighbor(key, side);
    proof { lemma_neighbor_is_cell(key, side); }
    push_unique(v, neighbor);
    match parent_of(neighbor) {
        Some(parent) => push_unique(v, parent),
        None => {},
    }
    proof { lemma_cell_can_split(neighbor); }
    push_children(v, neighbor);
    proof {
        assert forall|c: CellKey| #[trigger] final(v)@.contains(c) <==> (v0.contains(c) || near_across(key, side, c)) by {}
    }
}

/// `mark_stitch_neighborhood` on a list of cells: adds the stitch
/// neighbourhood of `key`, then keeps only active chunks, each once.
fn mark_stitch_neighborhood_list(key: CellKey, active_chunks: &ActiveChunks, dirty: &mut Vec<CellKey>)
    requires
        key.wf(),
    ensures
        forall|c: CellKey| #[trigger] final(dirty)@.contains(c) <==> ((old(dirty)@.contains(c)
            || in_stitch_neighborhood(key, c)) && active_chunks@.contains_key(c)),
        final(dirty)@.no_duplicates(),
{
    let ghost d0 = dirty@;
    push_unique(dirty, key);
    proof { lemma_cell_can_split(key); }
    push_children(dirty, key);
    push_near_across(dirty, key, NeighborSide::NegU);
    push_near_across(dirty, key, NeighborSide::PosU);
    push_near_across(dirty, key, NeighborSide::NegV);
    push_near_across(dirty, key, NeighborSide::PosV);
    match parent_of(key) {
        Some(parent) => {
            proof { lemma_parent_is_cell(key); }
            push_children(dirty, parent);
        },
        None => {},
    }
    let ghost marked = dirty@;
    assert(forall|c: CellKey| #[trigger] marked.contains(c) <==> (d0.contains(c) || in_stitch_neighborhood(key, c)));
    let mut kept: Vec<CellKey> = Vec::new();
    let mut m: usize = 0;
    while m < dirty.len()
        invariant
            m <= marked.len(),
            dirty@ == marked,
            kept@.no_duplicates(),
            forall|c: CellKey| #[trigger] kept@.contains(c) <==> (exists|x: int| 0 <= x < m && marked[x] == c)
                && active_chunks@.contains_key(c),
        decreases marked.len() - m,
    {
        let candidate = dirty[m];
        if active_chunks.contains(&candidate) && !contains_key(kept.as_slice(), candidate) {
            let ghost k0 = kept@;
            kept.push(candidate);
            proof {
                assert forall|a: int, b: int| 0 <= a < b < kept@.len() implies kept@[a] != kept@[b] by {
                    if b == k0.len() {
                        assert(k0.contains(k0[a]));
                    }
                }
                assert forall|c: CellKey| #[trigger] kept@.contains(c) <==> (exists|x: int| 0 <= x < m + 1 && marked[x] == c)
                    && active_chunks@.contains_key(c) by {
                    if kept@.contains(c) {
                        let y = choose|y: int| 0 <= y < kept@.len() && kept@[y] == c;
                        if y < k0.len() {
                            assert(k0.contains(c));
                        } else {
                            assert(marked[m as int] == c);
                        }
                    }
                    if (exists|x: int| 0 <= x < m + 1 && marked[x] == c) && active_chunks@.contains_key(c) {
                        let x = choose|x: int| 0 <= x < m + 1 && marked[x] == c;
                        if x < m {
                            assert(k0.contains(c));
                            let y = choose|y: int| 0 <= y < k0.len() && k0[y] == c;
                            assert(kept@[y] == c);
                        } else {
                            assert(kept@[k0.len() as int] == c);
                        }
                    }
                }
            }
        } else {
            proof {
                assert forall|c: CellKey| #[trigger] kept@.contains(c) <==> (exists|x: int| 0 <= x < m + 1 && marked[x] == c)
                    && active_chunks@.contains_key(c) by {
                    if (exists|x: int| 0 <= x < m + 1 && marked[x] == c) && active_chunks@.contains_key(c) {
                        let x = choose|x: int| 0 <= x < m + 1 && marked[x] == c;
                        if x == m {
                            assert(kept@.contains(c));
                        }
                    }
                }
            }
        }
        m = m + 1;
    }
    proof {
        assert forall|c: CellKey| #[trigger] kept@.contains(c) <==> ((d0.contains(c)
            || in_stitch_neighborhood(key, c)) && active_chunks@.contains_key(c)) by {
            if marked.contains(c) {
                let x = choose|x: int| 0 <= x < marked.len() && marked[x] == c;
                assert(exists|x: int| 0 <= x < marked.len() && marked[x] == c);
            }
        }
    }
    *dirty = kept;
}

/// The set of chunks whose edge stitching must be rebuilt, keyed by
/// `cell_code` like the active-chunk table.
pub struct DirtyStitchChunks {
    codes: HashSet<u128>,
}

impl View for DirtyStitchChunks {
    type V = Set<CellKey>;

    /// The cells in the set.
    closed spec fn view(&self) -> Set<CellKey> {
        Set::new(|k: CellKey| self.codes@.contains(cell_code(k)))
    }
}

impl DirtyStitchChunks {
    /// Every stored code is the code of a cell.
    #[verifier::type_invariant]
    spec fn codes_are_cells(&self) -> bool {
        forall|c: u128| #[trigger] self.codes@.contains(c) ==> c < 0x1_0000_0000_0000_0000_0000u128
    }

    /// An empty set.
    pub fn new() -> (s: Self)
        ensures
            s@ == Set::<CellKey>::empty(),
    {
        let s = DirtyStitchChunks { codes: HashSet::new() };
        assert(s@ =~= Set::<CellKey>::empty());
        s
    }

    /// Adds `key`.
    pub fn insert(&mut self, key: CellKey)
        ensures
            final(self)@ == old(self)@.insert(key),
    {
        proof {
            use_type_invariant(&*self);
        }
        let code = encode(key);
        proof { lemma_code_roundtrip(key); }
        let mut codes: HashSet<u128> = HashSet::new();
        std::mem::swap(&mut codes, &mut self.codes);
        codes.insert(code);
        self.codes = codes;
        proof {
            assert forall|k: CellKey| #![auto] final(self)@.contains(k) == old(self)@.insert(key).contains(k) by {
                lemma_code_injective(k, key);
            }
            assert(final(self)@ =~= old(self)@.insert(key));
        }
    }

    /// Whether `key` is in the set.
    pub fn contains(&self, key: &CellKey) -> (b: bool)
        ensures
            b == self@.contains(*key),
    {
        let code = encode(*key);
        self.codes.contains(&code)
    }

    /// The cells of the set, each exactly once, in unspecified order.
    pub fn keys(&self) -> (keys: Vec<CellKey>)
        ensures
            keys@.to_set() == self@,
            keys@.no_duplicates(),
    {
        proof {
            use_type_invariant(self);
        }
        let mut keys: Vec<CellKey> = Vec::new();
        let ghost refs = vstd::std_specs::iter::IteratorSpec::remaining(&vstd::std_specs::hash::spec_hash_keys_iter(&self.codes));
        let ghost codes = refs.map_values(|r: &u128| *r);
        proof {
            vstd::std_specs::hash::axiom_spec_hash_keys_iter(&self.codes);
            assert(refs.unref() == codes);
        }
        for code in it: self.codes.iter()
            invariant
                forall|c: u128| #[trigger] self.codes@.contains(c) ==> c < 0x1_0000_0000_0000_0000_0000u128,
                it.seq() == refs,
                keys@.len() == it.index(),
                forall|x: int| 0 <= x < it.index() ==> #[trigger] keys@[x] == spec_decode(*refs[x]),
        {
            keys.push(decode(*code));
        }
        proof {
            assert(keys@.len() == codes.len());
            assert forall|x: int| 0 <= x < keys@.len() implies #[trigger] keys@[x] == spec_decode(codes[x]) by {}
            assert forall|k: CellKey| keys@.to_set().contains(k) <==> #[trigger] self@.contains(k) by {
                if keys@.to_set().contains(k) {
                    let x = choose|x: int| 0 <= x < keys@.len() && keys@[x] == k;
                    assert(codes.to_set().contains(codes[x]));
                    lemma_decode_roundtrip(codes[x]);
                }
                if self@.contains(k) {
                    let c = cell_code(k);
                    assert(codes.to_set().contains(c));
                    let x = choose|x: int| 0 <= x < codes.len() && codes[x] == c;
                    lemma_code_roundtrip(k);
                    assert(keys@[x] == k);
                }
            }
            assert(keys@.to_set() =~= self@);
            assert forall|a: int, b: int| 0 <= a < b < keys@.len() implies keys@[a] != keys@[b] by {
                assert(codes.to_set().contains(codes[a]));
                assert(codes.to_set().contains(codes[b]));
                lemma_decode_roundtrip(codes[a]);
                lemma_decode_roundtrip(codes[b]);
            }
        }
        keys
    }
}

/// Marks the chunks whose stitching may change after `key` split or merged:
/// adds the stitch neighbourhood of `key` to `dirty`, then keeps only the
/// active chunks.
pub fn mark_stitch_neighborhood(key: CellKey, active_chunks: &ActiveChunks, dirty: &mut DirtyStitchChunks)
    requires
        key.wf(),
    ensures
        forall|c: CellKey| #[trigger] final(dirty)@.contains(c) <==> ((old(dirty)@.contains(c)
            || in_stitch_neighborhood(key, c)) && active_chunks@.contains_key(c)),
        forall|c: CellKey, side: NeighborSide| #![trigger final(dirty)@.contains(c), spec_cell_neighbor(key, side)]
            active_chunks@.contains_key(c) && (c == spec_cell_neighbor(key, side)
            || spec_parent(spec_cell_neighbor(key, side)) == Some(c)
            || spec_parent(c) == Some(spec_cell_neighbor(key, side))) ==> final(dirty)@.contains(c),
        forall|c: CellKey| #![trigger final(dirty)@.contains(c)] active_chunks@.contains_key(c) && (c == key
            || spec_parent(c) == Some(key) || (spec_parent(key) matches Some(p) && spec_parent(c) == Some(p)))
            ==> final(dirty)@.contains(c),
{
    let mut list = dirty.keys();
    let ghost l0 = list@;
    mark_stitch_neighborhood_list(key, active_chunks, &mut list);
    let mut fresh = DirtyStitchChunks::new();
    let mut k: usize = 0;
    while k < list.len()
        invariant
            k <= list@.len(),
            fresh@ == list@.subrange(0, k as int).to_set(),
        decreases list@.len() - k,
    {
        fresh.insert(list[k]);
        proof {
            assert(list@.subrange(0, k + 1) =~= list@.subrange(0, k as int).push(list@[k as int]));
            let pre = list@.subrange(0, k as int);
            let x = list@[k as int];
            assert forall|c: CellKey| pre.push(x).to_set().contains(c) <==> pre.to_set().insert(x).contains(c) by {
                if pre.push(x).contains(c) {
                    let w = choose|w: int| 0 <= w < pre.push(x).len() && pre.push(x)[w] == c;
                    if w < pre.len() {
                        assert(pre[w] == c);
                    }
                }
                if pre.contains(c) {
                    let w = choose|w: int| 0 <= w < pre.len() && pre[w] == c;
                    assert(pre.push(x)[w] == c);
                }
                if c == x {
                    assert(pre.push(x)[pre.len() as int] == c);
                }
            }
            assert(pre.push(x).to_set() =~= pre.to_set().insert(x));
        }
        k = k + 1;
    }
    assert(list@.subrange(0, list@.len() as int) =~= list@);
    proof {
        assert forall|c: CellKey| #[trigger] fresh@.contains(c) <==> ((old(dirty)@.contains(c)
            || in_stitch_neighborhood(key, c)) && active_chunks@.contains_key(c)) by {
            assert(l0.to_set().contains(c) == l0.contains(c));
            assert(list@.to_set().contains(c) == list@.contains(c));
        }
    }
    *dirty = fresh;
    proof {
        assert forall|c: CellKey, side: NeighborSide| #![trigger dirty@.contains(c), spec_cell_neighbor(key, side)]
            active_chunks@.contains_key(c) && (c == spec_cell_neighbor(key, side)
            || spec_parent(spec_cell_neighbor(key, side)) == Some(c)
            || spec_parent(c) == Some(spec_cell_neighbor(key, side))) implies dirty@.contains(c) by {
            lemma_stitch_neighborhood_members(key, c, side);
        }
        assert forall|c: CellKey| #![trigger dirty@.contains(c)] active_chunks@.contains_key(c) && (c == key
            || spec_parent(c) == Some(key) || (spec_parent(key) matches Some(p) && spec_parent(c) == Some(p)))
            implies dirty@.contains(c) by {
            lemma_stitch_neighborhood_members(key, c, NeighborSide::NegU);
        }
    }
}

/// The stitch neighbourhood of `key` spelled out: `key`, its children, its
/// siblings, and across every side the same-level neighbour, that
/// neighbour's parent and its children (the finer chunks along the shared
/// edge).
pub proof fn lemma_stitch_neighborhood_members(key: CellKey, c: CellKey, side: NeighborSide)
    ensures
        c == key ==> in_stitch_neighborhood(key, c),
        spec_parent(c) == Some(key) ==> in_stitch_neighborhood(key, c),
        (spec_parent(key) matches Some(p) && spec_parent(c) == Some(p)) ==> in_stitch_neighborhood(key, c),
        c == spec_cell_neighbor(key, side) ==> in_stitch_neighborhood(key, c),
        spec_parent(spec_cell_neighbor(key, side)) == Some(c) ==> in_stitch_neighborhood(key, c),
        spec_parent(c) == Some(spec_cell_neighbor(key, side)) ==> in_stitch_neighborhood(key, c),
{
    match side {
        NeighborSide::NegU => assert(near_across(key, NeighborSide::NegU, c) == near_across(key, side, c)),
        NeighborSide::PosU => assert(near_across(key, NeighborSide::PosU, c) == near_across(key, side, c)),
        NeighborSide::NegV => assert(near_across(key, NeighborSide::NegV, c) == near_across(key, side, c)),
        NeighborSide::PosV => assert(near_across(key, NeighborSide::PosV, c) == near_across(key, side, c)),
    }
}

/// The coarser-neighbour search, one level up, for a cell inside its face
/// whose same-level neighbour across `side` is not active: the search stops
/// when that neighbour is a sibling (it has the cell's parent), and when it
/// is not, the neighbour's parent is found whenever it is active.
pub proof fn lemma_coarser_neighbor_one_level_up(key: CellKey, side: NeighborSide, active: Map<CellKey, u64>)
    requires
        key.wf(),
        key.lod > 0,
        step_stays_on_face(key, side),
        !active.contains_key(spec_cell_neighbor(key, side)),
    ensures
        spec_parent(spec_cell_neighbor(key, side)) == spec_parent(key)
            ==> spec_coarser_neighbor(key, key.lod, side, active) is None,
        spec_parent(spec_cell_neighbor(key, side)) != spec_parent(key)
            && active.contains_key(spec_parent(spec_cell_neighbor(key, side))->Some_0)
            ==> spec_coarser_neighbor(key, key.lod, side, active) == spec_parent(spec_cell_neighbor(key, side)),
{
    let nb = spec_cell_neighbor(key, side);
    let p = spec_parent(key)->Some_0;
    lemma_cell_can_split(key);
    lemma_pow2_unfold(key.lod as nat);
    lemma_parent_is_cell(key);
    assert(edge_cells(key.lod) == 2 * edge_cells(p.lod));
    assert(on_parent_edge(key, side) <==> spec_parent(nb) != spec_parent(key));
    if on_parent_edge(key, side) {
        assert(step_stays_on_face(p, side));
        assert(spec_cell_neighbor(p, side) == spec_parent(nb)->Some_0);
        assert(spec_coarser_neighbor(key, key.lod, side, active) == spec_coarser_neighbor(p, key.lod, side, active));
        if active.contains_key(spec_parent(nb)->Some_0) {
            assert(spec_coarser_neighbor(p, key.lod, side, active) == Some(spec_parent(nb)->Some_0));
        }
    }
}

} // verus!
