use vstd::prelude::*;
use std::sync::Arc;
use crate::index::{Vec3i, in_chunk, linear_index, cell_of_index, cube_index, cube_offset, lemma_index_cell_roundtrip,
    lemma_linear_index_bijective, index_from_relative_pos_surrounding_cubes, relative_pos_surrounding_cubes_from_index};
use crate::face::{FaceDirection, face_of_index, face_index, step};
use crate::block::{Block, BlockBuffer, is_opaque, is_sunlit};
use crate::chunk::{coordinate_in_surrounding_buffers_cube, chunk_offset_of, wrapped};

verus! {

/// Which seeds a light-position cache holds.
#[derive(Clone, Copy, Debug, PartialEq, Eq, Hash, Structural)]
pub enum LightPosKind {
    /// Emitting blocks whose light can leave them.
    Light,
    /// Sunlit cells at the border of sunlight.
    Sunlight,
}

/// The 27 block buffers around a chunk (index `cube_index` of the offset), all well formed.
pub open spec fn surrounding_wf(surr: Seq<Arc<BlockBuffer>>) -> bool {
    &&& surr.len() == 27
    &&& forall|i: int| 0 <= i < 27 ==> (#[trigger] surr[i]).wf()
}

/// The block at a position given relative to the centre chunk of a 3×3×3 neighbourhood.
pub open spec fn rel_block(surr: Seq<Arc<BlockBuffer>>, p: Vec3i) -> Block {
    surr[cube_index(chunk_offset_of(p))].block(wrapped(p))
}

/// The block across face `f` of position `p`.
pub open spec fn face_block(surr: Seq<Arc<BlockBuffer>>, p: Vec3i, f: FaceDirection) -> Block {
    rel_block(surr, step(p, f))
}

pub open spec fn l1(o: Vec3i) -> int {
    crate::index::abs(o.x as int) + crate::index::abs(o.y as int) + crate::index::abs(o.z as int)
}

pub open spec fn shifted(p: Vec3i, o: Vec3i) -> Vec3i {
    Vec3i { x: (p.x + o.x) as i32, y: (p.y + o.y) as i32, z: (p.z + o.z) as i32 }
}

/// The neighbour at cube index `i` (an edge or corner neighbour when `l1 >= 2`) is opaque.
pub open spec fn diagonal_opaque_at(surr: Seq<Arc<BlockBuffer>>, p: Vec3i, i: int) -> bool {
    l1(cube_offset(i)) >= 2 && is_opaque(rel_block(surr, shifted(p, cube_offset(i))))
}

pub open spec fn diagonal_opaque(surr: Seq<Arc<BlockBuffer>>, p: Vec3i) -> bool {
    exists|i: int| 0 <= i < 27 && #[trigger] diagonal_opaque_at(surr, p, i)
}

/// Some face neighbour of `p` is not opaque.
pub open spec fn face_open(surr: Seq<Arc<BlockBuffer>>, p: Vec3i) -> bool {
    exists|f: FaceDirection| !is_opaque(#[trigger] face_block(surr, p, f))
}

pub open spec fn face_opaque(surr: Seq<Arc<BlockBuffer>>, p: Vec3i) -> bool {
    exists|f: FaceDirection| is_opaque(#[trigger] face_block(surr, p, f))
}

pub open spec fn dark_transparent(b: Block) -> bool {
    b.is_transparent && !is_sunlit(b)
}

pub open spec fn face_dark(surr: Seq<Arc<BlockBuffer>>, p: Vec3i) -> bool {
    exists|f: FaceDirection| dark_transparent(#[trigger] face_block(surr, p, f))
}

/// Whether a position qualifies as a seed of the given kind: light can leave an emitter
/// through a face that is not opaque; a sunlit cell borders an opaque block (face, edge or corner)
/// and an unsunlit transparent face neighbour.
pub open spec fn seed_ok(kind: LightPosKind, surr: Seq<Arc<BlockBuffer>>, p: Vec3i) -> bool {
    match kind {
        LightPosKind::Light => face_open(surr, p),
        LightPosKind::Sunlight => (diagonal_opaque(surr, p) || face_opaque(surr, p)) && face_dark(surr, p),
    }
}

/// Whether a block is a candidate seed of the given kind at all.
pub open spec fn seed_kind(kind: LightPosKind, b: Block) -> bool {
    match kind {
        LightPosKind::Light => b.light_source is Some,
        LightPosKind::Sunlight => is_sunlit(b),
    }
}

/// The in-chunk seeds of a neighbourhood's centre chunk.
pub open spec fn seeds(kind: LightPosKind, surr: Seq<Arc<BlockBuffer>>) -> Set<Vec3i> {
    Set::new(|q: Vec3i| in_chunk(q) && seed_kind(kind, rel_block(surr, q)) && seed_ok(kind, surr, q))
}

/// Face neighbours among the first `n` faces of `p` that qualify as seeds again.
pub open spec fn reinserted(kind: LightPosKind, surr: Seq<Arc<BlockBuffer>>, p: Vec3i, n: int) -> Set<Vec3i> {
    Set::new(|q: Vec3i| exists|j: int| 0 <= j < n && q == step(p, face_of_index(j)) && #[trigger] seed_at(kind, surr, q, j))
}

pub open spec fn seed_at(kind: LightPosKind, surr: Seq<Arc<BlockBuffer>>, q: Vec3i, j: int) -> bool {
    in_chunk(q) && seed_kind(kind, rel_block(surr, q)) && seed_ok(kind, surr, q)
}

/// The seeds after offering `p` to `insert`.
pub open spec fn after_insert(kind: LightPosKind, surr: Seq<Arc<BlockBuffer>>, v: Set<Vec3i>, p: Vec3i) -> Set<Vec3i> {
    if in_chunk(p) && seed_ok(kind, surr, p) { v.insert(p) } else { v }
}

/// The seeds after `remove(p)`.
pub open spec fn after_remove(kind: LightPosKind, surr: Seq<Arc<BlockBuffer>>, v: Set<Vec3i>, p: Vec3i) -> Set<Vec3i> {
    v.union(reinserted(kind, surr, p, 6)).remove(p)
}

/// The block at a position relative to the centre chunk of a neighbourhood.
pub fn block_in_surrounding(surrounding_blocks: &Vec<Arc<BlockBuffer>>, p: Vec3i) -> (r: Block)
    requires
        surrounding_wf(surrounding_blocks@),
    ensures
        r == rel_block(surrounding_blocks@, p),
{
    let (c, q) = coordinate_in_surrounding_buffers_cube(p);
    let idx = index_from_relative_pos_surrounding_cubes(&c) as usize;
    let buffer: &BlockBuffer = &surrounding_blocks[idx];
    assert(buffer.wf());
    *buffer.get(&q)
}

fn any_diagonal_opaque(surrounding_blocks: &Vec<Arc<BlockBuffer>>, p: Vec3i) -> (r: bool)
    requires
        surrounding_wf(surrounding_blocks@),
        in_chunk(p),
    ensures
        r == diagonal_opaque(surrounding_blocks@, p),
{
    let mut i: u8 = 0;
    while i < 27
        invariant
            i <= 27,
            in_chunk(p),
            surrounding_wf(surrounding_blocks@),
            forall|j: int| 0 <= j < i ==> !#[trigger] diagonal_opaque_at(surrounding_blocks@, p, j),
        decreases 27 - i,
    {
        let o = relative_pos_surrounding_cubes_from_index(i);
        let d = (if o.x < 0 { -o.x } else { o.x }) + (if o.y < 0 { -o.y } else { o.y }) + (if o.z < 0 { -o.z } else { o.z });
        if d >= 2 {
            let b = block_in_surrounding(surrounding_blocks, Vec3i { x: p.x + o.x, y: p.y + o.y, z: p.z + o.z });
            if b.is_opaque() {
                assert(diagonal_opaque_at(surrounding_blocks@, p, i as int));
                return true;
            }
        }
        i = i + 1;
    }
    false
}

/// A set of in-chunk positions that seed light propagation.
pub struct LightPosCache {
    kind: LightPosKind,
    cache: Vec<Vec3i>,
}

impl LightPosCache {
    pub closed spec fn kind(&self) -> LightPosKind {
        self.kind
    }

    /// The positions, in insertion order.
    pub closed spec fn positions(&self) -> Seq<Vec3i> {
        self.cache@
    }

    pub open spec fn view(&self) -> Set<Vec3i> {
        self.positions().to_set()
    }

    pub open spec fn wf(&self) -> bool {
        &&& self.positions().no_duplicates()
        &&& forall|i: int| 0 <= i < self.positions().len() ==> in_chunk(#[trigger] self.positions()[i])
    }

    /// Computes the seeds of the centre chunk of a neighbourhood.
    pub fn new(kind: LightPosKind, surrounding_blocks: &Vec<Arc<BlockBuffer>>) -> (r: LightPosCache)
        requires
            surrounding_wf(surrounding_blocks@),
        ensures
            r.wf(),
            r.kind() == kind,
            r@ == seeds(kind, surrounding_blocks@),
    {
        let mut out = LightPosCache { kind, cache: Vec::new() };
        let ghost surr = surrounding_blocks@;
        let mut i: usize = 0;
        proof {
            assert(out@ =~= Set::new(|q: Vec3i| in_chunk(q) && linear_index(q) < 0 && seed_kind(kind, rel_block(surr, q)) && seed_ok(kind, surr, q)));
        }
        while i < 32768
            invariant
                i <= 32768,
                surr == surrounding_blocks@,
                surrounding_wf(surr),
                out.wf(),
                out.kind() == kind,
                out@ == Set::new(|q: Vec3i| in_chunk(q) && linear_index(q) < i && seed_kind(kind, rel_block(surr, q)) && seed_ok(kind, surr, q)),
            decreases 32768 - i,
        {
            let q = Vec3i { x: (i % 32) as i32, y: ((i / 32) % 32) as i32, z: (i / 1024) as i32 };
            proof {
                lemma_index_cell_roundtrip(i as int);
                assert(q == cell_of_index(i as int));
            }
            let b = block_in_surrounding(surrounding_blocks, q);
            let candidate = match kind {
                LightPosKind::Light => b.light_source.is_some(),
                LightPosKind::Sunlight => b.is_sunlit(),
            };
            let ghost before = out@;
            if candidate {
                out.insert(q, surrounding_blocks);
            }
            proof {
                assert(out@ =~= Set::new(|q2: Vec3i| in_chunk(q2) && linear_index(q2) < i + 1 && seed_kind(kind, rel_block(surr, q2)) && seed_ok(kind, surr, q2))) by {
                    assert forall|q2: Vec3i| in_chunk(q2) && linear_index(q2) == i implies q2 == q by {
                        lemma_linear_index_bijective(q2);
                    }
                }
            }
            i = i + 1;
        }
        proof {
            assert(out@ =~= seeds(kind, surr)) by {
                assert forall|q2: Vec3i| in_chunk(q2) implies linear_index(q2) < 32768 by {
                    lemma_linear_index_bijective(q2);
                }
            }
        }
        out
    }

    /// The positions, in insertion order.
    pub fn cache(&self) -> (r: &Vec<Vec3i>)
        ensures
            r@ == self.positions(),
    {
        &self.cache
    }

    fn contains(&self, p: &Vec3i) -> (r: bool)
        ensures
            r == self@.contains(*p),
    {
        let mut i: usize = 0;
        while i < self.cache.len()
            invariant
                i <= self.cache@.len(),
                forall|j: int| 0 <= j < i ==> self.cache@[j] != *p,
            decreases self.cache@.len() - i,
        {
            if self.cache[i] == *p {
                assert(self.positions().contains(*p));
                return true;
            }
            i = i + 1;
        }
        false
    }

    fn add(&mut self, p: Vec3i)
        requires
            old(self).wf(),
            in_chunk(p),
        ensures
            final(self).wf(),
            final(self).kind() == old(self).kind(),
            final(self)@ == old(self)@.insert(p),
    {
        if !self.contains(&p) {
            self.cache.push(p);
            proof {
                let s0 = old(self).positions();
                let s1 = self.positions();
                assert(s1 == s0.push(p));
                assert forall|x: Vec3i| #[trigger] s1.contains(x) == (s0.contains(x) || x == p) by {
                    if x == p {
                        assert(s1[s0.len() as int] == p);
                    }
                    if s0.contains(x) {
                        let j = choose|j: int| 0 <= j < s0.len() && s0[j] == x;
                        assert(s1[j] == x);
                    }
                    if s1.contains(x) {
                        let j = choose|j: int| 0 <= j < s1.len() && s1[j] == x;
                        if j < s0.len() {
                            assert(s0[j] == x);
                        }
                    }
                }
                assert(self@ =~= old(self)@.insert(p));
            }
        } else {
            assert(old(self)@.insert(p) =~= old(self)@);
        }
    }

    /// Adds `in_chunk_pos` when it lies in the chunk and qualifies as a seed of this cache's kind.
    pub fn insert(&mut self, in_chunk_pos: Vec3i, surrounding_blocks: &Vec<Arc<BlockBuffer>>)
        requires
            old(self).wf(),
            surrounding_wf(surrounding_blocks@),
        ensures
            final(self).wf(),
            final(self).kind() == old(self).kind(),
            final(self)@ == (if in_chunk(in_chunk_pos) && seed_ok(old(self).kind(), surrounding_blocks@, in_chunk_pos) {
                old(self)@.insert(in_chunk_pos)
            } else {
                old(self)@
            }),
    {
        let p = in_chunk_pos;
        let ghost surr = surrounding_blocks@;
        if 0 <= p.x && p.x < 32 && 0 <= p.y && p.y < 32 && 0 <= p.z && p.z < 32 {
            let sun = match self.kind {
                LightPosKind::Light => false,
                LightPosKind::Sunlight => true,
            };
            let mut found_opaque = false;
            let mut found_transparent_unsunlit = false;
            if sun {
                found_opaque = any_diagonal_opaque(surrounding_blocks, p);
            }
            let mut i: usize = 0;
            while i < 6
                invariant
                    i <= 6,
                    in_chunk(p),
                    surr == surrounding_blocks@,
                    surrounding_wf(surr),
                    *self == *old(self),
                    old(self).wf(),
                    p == in_chunk_pos,
                    sun == (self.kind() == LightPosKind::Sunlight),
                    sun ==> found_opaque == (diagonal_opaque(surr, p) || exists|j: int| 0 <= j < i && is_opaque(#[trigger] face_block(surr, p, face_of_index(j)))),
                    sun ==> found_transparent_unsunlit == (exists|j: int| 0 <= j < i && dark_transparent(#[trigger] face_block(surr, p, face_of_index(j)))),
                    sun ==> !(found_opaque && found_transparent_unsunlit),
                    !sun ==> forall|j: int| 0 <= j < i ==> is_opaque(#[trigger] face_block(surr, p, face_of_index(j))),
                decreases 6 - i,
            {
                let face = FaceDirection::from_index(i).unwrap();
                let dir = face.as_dir();
                let nb = block_in_surrounding(surrounding_blocks, Vec3i { x: p.x + dir.x, y: p.y + dir.y, z: p.z + dir.z });
                assert(nb == face_block(surr, p, face_of_index(i as int)));
                if sun {
                    if nb.is_opaque() {
                        found_opaque = true;
                    }
                    if nb.is_transparent() && !nb.is_sunlit() {
                        found_transparent_unsunlit = true;
                    }
                }
                let qualifies = if sun { found_opaque && found_transparent_unsunlit } else { !nb.is_opaque() };
                if qualifies {
                    proof {
                        let f = face_of_index(i as int);
                        if sun {
                            assert(face_dark(surr, p)) by {
                                let j = choose|j: int| 0 <= j < i + 1 && dark_transparent(#[trigger] face_block(surr, p, face_of_index(j)));
                                assert(dark_transparent(face_block(surr, p, face_of_index(j))));
                            }
                            if !diagonal_opaque(surr, p) {
                                let j = choose|j: int| 0 <= j < i + 1 && is_opaque(#[trigger] face_block(surr, p, face_of_index(j)));
                                assert(is_opaque(face_block(surr, p, face_of_index(j))));
                            }
                            assert(face_opaque(surr, p) || diagonal_opaque(surr, p));
                            assert(self.kind() == LightPosKind::Sunlight);
                            assert(seed_ok(self.kind(), surr, p));
                        } else {
                            assert(!is_opaque(face_block(surr, p, f)));
                            assert(face_open(surr, p));
                            assert(self.kind() == LightPosKind::Light);
                            assert(seed_ok(self.kind(), surr, p));
                        }
                    }
                    self.add(p);
                    return;
                }
                i = i + 1;
            }
            proof {
                assert forall|f: FaceDirection| #![auto] true implies face_of_index(face_index(f)) == f && 0 <= face_index(f) < 6 by {}
                if sun {
                    if face_dark(surr, p) {
                        let f = choose|f: FaceDirection| dark_transparent(#[trigger] face_block(surr, p, f));
                        assert(dark_transparent(face_block(surr, p, face_of_index(face_index(f)))));
                    }
                    if face_opaque(surr, p) {
                        let f = choose|f: FaceDirection| is_opaque(#[trigger] face_block(surr, p, f));
                        assert(is_opaque(face_block(surr, p, face_of_index(face_index(f)))));
                    }
                } else {
                    if face_open(surr, p) {
                        let f = choose|f: FaceDirection| !is_opaque(#[trigger] face_block(surr, p, f));
                        assert(!is_opaque(face_block(surr, p, face_of_index(face_index(f)))));
                    }
                }
            }
        }
    }

    fn delete(&mut self, p: Vec3i)
        requires
            old(self).wf(),
        ensures
            final(self).wf(),
            final(self).kind() == old(self).kind(),
            final(self)@ == old(self)@.remove(p),
    {
        let mut i: usize = 0;
        while i < self.cache.len()
            invariant
                i <= self.cache@.len(),
                *self == *old(self),
                old(self).wf(),
                forall|j: int| 0 <= j < i ==> self.cache@[j] != p,
            decreases self.cache@.len() - i,
        {
            if self.cache[i] == p {
                let ghost s0 = self.positions();
                self.cache.remove(i);
                proof {
                    let s1 = self.positions();
                    assert(s1 == s0.remove(i as int));
                    assert forall|a: int, b: int| 0 <= a < s1.len() && 0 <= b < s1.len() && a != b implies s1[a] != s1[b] by {
                        let a0 = if a < i { a } else { a + 1 };
                        let b0 = if b < i { b } else { b + 1 };
                        assert(s1[a] == s0[a0] && s1[b] == s0[b0]);
                    }
                    assert forall|x: Vec3i| #[trigger] s1.contains(x) == (s0.contains(x) && x != p) by {
                        if s1.contains(x) {
                            let a = choose|a: int| 0 <= a < s1.len() && s1[a] == x;
                            let a0 = if a < i { a } else { a + 1 };
                            assert(s0[a0] == x);
                        }
                        if s0.contains(x) && x != p {
                            let a0 = choose|a0: int| 0 <= a0 < s0.len() && s0[a0] == x;
                            assert(a0 != i);
                            let a = if a0 < i { a0 } else { a0 - 1 };
                            assert(s1[a] == x);
                        }
                    }
                    assert forall|j: int| 0 <= j < s1.len() implies in_chunk(#[trigger] s1[j]) by {
                        let j0 = if j < i { j } else { j + 1 };
                        assert(s1[j] == s0[j0]);
                    }
                    assert(self@ =~= old(self)@.remove(p));
                }
                return;
            }
            i = i + 1;
        }
        proof {
            assert(!self.positions().contains(p));
            assert(self@ =~= old(self)@.remove(p));
        }
    }

    /// Removes `in_chunk_pos`; before that, every face neighbour that holds a seed candidate
    /// of this cache's kind is offered to `insert` again.
    pub fn remove(&mut self, in_chunk_pos: Vec3i, surrounding_blocks: &Vec<Arc<BlockBuffer>>)
        requires
            old(self).wf(),
            surrounding_wf(surrounding_blocks@),
            in_chunk(in_chunk_pos),
        ensures
            final(self).wf(),
            final(self).kind() == old(self).kind(),
            final(self)@ == old(self)@.union(reinserted(old(self).kind(), surrounding_blocks@, in_chunk_pos, 6)).remove(in_chunk_pos),
    {
        let p = in_chunk_pos;
        let ghost surr = surrounding_blocks@;
        let ghost kind = self.kind();
        let mut i: usize = 0;
        proof {
            assert(old(self)@.union(reinserted(kind, surr, p, 0)) =~= old(self)@);
        }
        while i < 6
            invariant
                i <= 6,
                p == in_chunk_pos,
                in_chunk(p),
                surr == surrounding_blocks@,
                surrounding_wf(surr),
                kind == old(self).kind(),
                self.wf(),
                self.kind() == kind,
                self@ == old(self)@.union(reinserted(kind, surr, p, i as int)),
            decreases 6 - i,
        {
            let face = FaceDirection::from_index(i).unwrap();
            let dir = face.as_dir();
            let q = Vec3i { x: p.x + dir.x, y: p.y + dir.y, z: p.z + dir.z };
            assert(q == step(p, face_of_index(i as int)));
            let b = block_in_surrounding(surrounding_blocks, q);
            let candidate = match self.kind {
                LightPosKind::Light => b.light_source.is_some(),
                LightPosKind::Sunlight => b.is_sunlit(),
            };
            let ghost before = self@;
            if candidate {
                self.insert(q, surrounding_blocks);
            }
            proof {
                assert(self@ =~= old(self)@.union(reinserted(kind, surr, p, i + 1))) by {
                    assert forall|x: Vec3i| #[trigger] reinserted(kind, surr, p, i + 1).contains(x) ==
                        (reinserted(kind, surr, p, i as int).contains(x) || (x == q && seed_at(kind, surr, q, i as int))) by {
                        if reinserted(kind, surr, p, i + 1).contains(x) {
                            let j = choose|j: int| 0 <= j < i + 1 && x == step(p, face_of_index(j)) && #[trigger] seed_at(kind, surr, x, j);
                            if j < i {
                                assert(seed_at(kind, surr, x, j));
                            } else {
                                assert(seed_at(kind, surr, q, i as int));
                            }
                        }
                        if reinserted(kind, surr, p, i as int).contains(x) {
                            let j = choose|j: int| 0 <= j < i && x == step(p, face_of_index(j)) && #[trigger] seed_at(kind, surr, x, j);
                            assert(seed_at(kind, surr, x, j));
                        }
                        if x == q && seed_at(kind, surr, q, i as int) {
                            assert(seed_at(kind, surr, x, i as int));
                        }
                    }
                }
            }
            i = i + 1;
        }
        self.delete(p);
    }

    /// A copy with the same kind and positions in the same order.
    pub fn duplicate(&self) -> (r: LightPosCache)
        ensures
            r.kind() == self.kind(),
            r.positions() == self.positions(),
    {
        let cache = self.cache.clone();
        assert(cache@ =~= self.cache@);
        LightPosCache { kind: self.kind, cache }
    }
}

} // verus!
