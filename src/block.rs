use vstd::prelude::*;
use rle_vec::RleVec;
use crate::index::{Vec3i, Vec2i, in_chunk, linear_index, linearize, index_from_pos_2d,
    lemma_linear_index_bijective, CHUNK_VOLUME};
use crate::light::LightSource;
use std::sync::Arc;
use crate::light_cache::{LightPosCache, LightPosKind, surrounding_wf, after_insert, after_remove};
use crate::rle::{block_cells, blocks_from_vec, block_at, set_block_cell, block_cells_to_vec, block_run_values, same_values, clone_block_cells};

verus! {

/// Identifier of a texture, derived from its name.
#[derive(Clone, Copy, Debug, PartialEq, Eq, Hash, Structural)]
pub struct TextureID(pub u64);

/// Textures of a block: one for every face, or one each for top, sides and bottom.
#[derive(Clone, Copy, Debug, PartialEq, Eq, Hash, Structural)]
pub enum BlockTexture {
    Single(TextureID),
    Sided(TextureID, TextureID, TextureID),
}

/// A block value: its textures, transparency, solidity, emitted light and
/// whether it currently receives sunlight.
#[derive(Clone, Copy, Debug, PartialEq, Eq, Hash, Structural)]
pub struct Block {
    pub texture_id: Option<BlockTexture>,
    pub is_transparent: bool,
    pub is_solid: bool,
    pub light_source: Option<LightSource>,
    pub sunlit: bool,
}

/// Deferred light-source cache work for one cell.
#[derive(Clone, Copy, Debug, PartialEq, Eq, Hash, Structural)]
pub enum CacheUpdateActionKind {
    SunlightSource,
    AddLightSource,
    RemoveLightSource,
}

pub open spec fn is_rendered(b: Block) -> bool {
    b.texture_id is Some
}

pub open spec fn is_opaque(b: Block) -> bool {
    b.texture_id is Some && !b.is_transparent
}

pub open spec fn is_sunlit(b: Block) -> bool {
    b.sunlit && b.is_transparent
}

/// The air block: no texture, transparent, not solid, no light, not sunlit.
pub open spec fn air() -> Block {
    Block { texture_id: None, is_transparent: false, is_solid: false, light_source: None, sunlit: false }
}

impl Default for Block {
    fn default() -> (r: Block)
        ensures
            r == air(),
    {
        Block { texture_id: None, is_transparent: false, is_solid: false, light_source: None, sunlit: false }
    }
}

impl Block {
    pub fn is_rendered(&self) -> (r: bool)
        ensures
            r == is_rendered(*self),
    {
        self.texture_id.is_some()
    }

    pub fn is_transparent(&self) -> (r: bool)
        ensures
            r == self.is_transparent,
    {
        self.is_transparent
    }

    pub fn is_opaque(&self) -> (r: bool)
        ensures
            r == is_opaque(*self),
    {
        self.texture_id.is_some() && !self.is_transparent
    }

    pub fn is_sunlit(&self) -> (r: bool)
        ensures
            r == is_sunlit(*self),
    {
        self.sunlit && self.is_transparent
    }

    pub fn is_solid(&self) -> (r: bool)
        ensures
            r == self.is_solid,
    {
        self.is_solid
    }

    pub fn light_source(&self) -> (r: Option<LightSource>)
        ensures
            r == self.light_source,
    {
        self.light_source
    }

    pub fn set_light_source(&mut self, light_source: Option<LightSource>)
        ensures
            *final(self) == (Block { light_source, ..*old(self) }),
    {
        self.light_source = light_source;
    }

    pub fn set_sunlit(&mut self, sunlit: bool)
        ensures
            *final(self) == (Block { sunlit, ..*old(self) }),
    {
        self.sunlit = sunlit;
    }

    pub fn texture_id(&self) -> (r: Option<BlockTexture>)
        ensures
            r == self.texture_id,
    {
        self.texture_id
    }

    pub fn set_texture_id(&mut self, texture_id: Option<BlockTexture>)
        ensures
            *final(self) == (Block { texture_id, ..*old(self) }),
    {
        self.texture_id = texture_id;
    }

    /// Mutable access to the transparency flag.
    pub fn is_transparent_mut(&mut self) -> (r: &mut bool)
        ensures
            *r == old(self).is_transparent,
            *final(self) == (Block { is_transparent: *final(r), ..*old(self) }),
    {
        &mut self.is_transparent
    }

    /// Mutable access to the solidity flag.
    pub fn is_solid_mut(&mut self) -> (r: &mut bool)
        ensures
            *r == old(self).is_solid,
            *final(self) == (Block { is_solid: *final(r), ..*old(self) }),
    {
        &mut self.is_solid
    }

    pub fn set_transparent(&mut self, is_transparent: bool)
        ensures
            *final(self) == (Block { is_transparent, ..*old(self) }),
    {
        self.is_transparent = is_transparent;
    }

    pub fn set_solid(&mut self, is_solid: bool)
        ensures
            *final(self) == (Block { is_solid, ..*old(self) }),
    {
        self.is_solid = is_solid;
    }
}

/// The block at `(x, y, z)` of a chunk's cells.
pub open spec fn cell_at(cells: Seq<Block>, x: int, y: int, z: int) -> Block {
    cells[x + 32 * y + 1024 * z]
}

pub open spec fn opaque_at(cells: Seq<Block>, x: int, y: int, z: int) -> bool {
    is_opaque(cell_at(cells, x, y, z))
}

/// Whether the column `(x, z)` holds an opaque block.
pub open spec fn column_has_opaque(cells: Seq<Block>, x: int, z: int) -> bool {
    exists|y: int| 0 <= y < 32 && #[trigger] opaque_at(cells, x, y, z)
}

/// Whether the cell at height `y` of column `(x, z)` is sunlit once the column is
/// recomputed with sky visibility `sky`: it is transparent, the sky is visible and no
/// opaque block stands at its height or above.
pub open spec fn sunlit_after(cells: Seq<Block>, x: int, z: int, y: int, sky: bool) -> bool {
    cell_at(cells, x, y, z).is_transparent && sky && forall|y2: int| y <= y2 < 32 ==> !#[trigger] opaque_at(cells, x, y2, z)
}

/// Per-chunk storage of blocks with a column-opacity index, light-source caches and
/// pending cache work.
pub struct BlockBuffer {
    buffer: RleVec<Block>,
    collum_contains_opaque_blocks: Vec<bool>,
    light_source_cache: Option<LightPosCache>,
    sunlight_source_cache: Option<LightPosCache>,
    to_update_cache_later: Vec<(Vec3i, CacheUpdateActionKind)>,
}

impl BlockBuffer {
    /// The chunk's cells in linear order.
    pub closed spec fn cells(&self) -> Seq<Block> {
        block_cells(self.buffer)
    }

    /// The column-opacity index, one flag per column `z * 32 + x`.
    pub closed spec fn columns(&self) -> Seq<bool> {
        self.collum_contains_opaque_blocks@
    }

    pub closed spec fn light_cache(&self) -> Option<LightPosCache> {
        self.light_source_cache
    }

    pub closed spec fn sunlight_cache(&self) -> Option<LightPosCache> {
        self.sunlight_source_cache
    }

    /// Cache work queued by single-cell writes.
    pub closed spec fn pending(&self) -> Seq<(Vec3i, CacheUpdateActionKind)> {
        self.to_update_cache_later@
    }

    pub open spec fn block(&self, p: Vec3i) -> Block {
        self.cells()[linear_index(p)]
    }

    pub open spec fn wf(&self) -> bool {
        &&& self.cells().len() == 32768
        &&& self.columns().len() == 1024
        &&& forall|c: int| 0 <= c < 1024 ==> #[trigger] self.columns()[c] == column_has_opaque(self.cells(), c % 32, c / 32)
        &&& forall|i: int| 0 <= i < self.pending().len() ==> in_chunk(#[trigger] self.pending()[i].0)
        &&& (self.light_cache() matches Some(c) ==> c.wf() && c.kind() == LightPosKind::Light)
        &&& (self.sunlight_cache() matches Some(c) ==> c.wf() && c.kind() == LightPosKind::Sunlight)
    }

    /// Builds the storage and the column-opacity index from `CHUNK_SIZE³` blocks.
    pub fn new(blocks: Vec<Block>) -> (r: BlockBuffer)
        requires
            blocks@.len() == 32768,
        ensures
            r.wf(),
            r.cells() == blocks@,
            r.light_cache() is None,
            r.sunlight_cache() is None,
            r.pending().len() == 0,
    {
        let buffer = blocks_from_vec(blocks);
        let mut columns: Vec<bool> = Vec::new();
        let mut c: usize = 0;
        while c < 1024
            invariant
                c <= 1024,
                block_cells(buffer).len() == 32768,
                columns@.len() == c,
                forall|i: int| 0 <= i < c ==> #[trigger] columns@[i] == column_has_opaque(block_cells(buffer), i % 32, i / 32),
            decreases 1024 - c,
        {
            let flag = column_contains_opaque(&buffer, (c % 32) as i32, (c / 32) as i32);
            columns.push(flag);
            c = c + 1;
        }
        BlockBuffer {
            buffer,
            collum_contains_opaque_blocks: columns,
            light_source_cache: None,
            sunlight_source_cache: None,
            to_update_cache_later: Vec::new(),
        }
    }

    /// The block at an in-chunk position.
    pub fn get(&self, pos: &Vec3i) -> (r: &Block)
        requires
            self.wf(),
            in_chunk(*pos),
        ensures
            *r == self.block(*pos),
    {
        let i = linearize(pos);
        block_at(&self.buffer, i)
    }

    /// The cells in linear order.
    pub fn to_flat_array(&self) -> (r: Vec<Block>)
        ensures
            r@ == self.cells(),
    {
        block_cells_to_vec(&self.buffer)
    }

    /// Whether any cell holds a rendered block.
    pub fn contains_rendered_blocks(&self) -> (r: bool)
        requires
            self.wf(),
        ensures
            r == exists|i: int| 0 <= i < 32768 && is_rendered(#[trigger] self.cells()[i]),
    {
        let runs = block_run_values(&self.buffer);
        let mut j: usize = 0;
        while j < runs.len()
            invariant
                j <= runs@.len(),
                forall|k: int| 0 <= k < j ==> !is_rendered(#[trigger] runs@[k]),
                same_values(block_cells(self.buffer), runs@),
                self.wf(),
            decreases runs@.len() - j,
        {
            if runs[j].is_rendered() {
                proof {
                    assert(block_cells(self.buffer).contains(runs@[j as int]));
                    let i = choose|i: int| 0 <= i < block_cells(self.buffer).len() && block_cells(self.buffer)[i] == runs@[j as int];
                    assert(is_rendered(self.cells()[i]));
                }
                return true;
            }
            j = j + 1;
        }
        proof {
            assert forall|i: int| 0 <= i < 32768 implies !is_rendered(#[trigger] self.cells()[i]) by {
                assert(runs@.contains(block_cells(self.buffer)[i]));
            }
        }
        false
    }

    /// Whether the column `(collum.x, collum.y)` holds an opaque block.
    pub fn contains_collum_opaque_blocks(&self, collum: &Vec2i) -> (r: bool)
        requires
            self.wf(),
            0 <= collum.x < 32,
            0 <= collum.y < 32,
        ensures
            r == column_has_opaque(self.cells(), collum.x as int, collum.y as int),
    {
        let i = index_from_pos_2d(collum) as usize;
        self.collum_contains_opaque_blocks[i]
    }

    /// Replaces the block at an in-chunk position, refreshes that column's opacity flag
    /// and queues cache work for every neighbour (itself included) inside the chunk.
    pub fn set(&mut self, in_chunk_pos: &Vec3i, block: Block)
        requires
            old(self).wf(),
            in_chunk(*in_chunk_pos),
        ensures
            final(self).wf(),
            final(self).cells() == old(self).cells().update(linear_index(*in_chunk_pos), block),
            final(self).block(*in_chunk_pos) == block,
            final(self).columns()[in_chunk_pos.z * 32 + in_chunk_pos.x]
                == column_has_opaque(final(self).cells(), in_chunk_pos.x as int, in_chunk_pos.z as int),
            final(self).light_cache() == old(self).light_cache(),
            final(self).sunlight_cache() == old(self).sunlight_cache(),
            final(self).pending().len() >= old(self).pending().len(),
            final(self).pending().subrange(0, old(self).pending().len() as int) == old(self).pending(),
            forall|i: int| old(self).pending().len() <= i < final(self).pending().len() ==>
                action_holds(final(self).cells(), #[trigger] final(self).pending()[i]),
            forall|q: Vec3i| in_chunk(q) && #[trigger] near(*in_chunk_pos, q) ==> queued(final(self).pending(), old(self).pending().len() as int, q),
    {
        let ghost old_pending = self.pending();
        let i = linearize(in_chunk_pos);
        set_block_cell(&mut self.buffer, i, block);
        proof {
            lemma_other_columns(old(self).cells(), *in_chunk_pos, block);
        }
        let collum = Vec2i { x: in_chunk_pos.x, y: in_chunk_pos.z };
        let flag = column_contains_opaque(&self.buffer, in_chunk_pos.x, in_chunk_pos.z);
        let ci = index_from_pos_2d(&collum) as usize;
        self.collum_contains_opaque_blocks.set(ci, flag);
        assert(self.wf());
        let mut k: i32 = 0;
        while k < 27
            invariant
                0 <= k <= 27,
                in_chunk(*in_chunk_pos),
                self.wf(),
                self.cells() == old(self).cells().update(linear_index(*in_chunk_pos), block),
                self.light_cache() == old(self).light_cache(),
                self.sunlight_cache() == old(self).sunlight_cache(),
                self.pending().len() >= old_pending.len(),
                self.pending().subrange(0, old_pending.len() as int) == old_pending,
                old_pending == old(self).pending(),
                forall|j: int| old_pending.len() <= j < self.pending().len() ==>
                    action_holds(self.cells(), #[trigger] self.pending()[j]),
                forall|q: Vec3i| in_chunk(q) && #[trigger] near(*in_chunk_pos, q) && near_index(*in_chunk_pos, q) < k
                    ==> queued(self.pending(), old_pending.len() as int, q),
            decreases 27 - k,
        {
            let nb = Vec3i {
                x: in_chunk_pos.x + (k / 9 - 1),
                y: in_chunk_pos.y + ((k / 3) % 3 - 1),
                z: in_chunk_pos.z + (k % 3 - 1),
            };
            let ghost before = self.pending();
            if 0 <= nb.x && nb.x < 32 && 0 <= nb.y && nb.y < 32 && 0 <= nb.z && nb.z < 32 {
                let neighbour = *self.get(&nb);
                let kind = if neighbour.light_source.is_some() {
                    CacheUpdateActionKind::AddLightSource
                } else {
                    CacheUpdateActionKind::RemoveLightSource
                };
                self.to_update_cache_later.push((nb, kind));
                if neighbour.is_transparent() {
                    self.to_update_cache_later.push((nb, CacheUpdateActionKind::SunlightSource));
                }
                assert(self.pending().subrange(0, old_pending.len() as int) == old_pending);
            }
            proof {
                assert forall|q: Vec3i| in_chunk(q) && #[trigger] near(*in_chunk_pos, q) && near_index(*in_chunk_pos, q) < k + 1
                    implies queued(self.pending(), old_pending.len() as int, q) by {
                    if near_index(*in_chunk_pos, q) < k {
                        assert(queued(before, old_pending.len() as int, q));
                        let j = choose|j: int| old_pending.len() <= j < before.len() && (#[trigger] before[j]).0 == q
                            && before[j].1 != CacheUpdateActionKind::SunlightSource;
                        assert(self.pending()[j] == before[j]);
                    } else {
                        assert(q == nb);
                        assert(self.pending()[before.len() as int].0 == q);
                    }
                }
            }
            k = k + 1;
        }
    }

    /// Recomputes the sunlight flags of column `(collum.x, collum.y)` from the top down:
    /// transparent blocks are sunlit until the first opaque block (or throughout when the
    /// top does not see the sky: none). Queues a sunlight cache update for every cell.
    pub fn update_sunlight_in_collum(&mut self, collum: &Vec2i, highest_block_in_chunk_sees_sky: bool)
        requires
            old(self).wf(),
            0 <= collum.x < 32,
            0 <= collum.y < 32,
        ensures
            final(self).wf(),
            final(self).cells().len() == 32768,
            forall|x: int, y: int, z: int| 0 <= x < 32 && 0 <= y < 32 && 0 <= z < 32 ==>
                #[trigger] cell_at(final(self).cells(), x, y, z) == sun_updated(old(self).cells(), collum.x as int,
                    collum.y as int, highest_block_in_chunk_sees_sky, x, y, z),
            final(self).light_cache() == old(self).light_cache(),
            final(self).sunlight_cache() == old(self).sunlight_cache(),
            final(self).pending().len() == old(self).pending().len() + 32,
            final(self).pending().subrange(0, old(self).pending().len() as int) == old(self).pending(),
    {
        let ghost old_cells = self.cells();
        let ghost old_pending = self.pending();
        let sky = highest_block_in_chunk_sees_sky;
        let x = collum.x;
        let z = collum.y;
        let mut found_visible = !sky;
        let mut k: i32 = 0;
        while k < 32
            invariant
                0 <= k <= 32,
                0 <= x < 32,
                0 <= z < 32,
                old_cells == old(self).cells(),
                old_pending == old(self).pending(),
                old_cells.len() == 32768,
                self.cells().len() == 32768,
                self.columns() == old(self).columns(),
                self.light_cache() == old(self).light_cache(),
                self.sunlight_cache() == old(self).sunlight_cache(),
                old(self).wf(),
                forall|i: int| 0 <= i < self.pending().len() ==> in_chunk(#[trigger] self.pending()[i].0),
                self.pending().len() == old_pending.len() + k,
                self.pending().subrange(0, old_pending.len() as int) == old_pending,
                found_visible == (!sky || exists|y2: int| 32 - k <= y2 < 32 && #[trigger] opaque_at(old_cells, x as int, y2, z as int)),
                forall|x2: int, y2: int, z2: int| 0 <= x2 < 32 && 0 <= y2 < 32 && 0 <= z2 < 32 ==>
                    #[trigger] cell_at(self.cells(), x2, y2, z2) == (if x2 == x && z2 == z && y2 >= 32 - k {
                        sun_updated(old_cells, x as int, z as int, sky, x2, y2, z2)
                    } else {
                        cell_at(old_cells, x2, y2, z2)
                    }),
            decreases 32 - k,
        {
            let y = 31 - k;
            let p = Vec3i { x, y, z };
            let block = *self.get_unchecked_len(&p);
            if !found_visible && block.is_opaque() {
                found_visible = true;
            }
            let mut updated = block;
            updated.sunlit = if block.is_transparent { !found_visible } else { false };
            let i = linearize(&p);
            proof {
                assert(cell_at(self.cells(), x as int, y as int, z as int) == block);
                assert(cell_at(old_cells, x as int, y as int, z as int) == block);
                if exists|y2: int| 32 - (k + 1) <= y2 < 32 && #[trigger] opaque_at(old_cells, x as int, y2, z as int) {
                    let y2 = choose|y2: int| 32 - (k + 1) <= y2 < 32 && #[trigger] opaque_at(old_cells, x as int, y2, z as int);
                    if y2 != y {
                        assert(32 - k <= y2 < 32 && opaque_at(old_cells, x as int, y2, z as int));
                    }
                }
                if exists|y2: int| 32 - k <= y2 < 32 && #[trigger] opaque_at(old_cells, x as int, y2, z as int) {
                    let y2 = choose|y2: int| 32 - k <= y2 < 32 && #[trigger] opaque_at(old_cells, x as int, y2, z as int);
                    assert(32 - (k + 1) <= y2 < 32 && opaque_at(old_cells, x as int, y2, z as int));
                }
                if is_opaque(block) {
                    assert(opaque_at(old_cells, x as int, y as int, z as int));
                }
            }
            let ghost before = self.cells();
            set_block_cell(&mut self.buffer, i, updated);
            proof {
                assert forall|x2: int, y2: int, z2: int| 0 <= x2 < 32 && 0 <= y2 < 32 && 0 <= z2 < 32 &&
                    !(x2 == x && y2 == y && z2 == z) implies
                    #[trigger] cell_at(self.cells(), x2, y2, z2) == cell_at(before, x2, y2, z2) by {
                    let q = Vec3i { x: x2 as i32, y: y2 as i32, z: z2 as i32 };
                    if linear_index(q) == linear_index(p) {
                        lemma_linear_index_injective(q, p);
                    }
                }
                assert(sunlit_after(old_cells, x as int, z as int, y as int, sky) == updated.sunlit) by {
                    if block.is_transparent && !found_visible {
                        assert forall|y2: int| y <= y2 < 32 implies !#[trigger] opaque_at(old_cells, x as int, y2, z as int) by {
                            if y2 == y {
                            } else {
                            }
                        }
                    }
                }
            }
            self.to_update_cache_later.push((p, CacheUpdateActionKind::SunlightSource));
            proof {
                assert(self.pending().subrange(0, old_pending.len() as int) == old_pending);
            }
            k = k + 1;
        }
        proof {
            assert forall|x2: int, y2: int, z2: int| 0 <= x2 < 32 && 0 <= y2 < 32 && 0 <= z2 < 32 implies
                #[trigger] opaque_at(self.cells(), x2, y2, z2) == opaque_at(old_cells, x2, y2, z2) by {
                assert(cell_at(self.cells(), x2, y2, z2) == cell_at(old_cells, x2, y2, z2) || (x2 == x && z2 == z));
            }
            assert forall|c: int| 0 <= c < 1024 implies #[trigger] self.columns()[c] == column_has_opaque(self.cells(), c % 32, c / 32) by {
                assert(old(self).columns()[c] == column_has_opaque(old_cells, c % 32, c / 32));
                if column_has_opaque(old_cells, c % 32, c / 32) {
                    let y2 = choose|y2: int| 0 <= y2 < 32 && #[trigger] opaque_at(old_cells, c % 32, y2, c / 32);
                    assert(opaque_at(self.cells(), c % 32, y2, c / 32));
                }
                if column_has_opaque(self.cells(), c % 32, c / 32) {
                    let y2 = choose|y2: int| 0 <= y2 < 32 && #[trigger] opaque_at(self.cells(), c % 32, y2, c / 32);
                    assert(opaque_at(old_cells, c % 32, y2, c / 32));
                }
            }
        }
    }

    fn get_unchecked_len(&self, pos: &Vec3i) -> (r: &Block)
        requires
            self.cells().len() == 32768,
            in_chunk(*pos),
        ensures
            *r == self.block(*pos),
    {
        let i = linearize(pos);
        block_at(&self.buffer, i)
    }

    /// Applies and clears the queued cache work, using the 27 buffers around this chunk.
    /// Caches that were never computed stay absent.
    pub fn do_cache_updates(&mut self, surrounding_blocks: &Vec<Arc<BlockBuffer>>)
        requires
            old(self).wf(),
            surrounding_wf(surrounding_blocks@),
        ensures
            final(self).wf(),
            final(self).cells() == old(self).cells(),
            final(self).pending().len() == 0,
            final(self).light_cache() is Some == old(self).light_cache() is Some,
            final(self).sunlight_cache() is Some == old(self).sunlight_cache() is Some,
            final(self).light_cache() matches Some(c) ==>
                c@ == light_seeds_after(surrounding_blocks@, old(self).light_cache().unwrap()@, old(self).pending()),
            final(self).sunlight_cache() matches Some(c) ==>
                c@ == sun_seeds_after(surrounding_blocks@, old(self).cells(), old(self).sunlight_cache().unwrap()@, old(self).pending()),
    {
        let mut to_update: Vec<(Vec3i, CacheUpdateActionKind)> = Vec::new();
        std::mem::swap(&mut to_update, &mut self.to_update_cache_later);
        let mut light: Option<LightPosCache> = None;
        std::mem::swap(&mut light, &mut self.light_source_cache);
        let mut sun: Option<LightPosCache> = None;
        std::mem::swap(&mut sun, &mut self.sunlight_source_cache);
        let ghost had_light = old(self).light_cache() is Some;
        let ghost had_sun = old(self).sunlight_cache() is Some;
        assert(to_update@ == old(self).pending());
        assert forall|j: int| 0 <= j < to_update@.len() implies in_chunk(#[trigger] to_update@[j].0) by {
            assert(in_chunk(old(self).pending()[j].0));
        }
        let mut i: usize = 0;
        while i < to_update.len()
            invariant
                i <= to_update@.len(),
                forall|j: int| 0 <= j < to_update@.len() ==> in_chunk(#[trigger] to_update@[j].0),
                to_update@ == old(self).pending(),
                surrounding_wf(surrounding_blocks@),
                self.cells() == old(self).cells(),
                self.columns() == old(self).columns(),
                self.pending().len() == 0,
                self.cells().len() == 32768,
                light is Some == had_light,
                sun is Some == had_sun,
                had_light == (old(self).light_cache() is Some),
                had_sun == (old(self).sunlight_cache() is Some),
                light matches Some(c) ==> c.wf() && c.kind() == LightPosKind::Light,
                sun matches Some(c) ==> c.wf() && c.kind() == LightPosKind::Sunlight,
                light matches Some(c) ==> c@ == light_seeds_after(surrounding_blocks@, old(self).light_cache().unwrap()@,
                    to_update@.subrange(0, i as int)),
                sun matches Some(c) ==> c@ == sun_seeds_after(surrounding_blocks@, old(self).cells(),
                    old(self).sunlight_cache().unwrap()@, to_update@.subrange(0, i as int)),
            decreases to_update@.len() - i,
        {
            let (pos, kind) = to_update[i];
            proof {
                let sub = to_update@.subrange(0, i + 1);
                assert(sub.drop_last() =~= to_update@.subrange(0, i as int));
                assert(sub.last() == to_update@[i as int]);
            }
            match kind {
                CacheUpdateActionKind::SunlightSource => {
                    let block = *self.get_unchecked_len(&pos);
                    match sun {
                        Some(mut c) => {
                            c.remove(pos, surrounding_blocks);
                            if block.is_sunlit() {
                                c.insert(pos, surrounding_blocks);
                            }
                            sun = Some(c);
                        },
                        None => {},
                    }
                },
                CacheUpdateActionKind::AddLightSource => {
                    match light {
                        Some(mut c) => {
                            c.insert(pos, surrounding_blocks);
                            light = Some(c);
                        },
                        None => {},
                    }
                },
                CacheUpdateActionKind::RemoveLightSource => {
                    match light {
                        Some(mut c) => {
                            c.remove(pos, surrounding_blocks);
                            light = Some(c);
                        },
                        None => {},
                    }
                },
            }
            i = i + 1;
        }
        proof {
            assert(to_update@.subrange(0, to_update@.len() as int) =~= to_update@);
        }
        self.light_source_cache = light;
        self.sunlight_source_cache = sun;
        assert(self.columns() == old(self).columns());
    }

    /// A copy of the whole buffer (used for copy-on-write).
    pub fn duplicate(&self) -> (r: BlockBuffer)
        requires
            self.wf(),
        ensures
            r.wf(),
            r.cells() == self.cells(),
            r.columns() == self.columns(),
            r.pending() == self.pending(),
            r.light_cache() is Some == self.light_cache() is Some,
            r.sunlight_cache() is Some == self.sunlight_cache() is Some,
            r.light_cache() matches Some(c) ==> c.positions() == self.light_cache().unwrap().positions(),
            r.sunlight_cache() matches Some(c) ==> c.positions() == self.sunlight_cache().unwrap().positions(),
    {
        let columns = self.collum_contains_opaque_blocks.clone();
        assert(columns@ =~= self.collum_contains_opaque_blocks@);
        let mut pending: Vec<(Vec3i, CacheUpdateActionKind)> = Vec::new();
        let mut i: usize = 0;
        while i < self.to_update_cache_later.len()
            invariant
                i <= self.to_update_cache_later@.len(),
                pending@ == self.to_update_cache_later@.subrange(0, i as int),
            decreases self.to_update_cache_later@.len() - i,
        {
            pending.push(self.to_update_cache_later[i]);
            assert(pending@ =~= self.to_update_cache_later@.subrange(0, i + 1));
            i = i + 1;
        }
        assert(pending@ =~= self.to_update_cache_later@);
        let light = match &self.light_source_cache {
            Some(c) => Some(c.duplicate()),
            None => None,
        };
        let sun = match &self.sunlight_source_cache {
            Some(c) => Some(c.duplicate()),
            None => None,
        };
        let r = BlockBuffer {
            buffer: clone_block_cells(&self.buffer),
            collum_contains_opaque_blocks: columns,
            light_source_cache: light,
            sunlight_source_cache: sun,
            to_update_cache_later: pending,
        };
        assert(r.cells() == self.cells());
        assert(r.columns() == self.columns());
        assert(r.pending() == self.pending());
        assert(r.light_cache() matches Some(c) ==> c.wf() && c.kind() == LightPosKind::Light);
        assert(r.sunlight_cache() matches Some(c) ==> c.wf() && c.kind() == LightPosKind::Sunlight);
        r
    }

    /// The block at a linear cell index.
    pub fn get_linear(&self, i: usize) -> (r: &Block)
        requires
            self.wf(),
            i < CHUNK_VOLUME,
        ensures
            *r == self.cells()[i as int],
    {
        block_at(&self.buffer, i)
    }

    pub fn light_sources(&self) -> (r: &Option<LightPosCache>)
        ensures
            *r == self.light_cache(),
    {
        &self.light_source_cache
    }

    pub fn sunlight_sources(&self) -> (r: &Option<LightPosCache>)
        ensures
            *r == self.sunlight_cache(),
    {
        &self.sunlight_source_cache
    }

    /// Installs freshly computed light-source caches.
    pub fn set_light_source_caches(&mut self, light_source_cache: LightPosCache, sunlight_source_cache: LightPosCache)
        requires
            old(self).wf(),
            light_source_cache.wf(),
            sunlight_source_cache.wf(),
            light_source_cache.kind() == LightPosKind::Light,
            sunlight_source_cache.kind() == LightPosKind::Sunlight,
        ensures
            final(self).wf(),
            final(self).cells() == old(self).cells(),
            final(self).pending() == old(self).pending(),
            final(self).light_cache() == Some(light_source_cache),
            final(self).sunlight_cache() == Some(sunlight_source_cache),
    {
        self.light_source_cache = Some(light_source_cache);
        self.sunlight_source_cache = Some(sunlight_source_cache);
        assert(self.columns() == old(self).columns());
        assert(self.cells() == old(self).cells());
        assert(self.pending() == old(self).pending());
    }
}

/// The coloured-light seeds after applying queued actions in order.
pub open spec fn light_seeds_after(surr: Seq<Arc<BlockBuffer>>, v: Set<Vec3i>, actions: Seq<(Vec3i, CacheUpdateActionKind)>) -> Set<Vec3i>
    decreases actions.len(),
{
    if actions.len() == 0 {
        v
    } else {
        let prev = light_seeds_after(surr, v, actions.drop_last());
        let (p, kind) = actions.last();
        match kind {
            CacheUpdateActionKind::AddLightSource => after_insert(LightPosKind::Light, surr, prev, p),
            CacheUpdateActionKind::RemoveLightSource => after_remove(LightPosKind::Light, surr, prev, p),
            CacheUpdateActionKind::SunlightSource => prev,
        }
    }
}

/// The sunlight seeds after applying queued actions in order: each sunlight action removes
/// the cell and offers it again when it is sunlit.
pub open spec fn sun_seeds_after(
    surr: Seq<Arc<BlockBuffer>>,
    cells: Seq<Block>,
    v: Set<Vec3i>,
    actions: Seq<(Vec3i, CacheUpdateActionKind)>,
) -> Set<Vec3i>
    decreases actions.len(),
{
    if actions.len() == 0 {
        v
    } else {
        let prev = sun_seeds_after(surr, cells, v, actions.drop_last());
        let (p, kind) = actions.last();
        match kind {
            CacheUpdateActionKind::SunlightSource => {
                let removed = after_remove(LightPosKind::Sunlight, surr, prev, p);
                if is_sunlit(cells[linear_index(p)]) {
                    after_insert(LightPosKind::Sunlight, surr, removed, p)
                } else {
                    removed
                }
            },
            _ => prev,
        }
    }
}

/// `q` lies in the 3×3×3 block of cells centred on `p`.
pub open spec fn near(p: Vec3i, q: Vec3i) -> bool {
    -1 <= q.x - p.x <= 1 && -1 <= q.y - p.y <= 1 && -1 <= q.z - p.z <= 1
}

/// Position of `q` in the order in which the neighbours of `p` are visited (x slowest).
pub open spec fn near_index(p: Vec3i, q: Vec3i) -> int {
    (q.x - p.x + 1) * 9 + (q.y - p.y + 1) * 3 + (q.z - p.z + 1)
}

/// A light-source action (add or remove) for `q` was queued at index `from` or later.
pub open spec fn queued(pending: Seq<(Vec3i, CacheUpdateActionKind)>, from: int, q: Vec3i) -> bool {
    exists|j: int| from <= j < pending.len() && (#[trigger] pending[j]).0 == q
        && pending[j].1 != CacheUpdateActionKind::SunlightSource
}

/// Whether a queued cache action agrees with the cell it names.
pub open spec fn action_holds(cells: Seq<Block>, a: (Vec3i, CacheUpdateActionKind)) -> bool {
    &&& in_chunk(a.0)
    &&& match a.1 {
        CacheUpdateActionKind::AddLightSource => cells[linear_index(a.0)].light_source is Some,
        CacheUpdateActionKind::RemoveLightSource => cells[linear_index(a.0)].light_source is None,
        CacheUpdateActionKind::SunlightSource => cells[linear_index(a.0)].is_transparent,
    }
}

/// The cell `(x, y, z)` after the sunlight of column `(cx, cz)` is recomputed.
pub open spec fn sun_updated(cells: Seq<Block>, cx: int, cz: int, sky: bool, x: int, y: int, z: int) -> Block {
    if x == cx && z == cz {
        Block { sunlit: sunlit_after(cells, cx, cz, y, sky), ..cell_at(cells, x, y, z) }
    } else {
        cell_at(cells, x, y, z)
    }
}

/// Writing one cell leaves the opacity of every other column as it was.
proof fn lemma_other_columns(cells: Seq<Block>, p: Vec3i, b: Block)
    requires
        cells.len() == 32768,
        in_chunk(p),
    ensures
        forall|c: int| 0 <= c < 1024 && c != p.z * 32 + p.x ==>
            #[trigger] column_has_opaque(cells.update(linear_index(p), b), c % 32, c / 32) == column_has_opaque(cells, c % 32, c / 32),
{
    let new = cells.update(linear_index(p), b);
    assert forall|c: int| 0 <= c < 1024 && c != p.z * 32 + p.x implies
        #[trigger] column_has_opaque(new, c % 32, c / 32) == column_has_opaque(cells, c % 32, c / 32) by {
        assert(c == (c / 32) * 32 + c % 32);
        assert forall|y: int| 0 <= y < 32 implies #[trigger] opaque_at(new, c % 32, y, c / 32) == opaque_at(cells, c % 32, y, c / 32) by {
            let q = Vec3i { x: (c % 32) as i32, y: y as i32, z: (c / 32) as i32 };
            if linear_index(q) == linear_index(p) {
                lemma_linear_index_injective(q, p);
            }
        }
        if column_has_opaque(new, c % 32, c / 32) {
            let y = choose|y: int| 0 <= y < 32 && #[trigger] opaque_at(new, c % 32, y, c / 32);
            assert(opaque_at(cells, c % 32, y, c / 32));
        }
        if column_has_opaque(cells, c % 32, c / 32) {
            let y = choose|y: int| 0 <= y < 32 && #[trigger] opaque_at(cells, c % 32, y, c / 32);
            assert(opaque_at(new, c % 32, y, c / 32));
        }
    }
}

/// Sunlight in a column: with the sky visible and no opaque block in the column, every
/// transparent cell is sunlit; placing one opaque block at height `y0` leaves every cell
/// below it unsunlit and every cell above it as it was.
pub proof fn lemma_sunlight_column(cells: Seq<Block>, x: int, z: int, y0: int, b: Block, sky: bool)
    requires
        cells.len() == 32768,
        0 <= x < 32,
        0 <= z < 32,
        0 <= y0 < 32,
        is_opaque(b),
    ensures
        !column_has_opaque(cells, x, z) ==> forall|y: int| 0 <= y < 32 && cell_at(cells, x, y, z).is_transparent ==>
            #[trigger] sunlit_after(cells, x, z, y, true),
        forall|y: int| 0 <= y <= y0 ==>
            !#[trigger] sunlit_after(cells.update(x + 32 * y0 + 1024 * z, b), x, z, y, sky),
        forall|y: int| y0 < y < 32 ==>
            #[trigger] sunlit_after(cells.update(x + 32 * y0 + 1024 * z, b), x, z, y, sky) == sunlit_after(cells, x, z, y, sky),
{
    let new = cells.update(x + 32 * y0 + 1024 * z, b);
    let p = Vec3i { x: x as i32, y: y0 as i32, z: z as i32 };
    assert forall|y2: int| 0 <= y2 < 32 && y2 != y0 implies #[trigger] cell_at(new, x, y2, z) == cell_at(cells, x, y2, z) by {
        let q = Vec3i { x: x as i32, y: y2 as i32, z: z as i32 };
        if linear_index(q) == linear_index(p) {
            lemma_linear_index_injective(q, p);
        }
    }
    assert(opaque_at(new, x, y0, z));
    assert forall|y: int| 0 <= y <= y0 implies !#[trigger] sunlit_after(new, x, z, y, sky) by {
        assert(opaque_at(new, x, y0, z));
    }
    assert forall|y: int| y0 < y < 32 implies
        #[trigger] sunlit_after(new, x, z, y, sky) == sunlit_after(cells, x, z, y, sky) by {
        assert(cell_at(new, x, y, z) == cell_at(cells, x, y, z));
        assert forall|y2: int| y <= y2 < 32 implies #[trigger] opaque_at(new, x, y2, z) == opaque_at(cells, x, y2, z) by {
            assert(cell_at(new, x, y2, z) == cell_at(cells, x, y2, z));
        }
        if sunlit_after(new, x, z, y, sky) {
            assert forall|y2: int| y <= y2 < 32 implies !#[trigger] opaque_at(cells, x, y2, z) by {
                assert(!opaque_at(new, x, y2, z));
            }
        }
        if sunlit_after(cells, x, z, y, sky) {
            assert forall|y2: int| y <= y2 < 32 implies !#[trigger] opaque_at(new, x, y2, z) by {
                assert(!opaque_at(cells, x, y2, z));
            }
        }
    }
    if !column_has_opaque(cells, x, z) {
        assert forall|y: int| 0 <= y < 32 && cell_at(cells, x, y, z).is_transparent implies
            #[trigger] sunlit_after(cells, x, z, y, true) by {
            assert forall|y2: int| y <= y2 < 32 implies !#[trigger] opaque_at(cells, x, y2, z) by {
                if opaque_at(cells, x, y2, z) {
                    assert(column_has_opaque(cells, x, z));
                }
            }
        }
    }
}

proof fn lemma_linear_index_injective(p: Vec3i, q: Vec3i)
    requires
        in_chunk(p),
        in_chunk(q),
        linear_index(p) == linear_index(q),
    ensures
        p == q,
{
    lemma_linear_index_bijective(p);
    lemma_linear_index_bijective(q);
}

/// Whether the column `(x, z)` of `buffer` holds an opaque block.
fn column_contains_opaque(buffer: &RleVec<Block>, x: i32, z: i32) -> (r: bool)
    requires
        block_cells(*buffer).len() == 32768,
        0 <= x < 32,
        0 <= z < 32,
    ensures
        r == column_has_opaque(block_cells(*buffer), x as int, z as int),
{
    let mut y: i32 = 0;
    while y < 32
        invariant
            0 <= y <= 32,
            0 <= x < 32,
            0 <= z < 32,
            block_cells(*buffer).len() == 32768,
            forall|y2: int| 0 <= y2 < y ==> !#[trigger] opaque_at(block_cells(*buffer), x as int, y2, z as int),
        decreases 32 - y,
    {
        let i = linearize(&Vec3i { x, y, z });
        if block_at(buffer, i).is_opaque() {
            assert(opaque_at(block_cells(*buffer), x as int, y as int, z as int));
            return true;
        }
        y = y + 1;
    }
    false
}

} // verus!
