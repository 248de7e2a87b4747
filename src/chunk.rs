use vstd::prelude::*;
use std::sync::Arc;
use crate::index::{Vec3i, Vec2i, in_chunk, linear_index};
use crate::block::{Block, BlockBuffer, BlockTexture, column_has_opaque, is_sunlit, cell_at, sun_updated};
use crate::light::LightBuffer;
use crate::light_cache::{LightPosCache, LightPosKind, surrounding_wf};
use crate::mesh::MeshBuffer;

verus! {

/// Which neighbour chunk (-1, 0 or 1) a coordinate relative to a chunk falls into, along one axis.
pub open spec fn chunk_step(v: int) -> int {
    if v < 0 { -1 } else if v >= 32 { 1 } else { 0 }
}

/// The neighbour chunk that a position relative to a chunk falls into.
pub open spec fn chunk_offset_of(p: Vec3i) -> Vec3i {
    Vec3i { x: chunk_step(p.x as int) as i32, y: chunk_step(p.y as int) as i32, z: chunk_step(p.z as int) as i32 }
}

/// The position inside that neighbour chunk (each component taken modulo 32).
pub open spec fn wrapped(p: Vec3i) -> Vec3i {
    Vec3i { x: (p.x as int % 32) as i32, y: (p.y as int % 32) as i32, z: (p.z as int % 32) as i32 }
}

fn wrap_coord(v: i32) -> (r: i32)
    ensures
        r as int == v as int % 32,
        0 <= r < 32,
{
    let m = v % 32;
    if m < 0 { m + 32 } else { m }
}

fn step_coord(v: i32) -> (r: i32)
    ensures
        r as int == chunk_step(v as int),
{
    if v < 0 { -1 } else if v >= 32 { 1 } else { 0 }
}

/// Like `coordinate_in_surrounding_buffers_cube`, but only for the chunk itself and its six
/// face neighbours: absent for edge and corner neighbours.
pub fn coordinate_in_surrounding_buffers(in_chunk_pos: Vec3i) -> (r: Option<(Vec3i, Vec3i)>)
    ensures
        r is Some <==> crate::index::is_face_offset(chunk_offset_of(in_chunk_pos)),
        r matches Some(v) ==> v.0 == chunk_offset_of(in_chunk_pos) && v.1 == wrapped(in_chunk_pos) && in_chunk(v.1),
{
    let (c, q) = coordinate_in_surrounding_buffers_cube(in_chunk_pos);
    let ax = if c.x < 0 { -c.x } else { c.x };
    let ay = if c.y < 0 { -c.y } else { c.y };
    let az = if c.z < 0 { -c.z } else { c.z };
    if ax + ay + az > 1 {
        None
    } else {
        Some((c, q))
    }
}

/// Splits a position relative to a chunk into the neighbour chunk it falls into
/// (each component -1, 0 or 1) and the position inside that chunk.
pub fn coordinate_in_surrounding_buffers_cube(in_chunk_pos: Vec3i) -> (r: (Vec3i, Vec3i))
    ensures
        r.0 == chunk_offset_of(in_chunk_pos),
        r.1 == wrapped(in_chunk_pos),
        in_chunk(r.1),
        in_chunk(in_chunk_pos) ==> r.0 == (Vec3i { x: 0, y: 0, z: 0 }) && r.1 == in_chunk_pos,
{
    (
        Vec3i { x: step_coord(in_chunk_pos.x), y: step_coord(in_chunk_pos.y), z: step_coord(in_chunk_pos.z) },
        Vec3i { x: wrap_coord(in_chunk_pos.x), y: wrap_coord(in_chunk_pos.y), z: wrap_coord(in_chunk_pos.z) },
    )
}


/// Digest that `rustc_hash::FxHasher` gives for a sequence of words.
pub uninterp spec fn fx_hash_of(words: Seq<u64>) -> u64;

/// Relies on `rustc_hash::FxHasher` fed with `Hash::hash_slice`: the digest is a
/// deterministic function of the words.
#[verifier::external_body]
fn fx_hash_words(words: &Vec<u64>) -> (r: u64)
    ensures
        r == fx_hash_of(words@),
{
    let mut hasher = rustc_hash::FxHasher::default();
    std::hash::Hash::hash_slice(words.as_slice(), &mut hasher);
    std::hash::Hasher::finish(&hasher)
}

pub open spec fn texture_words(t: Option<BlockTexture>) -> Seq<u64> {
    match t {
        None => seq![0u64, 0u64, 0u64, 0u64],
        Some(BlockTexture::Single(a)) => seq![1u64, a.0, 0u64, 0u64],
        Some(BlockTexture::Sided(a, b, c)) => seq![2u64, a.0, b.0, c.0],
    }
}

pub open spec fn flag_word(b: Block) -> u64 {
    ((if b.is_transparent { 1u64 } else { 0u64 }) + (if b.is_solid { 2u64 } else { 0u64 }) + (if b.sunlit { 4u64 } else { 0u64 })) as u64
}

pub open spec fn light_word(b: Block) -> u64 {
    match b.light_source {
        None => 0u64,
        Some(l) => (1u64 + (if l.red { 2u64 } else { 0u64 }) + (if l.green { 4u64 } else { 0u64 })
            + (if l.blue { 8u64 } else { 0u64 }) + 16u64 * (l.strength as u64)) as u64,
    }
}

/// The words that stand for one block in a content digest.
pub open spec fn block_words(b: Block) -> Seq<u64> {
    seq![flag_word(b)] + texture_words(b.texture_id) + seq![light_word(b)]
}

/// The words that stand for a sequence of blocks, block after block.
pub open spec fn cells_words(cells: Seq<Block>) -> Seq<u64>
    decreases cells.len(),
{
    if cells.len() == 0 {
        Seq::empty()
    } else {
        cells_words(cells.drop_last()) + block_words(cells.last())
    }
}

/// Content digest of a chunk's blocks.
pub open spec fn content_hash(cells: Seq<Block>) -> u64 {
    fx_hash_of(cells_words(cells))
}

fn push_block_words(words: &mut Vec<u64>, b: &Block)
    ensures
        final(words)@ == old(words)@ + block_words(*b),
{
    let flags: u64 = (if b.is_transparent { 1u64 } else { 0u64 }) + (if b.is_solid { 2u64 } else { 0u64 })
        + (if b.sunlit { 4u64 } else { 0u64 });
    words.push(flags);
    match b.texture_id {
        None => {
            words.push(0);
            words.push(0);
            words.push(0);
            words.push(0);
        },
        Some(BlockTexture::Single(a)) => {
            words.push(1);
            words.push(a.0);
            words.push(0);
            words.push(0);
        },
        Some(BlockTexture::Sided(a, bb, c)) => {
            words.push(2);
            words.push(a.0);
            words.push(bb.0);
            words.push(c.0);
        },
    }
    let light: u64 = match b.light_source {
        None => 0,
        Some(l) => 1u64 + (if l.red { 2u64 } else { 0u64 }) + (if l.green { 4u64 } else { 0u64 })
            + (if l.blue { 8u64 } else { 0u64 }) + 16u64 * (l.strength as u64),
    };
    words.push(light);
    assert(words@ =~= old(words)@ + block_words(*b));
}

/// Content digest of a block buffer's cells.
pub fn block_buffer_hash(blocks: &BlockBuffer) -> (r: u64)
    requires
        blocks.wf(),
    ensures
        r == content_hash(blocks.cells()),
{
    let mut words: Vec<u64> = Vec::new();
    let mut i: usize = 0;
    while i < 32768
        invariant
            i <= 32768,
            blocks.wf(),
            words@ == cells_words(blocks.cells().subrange(0, i as int)),
        decreases 32768 - i,
    {
        let b = blocks.get_linear(i);
        push_block_words(&mut words, b);
        proof {
            let sub = blocks.cells().subrange(0, i + 1);
            assert(sub.drop_last() =~= blocks.cells().subrange(0, i as int));
            assert(sub.last() == blocks.cells()[i as int]);
        }
        i = i + 1;
    }
    assert(blocks.cells().subrange(0, 32768) =~= blocks.cells());
    fx_hash_words(&words)
}

/// A chunk's blocks (shared, replaced as a whole on every change) and its light, if computed.
pub struct ChunkData {
    blocks: Arc<BlockBuffer>,
    lights: Option<Arc<LightBuffer>>,
}

impl ChunkData {
    pub closed spec fn block_buffer(&self) -> BlockBuffer {
        *self.blocks
    }

    pub closed spec fn light_buffer(&self) -> Option<LightBuffer> {
        match self.lights {
            Some(l) => Some(*l),
            None => None,
        }
    }

    pub open spec fn wf(&self) -> bool {
        &&& self.block_buffer().wf()
        &&& (self.light_buffer() matches Some(l) ==> l.wf())
    }

    pub fn new(blocks: BlockBuffer) -> (r: ChunkData)
        requires
            blocks.wf(),
        ensures
            r.wf(),
            r.block_buffer() == blocks,
            r.light_buffer() is None,
    {
        ChunkData { blocks: Arc::new(blocks), lights: None }
    }

    /// Writes one block into a fresh copy of the buffer; returns the column's opacity
    /// flag before and after.
    pub fn set_block(&mut self, in_chunk_pos: &Vec3i, block: Block) -> (r: (bool, bool))
        requires
            old(self).wf(),
            in_chunk(*in_chunk_pos),
        ensures
            final(self).wf(),
            final(self).block_buffer().cells() == old(self).block_buffer().cells().update(linear_index(*in_chunk_pos), block),
            final(self).light_buffer() == old(self).light_buffer(),
            r.0 == column_has_opaque(old(self).block_buffer().cells(), in_chunk_pos.x as int, in_chunk_pos.z as int),
            r.1 == column_has_opaque(final(self).block_buffer().cells(), in_chunk_pos.x as int, in_chunk_pos.z as int),
    {
        let collum = Vec2i { x: in_chunk_pos.x, y: in_chunk_pos.z };
        let before = self.blocks.contains_collum_opaque_blocks(&collum);
        let mut blocks = self.blocks.duplicate();
        blocks.set(in_chunk_pos, block);
        let after = blocks.contains_collum_opaque_blocks(&collum);
        self.blocks = Arc::new(blocks);
        (before, after)
    }

    pub fn blocks(&self) -> (r: Arc<BlockBuffer>)
        ensures
            *r == self.block_buffer(),
    {
        self.blocks.clone()
    }

    pub fn lights(&self) -> (r: Option<Arc<LightBuffer>>)
        ensures
            r matches Some(l) ==> self.light_buffer() == Some(*l),
            r is None <==> self.light_buffer() is None,
    {
        match &self.lights {
            Some(l) => Some(l.clone()),
            None => None,
        }
    }

    pub fn set_lights(&mut self, lights: LightBuffer)
        requires
            old(self).wf(),
            lights.wf(),
        ensures
            final(self).wf(),
            final(self).block_buffer() == old(self).block_buffer(),
            final(self).light_buffer() == Some(lights),
    {
        self.lights = Some(Arc::new(lights));
    }

    pub fn set_light_source_caches(&mut self, light_source_cache: LightPosCache, sunlight_source_cache: LightPosCache)
        requires
            old(self).wf(),
            light_source_cache.wf(),
            sunlight_source_cache.wf(),
            light_source_cache.kind() == LightPosKind::Light,
            sunlight_source_cache.kind() == LightPosKind::Sunlight,
        ensures
            final(self).wf(),
            final(self).block_buffer().cells() == old(self).block_buffer().cells(),
            final(self).block_buffer().light_cache() == Some(light_source_cache),
            final(self).block_buffer().sunlight_cache() == Some(sunlight_source_cache),
            final(self).light_buffer() == old(self).light_buffer(),
    {
        let mut blocks = self.blocks.duplicate();
        blocks.set_light_source_caches(light_source_cache, sunlight_source_cache);
        self.blocks = Arc::new(blocks);
    }

    /// Recomputes the sunlight of one column with the given sky visibility.
    pub fn update_sunlight_in_collum(&mut self, collum: &Vec2i, highest_block_in_chunk_sees_sky: bool)
        requires
            old(self).wf(),
            0 <= collum.x < 32,
            0 <= collum.y < 32,
        ensures
            final(self).wf(),
            final(self).light_buffer() == old(self).light_buffer(),
            forall|x: int, y: int, z: int| 0 <= x < 32 && 0 <= y < 32 && 0 <= z < 32 ==>
                #[trigger] cell_at(final(self).block_buffer().cells(), x, y, z) == sun_updated(old(self).block_buffer().cells(),
                    collum.x as int, collum.y as int, highest_block_in_chunk_sees_sky, x, y, z),
    {
        let mut blocks = self.blocks.duplicate();
        blocks.update_sunlight_in_collum(collum, highest_block_in_chunk_sees_sky);
        self.blocks = Arc::new(blocks);
    }

    /// Recomputes the sunlight of one column, taking sky visibility from whether its top
    /// cell is sunlit.
    pub fn refresh_sunlight_in_collum(&mut self, collum: &Vec2i)
        requires
            old(self).wf(),
            0 <= collum.x < 32,
            0 <= collum.y < 32,
        ensures
            final(self).wf(),
            final(self).light_buffer() == old(self).light_buffer(),
            forall|x: int, y: int, z: int| 0 <= x < 32 && 0 <= y < 32 && 0 <= z < 32 ==>
                #[trigger] cell_at(final(self).block_buffer().cells(), x, y, z) == sun_updated(old(self).block_buffer().cells(),
                    collum.x as int, collum.y as int, is_sunlit(cell_at(old(self).block_buffer().cells(), collum.x as int, 31, collum.y as int)), x, y, z),
    {
        let mut blocks = self.blocks.duplicate();
        let top = *blocks.get(&Vec3i { x: collum.x, y: 31, z: collum.y });
        blocks.update_sunlight_in_collum(collum, top.is_sunlit());
        self.blocks = Arc::new(blocks);
    }

    pub fn do_cache_updates(&mut self, surrounding_blocks: &Vec<Arc<BlockBuffer>>)
        requires
            old(self).wf(),
            surrounding_wf(surrounding_blocks@),
        ensures
            final(self).wf(),
            final(self).block_buffer().cells() == old(self).block_buffer().cells(),
            final(self).block_buffer().pending().len() == 0,
            final(self).light_buffer() == old(self).light_buffer(),
    {
        let mut blocks = self.blocks.duplicate();
        blocks.do_cache_updates(surrounding_blocks);
        self.blocks = Arc::new(blocks);
    }
}


/// No cell of column `(x, z)` at or below an opaque block of that column is sunlit.
pub open spec fn shaded_below(cells: Seq<Block>, x: int, z: int) -> bool {
    forall|y: int, y2: int| 0 <= y <= y2 < 32 && #[trigger] crate::block::opaque_at(cells, x, y2, z)
        ==> !is_sunlit(#[trigger] cell_at(cells, x, y, z))
}

/// Recomputing a column leaves it shaded below its opaque blocks and every other column as it was.
proof fn lemma_sun_update_shades(new: Seq<Block>, old: Seq<Block>, cx: int, cz: int, sky: bool)
    requires
        0 <= cx < 32,
        0 <= cz < 32,
        forall|x: int, y: int, z: int| 0 <= x < 32 && 0 <= y < 32 && 0 <= z < 32 ==>
            #[trigger] cell_at(new, x, y, z) == sun_updated(old, cx, cz, sky, x, y, z),
    ensures
        shaded_below(new, cx, cz),
        forall|x: int, y: int, z: int| 0 <= x < 32 && 0 <= y < 32 && 0 <= z < 32 && !(x == cx && z == cz)
            ==> #[trigger] cell_at(new, x, y, z) == cell_at(old, x, y, z),
{
    assert forall|y: int, y2: int| 0 <= y <= y2 < 32 && #[trigger] crate::block::opaque_at(new, cx, y2, cz)
        implies !is_sunlit(#[trigger] cell_at(new, cx, y, cz)) by {
        assert(cell_at(new, cx, y2, cz) == sun_updated(old, cx, cz, sky, cx, y2, cz));
        assert(crate::block::opaque_at(old, cx, y2, cz));
        assert(cell_at(new, cx, y, cz) == sun_updated(old, cx, cz, sky, cx, y, cz));
    }
}

/// Shading of a column depends on that column's cells alone.
pub proof fn lemma_shaded_kept(new: Seq<Block>, old: Seq<Block>, x: int, z: int)
    requires
        shaded_below(old, x, z),
        forall|y: int| 0 <= y < 32 ==> #[trigger] cell_at(new, x, y, z) == cell_at(old, x, y, z),
    ensures
        shaded_below(new, x, z),
{
    assert forall|y: int, y2: int| 0 <= y <= y2 < 32 && #[trigger] crate::block::opaque_at(new, x, y2, z)
        implies !is_sunlit(#[trigger] cell_at(new, x, y, z)) by {
        assert(cell_at(new, x, y2, z) == cell_at(old, x, y2, z));
        assert(cell_at(new, x, y, z) == cell_at(old, x, y, z));
        assert(crate::block::opaque_at(old, x, y2, z));
    }
}

/// A block with its sunlight flag cleared: what a sunlight update leaves alone.
pub open spec fn unsunned(b: Block) -> Block {
    Block { sunlit: false, ..b }
}

/// A loaded chunk: its data, the digest of its blocks, and for each derived artefact
/// (light-source caches, light, mesh) the content digest it was last requested for.
pub struct Chunk {
    data: ChunkData,
    hash: u64,
    light_pos_cache_requested_for_state: Option<u64>,
    lights_requested_for_state: Option<u64>,
    lights_up_to_date: bool,
    mesh: Option<MeshBuffer>,
    mesh_requested_for_state: Option<u64>,
    mesh_up_to_date: bool,
}

/// Whether a response made for content digest `for_state` is taken by a chunk whose
/// current digest is `current` and whose request was recorded for `requested`.
pub open spec fn accepts(requested: Option<u64>, current: u64, for_state: u64) -> bool {
    requested == Some(current) && for_state == current
}

/// Staleness: once the content digest has moved from `h` to `h2`, a request recorded for
/// `h` no longer counts as outstanding and a response made for `h` is refused.
pub proof fn lemma_stale_response_refused(requested: Option<u64>, h: u64, h2: u64, for_state: u64)
    requires
        requested == Some(h),
        for_state == h,
        h != h2,
    ensures
        requested != Some(h2),
        !accepts(requested, h2, for_state),
{
}

impl Chunk {
    pub closed spec fn data(&self) -> ChunkData {
        self.data
    }

    /// The digest of the chunk's blocks.
    pub closed spec fn state(&self) -> u64 {
        self.hash
    }

    pub closed spec fn mesh_request(&self) -> Option<u64> {
        self.mesh_requested_for_state
    }

    pub closed spec fn lights_request(&self) -> Option<u64> {
        self.lights_requested_for_state
    }

    pub closed spec fn cache_request(&self) -> Option<u64> {
        self.light_pos_cache_requested_for_state
    }

    pub closed spec fn mesh_fresh(&self) -> bool {
        self.mesh_up_to_date
    }

    pub closed spec fn lights_fresh(&self) -> bool {
        self.lights_up_to_date
    }

    pub closed spec fn has_mesh(&self) -> bool {
        self.mesh is Some
    }

    pub open spec fn cells(&self) -> Seq<Block> {
        self.data().block_buffer().cells()
    }

    pub open spec fn wf(&self) -> bool {
        &&& self.data().wf()
        &&& self.state() == content_hash(self.cells())
    }

    pub fn new(blocks: BlockBuffer) -> (r: Chunk)
        requires
            blocks.wf(),
        ensures
            r.wf(),
            r.data().block_buffer() == blocks,
            r.data().light_buffer() is None,
            r.mesh_request() is None,
            r.lights_request() is None,
            r.cache_request() is None,
            !r.mesh_fresh(),
            !r.lights_fresh(),
            !r.has_mesh(),
    {
        let hash = block_buffer_hash(&blocks);
        Chunk {
            data: ChunkData::new(blocks),
            hash,
            light_pos_cache_requested_for_state: None,
            lights_requested_for_state: None,
            lights_up_to_date: false,
            mesh: None,
            mesh_requested_for_state: None,
            mesh_up_to_date: false,
        }
    }

    pub fn blocks(&self) -> (r: Arc<BlockBuffer>)
        ensures
            *r == self.data().block_buffer(),
    {
        self.data.blocks()
    }

    /// Writes one block; returns the column's opacity flag before and after.
    pub fn set_block(&mut self, in_chunk_pos: &Vec3i, block: Block) -> (r: (bool, bool))
        requires
            old(self).wf(),
            in_chunk(*in_chunk_pos),
        ensures
            final(self).mesh_fresh() == old(self).mesh_fresh(),
            final(self).lights_fresh() == old(self).lights_fresh(),
            final(self).has_mesh() == old(self).has_mesh(),
            final(self).wf(),
            final(self).cells() == old(self).cells().update(linear_index(*in_chunk_pos), block),
            final(self).data().light_buffer() == old(self).data().light_buffer(),
            final(self).mesh_request() == old(self).mesh_request(),
            final(self).lights_request() == old(self).lights_request(),
            final(self).cache_request() == old(self).cache_request(),
            r.0 == column_has_opaque(old(self).cells(), in_chunk_pos.x as int, in_chunk_pos.z as int),
            r.1 == column_has_opaque(final(self).cells(), in_chunk_pos.x as int, in_chunk_pos.z as int),
    {
        let r = self.data.set_block(in_chunk_pos, block);
        self.hash = block_buffer_hash(&self.data.blocks);
        r
    }

    /// The mesh, if one was received.
    /// Whether the stored mesh has indices in the given group.
    pub closed spec fn group_nonempty(&self, translucent: bool) -> bool {
        match self.mesh {
            Some(m) => if translucent { m.transparent_mesh.indices@.len() > 0 } else { m.solid_mesh.indices@.len() > 0 },
            None => false,
        }
    }

    pub fn mesh(&self) -> (r: Option<&MeshBuffer>)
        ensures
            r is Some == self.has_mesh(),
            r matches Some(m) ==> (m.solid_mesh.indices@.len() > 0) == self.group_nonempty(false)
                && (m.transparent_mesh.indices@.len() > 0) == self.group_nonempty(true),
            r is None ==> !self.group_nonempty(false) && !self.group_nonempty(true),
    {
        self.mesh.as_ref()
    }

    pub fn set_mesh(&mut self, mesh: MeshBuffer)
        ensures
            final(self).data() == old(self).data(),
            final(self).state() == old(self).state(),
            final(self).mesh_request() == old(self).mesh_request(),
            final(self).lights_request() == old(self).lights_request(),
            final(self).cache_request() == old(self).cache_request(),
            final(self).lights_fresh() == old(self).lights_fresh(),
            final(self).has_mesh(),
            final(self).mesh_fresh(),
    {
        self.mesh_up_to_date = true;
        self.mesh = Some(mesh);
    }

    /// Whether a mesh request for the current content is outstanding.
    pub fn mesh_requested(&self) -> (r: bool)
        ensures
            r == (self.mesh_request() == Some(self.state())),
    {
        match self.mesh_requested_for_state {
            Some(h) => h == self.hash,
            None => false,
        }
    }

    /// Records (for the current content) or clears a mesh request.
    pub fn set_mesh_requested(&mut self, val: bool)
        ensures
            final(self).data() == old(self).data(),
            final(self).state() == old(self).state(),
            final(self).lights_request() == old(self).lights_request(),
            final(self).cache_request() == old(self).cache_request(),
            final(self).mesh_fresh() == old(self).mesh_fresh(),
            final(self).lights_fresh() == old(self).lights_fresh(),
            final(self).has_mesh() == old(self).has_mesh(),
            final(self).mesh_request() == (if val { Some(old(self).state()) } else { None }),
    {
        self.mesh_requested_for_state = if val { Some(self.hash) } else { None };
    }

    pub fn mesh_up_to_date(&self) -> (r: bool)
        ensures
            r == self.mesh_fresh(),
    {
        self.mesh_up_to_date
    }

    pub fn set_mesh_outdated(&mut self)
        ensures
            final(self).data() == old(self).data(),
            final(self).state() == old(self).state(),
            final(self).mesh_request() == old(self).mesh_request(),
            final(self).lights_request() == old(self).lights_request(),
            final(self).cache_request() == old(self).cache_request(),
            final(self).lights_fresh() == old(self).lights_fresh(),
            final(self).has_mesh() == old(self).has_mesh(),
            !final(self).mesh_fresh(),
    {
        self.mesh_up_to_date = false;
    }

    pub fn set_light_source_caches(&mut self, light_source_cache: LightPosCache, sunlight_source_cache: LightPosCache)
        requires
            old(self).wf(),
            light_source_cache.wf(),
            sunlight_source_cache.wf(),
            light_source_cache.kind() == LightPosKind::Light,
            sunlight_source_cache.kind() == LightPosKind::Sunlight,
        ensures
            final(self).wf(),
            final(self).cells() == old(self).cells(),
            final(self).state() == old(self).state(),
            final(self).data().block_buffer().light_cache() == Some(light_source_cache),
            final(self).data().block_buffer().sunlight_cache() == Some(sunlight_source_cache),
            final(self).mesh_request() == old(self).mesh_request(),
            final(self).lights_request() == old(self).lights_request(),
            final(self).cache_request() == old(self).cache_request(),
    {
        self.data.set_light_source_caches(light_source_cache, sunlight_source_cache);
    }

    pub fn light_pos_cache_requested(&self) -> (r: bool)
        ensures
            r == (self.cache_request() == Some(self.state())),
    {
        match self.light_pos_cache_requested_for_state {
            Some(h) => h == self.hash,
            None => false,
        }
    }

    pub fn set_light_pos_cache_requested(&mut self, val: bool)
        ensures
            final(self).data() == old(self).data(),
            final(self).state() == old(self).state(),
            final(self).mesh_request() == old(self).mesh_request(),
            final(self).lights_request() == old(self).lights_request(),
            final(self).mesh_fresh() == old(self).mesh_fresh(),
            final(self).lights_fresh() == old(self).lights_fresh(),
            final(self).has_mesh() == old(self).has_mesh(),
            final(self).cache_request() == (if val { Some(old(self).state()) } else { None }),
    {
        self.light_pos_cache_requested_for_state = if val { Some(self.hash) } else { None };
    }

    pub fn lights(&self) -> (r: Option<Arc<LightBuffer>>)
        ensures
            r matches Some(l) ==> self.data().light_buffer() == Some(*l),
            r is None <==> self.data().light_buffer() is None,
    {
        self.data.lights()
    }

    pub fn set_lights(&mut self, lights: LightBuffer)
        requires
            old(self).wf(),
            lights.wf(),
        ensures
            final(self).wf(),
            final(self).cells() == old(self).cells(),
            final(self).state() == old(self).state(),
            final(self).data().light_buffer() == Some(lights),
            final(self).lights_fresh(),
            final(self).mesh_request() == old(self).mesh_request(),
            final(self).lights_request() == old(self).lights_request(),
            final(self).cache_request() == old(self).cache_request(),
    {
        self.lights_up_to_date = true;
        self.data.set_lights(lights);
    }

    pub fn lights_requested(&self) -> (r: bool)
        ensures
            r == (self.lights_request() == Some(self.state())),
    {
        match self.lights_requested_for_state {
            Some(h) => h == self.hash,
            None => false,
        }
    }

    pub fn set_lights_requested(&mut self, val: bool)
        ensures
            final(self).data() == old(self).data(),
            final(self).state() == old(self).state(),
            final(self).mesh_request() == old(self).mesh_request(),
            final(self).cache_request() == old(self).cache_request(),
            final(self).mesh_fresh() == old(self).mesh_fresh(),
            final(self).lights_fresh() == old(self).lights_fresh(),
            final(self).has_mesh() == old(self).has_mesh(),
            final(self).lights_request() == (if val { Some(old(self).state()) } else { None }),
    {
        self.lights_requested_for_state = if val { Some(self.hash) } else { None };
    }

    pub fn lights_up_to_date(&self) -> (r: bool)
        ensures
            r == self.lights_fresh(),
    {
        self.lights_up_to_date
    }

    pub fn set_lights_outdated(&mut self)
        ensures
            final(self).data() == old(self).data(),
            final(self).state() == old(self).state(),
            final(self).mesh_request() == old(self).mesh_request(),
            final(self).lights_request() == old(self).lights_request(),
            final(self).cache_request() == old(self).cache_request(),
            final(self).mesh_fresh() == old(self).mesh_fresh(),
            final(self).has_mesh() == old(self).has_mesh(),
            !final(self).lights_fresh(),
    {
        self.lights_up_to_date = false;
    }

    pub fn update_sunlight_in_collum(&mut self, collum: &Vec2i, highest_block_in_chunk_sees_sky: bool)
        requires
            old(self).wf(),
            0 <= collum.x < 32,
            0 <= collum.y < 32,
        ensures
            shaded_below(final(self).cells(), collum.x as int, collum.y as int),
            forall|x: int, y: int, z: int| 0 <= x < 32 && 0 <= y < 32 && 0 <= z < 32 && !(x == collum.x && z == collum.y)
                ==> #[trigger] cell_at(final(self).cells(), x, y, z) == cell_at(old(self).cells(), x, y, z),
            final(self).mesh_fresh() == old(self).mesh_fresh(),
            final(self).lights_fresh() == old(self).lights_fresh(),
            final(self).has_mesh() == old(self).has_mesh(),
            final(self).wf(),
            forall|x: int, y: int, z: int| 0 <= x < 32 && 0 <= y < 32 && 0 <= z < 32 ==>
                #[trigger] cell_at(final(self).cells(), x, y, z) == sun_updated(old(self).cells(),
                    collum.x as int, collum.y as int, highest_block_in_chunk_sees_sky, x, y, z),
            forall|x: int, y: int, z: int| 0 <= x < 32 && 0 <= y < 32 && 0 <= z < 32 ==>
                unsunned(#[trigger] cell_at(final(self).cells(), x, y, z)) == unsunned(cell_at(old(self).cells(), x, y, z)),
            final(self).mesh_request() == old(self).mesh_request(),
            final(self).lights_request() == old(self).lights_request(),
            final(self).cache_request() == old(self).cache_request(),
    {
        let ghost before = self.cells();
        self.data.update_sunlight_in_collum(collum, highest_block_in_chunk_sees_sky);
        proof { lemma_sun_update_shades(self.data.block_buffer().cells(), before, collum.x as int, collum.y as int, highest_block_in_chunk_sees_sky); }
        self.hash = block_buffer_hash(&self.data.blocks);
    }

    pub fn refresh_sunlight_in_collum(&mut self, collum: &Vec2i)
        requires
            old(self).wf(),
            0 <= collum.x < 32,
            0 <= collum.y < 32,
        ensures
            shaded_below(final(self).cells(), collum.x as int, collum.y as int),
            forall|x: int, y: int, z: int| 0 <= x < 32 && 0 <= y < 32 && 0 <= z < 32 && !(x == collum.x && z == collum.y)
                ==> #[trigger] cell_at(final(self).cells(), x, y, z) == cell_at(old(self).cells(), x, y, z),
            final(self).mesh_fresh() == old(self).mesh_fresh(),
            final(self).lights_fresh() == old(self).lights_fresh(),
            final(self).has_mesh() == old(self).has_mesh(),
            final(self).wf(),
            forall|x: int, y: int, z: int| 0 <= x < 32 && 0 <= y < 32 && 0 <= z < 32 ==>
                unsunned(#[trigger] cell_at(final(self).cells(), x, y, z)) == unsunned(cell_at(old(self).cells(), x, y, z)),
            final(self).mesh_request() == old(self).mesh_request(),
            final(self).lights_request() == old(self).lights_request(),
            final(self).cache_request() == old(self).cache_request(),
    {
        let ghost before = self.cells();
        self.data.refresh_sunlight_in_collum(collum);
        proof {
            lemma_sun_update_shades(self.data.block_buffer().cells(), before, collum.x as int, collum.y as int,
                is_sunlit(cell_at(before, collum.x as int, 31, collum.y as int)));
        }
        self.hash = block_buffer_hash(&self.data.blocks);
    }

    pub fn do_cache_updates(&mut self, surrounding_blocks: &Vec<Arc<BlockBuffer>>)
        requires
            old(self).wf(),
            surrounding_wf(surrounding_blocks@),
        ensures
            final(self).mesh_fresh() == old(self).mesh_fresh(),
            final(self).lights_fresh() == old(self).lights_fresh(),
            final(self).has_mesh() == old(self).has_mesh(),
            final(self).wf(),
            final(self).cells() == old(self).cells(),
            final(self).state() == old(self).state(),
            final(self).mesh_request() == old(self).mesh_request(),
            final(self).lights_request() == old(self).lights_request(),
            final(self).cache_request() == old(self).cache_request(),
    {
        self.data.do_cache_updates(surrounding_blocks);
    }

    /// The digest of the chunk's blocks.
    pub fn state_hash(&self) -> (r: u64)
        ensures
            r == self.state(),
    {
        self.hash
    }

    /// Takes a mesh made for content `for_state` when a mesh request for the current
    /// content is outstanding and `for_state` is the current content; otherwise drops it.
    pub fn receive_mesh(&mut self, for_state: u64, mesh: MeshBuffer) -> (r: bool)
        requires
            old(self).wf(),
        ensures
            final(self).wf(),
            r == accepts(old(self).mesh_request(), old(self).state(), for_state),
            r ==> final(self).has_mesh() && final(self).mesh_fresh() && final(self).mesh_request() is None,
            !r ==> *final(self) == *old(self),
            final(self).data() == old(self).data(),
            final(self).lights_fresh() == old(self).lights_fresh(),
            final(self).cells() == old(self).cells(),
            final(self).state() == old(self).state(),
            final(self).lights_request() == old(self).lights_request(),
            final(self).cache_request() == old(self).cache_request(),
    {
        if self.mesh_requested() && for_state == self.hash {
            self.set_mesh(mesh);
            self.set_mesh_requested(false);
            true
        } else {
            false
        }
    }

    /// Takes light computed for content `for_state` under the same rule as meshes; a
    /// response without light (a neighbour lacked its caches) is dropped.
    pub fn receive_lights(&mut self, for_state: u64, lights: Option<LightBuffer>) -> (r: bool)
        requires
            old(self).wf(),
            lights matches Some(l) ==> l.wf(),
        ensures
            final(self).wf(),
            r == (accepts(old(self).lights_request(), old(self).state(), for_state) && lights is Some),
            r ==> final(self).lights_fresh() && final(self).lights_request() is None && final(self).data().light_buffer() is Some,
            !r ==> *final(self) == *old(self),
            final(self).cells() == old(self).cells(),
            final(self).state() == old(self).state(),
            final(self).mesh_request() == old(self).mesh_request(),
            final(self).cache_request() == old(self).cache_request(),
    {
        if self.lights_requested() && for_state == self.hash {
            match lights {
                Some(l) => {
                    self.set_lights(l);
                    self.set_lights_requested(false);
                    true
                },
                None => false,
            }
        } else {
            false
        }
    }

    /// Takes light-source caches computed for content `for_state` under the same rule.
    pub fn receive_light_pos_caches(
        &mut self,
        for_state: u64,
        light_source_cache: LightPosCache,
        sunlight_source_cache: LightPosCache,
    ) -> (r: bool)
        requires
            old(self).wf(),
            light_source_cache.wf(),
            sunlight_source_cache.wf(),
            light_source_cache.kind() == LightPosKind::Light,
            sunlight_source_cache.kind() == LightPosKind::Sunlight,
        ensures
            final(self).wf(),
            r == accepts(old(self).cache_request(), old(self).state(), for_state),
            r ==> final(self).cache_request() is None,
            !r ==> *final(self) == *old(self),
            final(self).cells() == old(self).cells(),
            final(self).state() == old(self).state(),
            final(self).mesh_request() == old(self).mesh_request(),
            final(self).lights_request() == old(self).lights_request(),
    {
        if self.light_pos_cache_requested() && for_state == self.hash {
            self.set_light_source_caches(light_source_cache, sunlight_source_cache);
            self.set_light_pos_cache_requested(false);
            true
        } else {
            false
        }
    }
}

} // verus!
