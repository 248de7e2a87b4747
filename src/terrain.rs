use vstd::prelude::*;
use std::sync::Arc;
use crate::index::{Vec3i, Vec2i, in_chunk, relative_pos_surrounding_cubes_from_index, surrounding_offset, cube_offset,
    relative_pos_surrounding_from_index};
use crate::pos::{Pos, valid_chunk_pos, add_non_zero_i32_vector3, add_skipping_zero};
use crate::block::{Block, BlockBuffer};
use crate::light::{LightBuffer, LightVal, MAX_LIGHT_VAL};
use crate::light_cache::{LightPosCache, LightPosKind, surrounding_wf};
use crate::chunk::{Chunk, coordinate_in_surrounding_buffers_cube, unsunned, accepts, shaded_below, lemma_shaded_kept};
use crate::block::cell_at;
use crate::mesh::MeshBuffer;

verus! {

/// Largest magnitude of a stored chunk coordinate component.
pub const CHUNK_COORD_LIMIT: i32 = 0x4000_0000;

/// Chunk coordinates that the terrain stores: non-zero and far from the integer limits.
pub open spec fn bounded_chunk_pos(c: Vec3i) -> bool {
    &&& valid_chunk_pos(c)
    &&& -0x4000_0000 <= c.x <= 0x4000_0000
    &&& -0x4000_0000 <= c.y <= 0x4000_0000
    &&& -0x4000_0000 <= c.z <= 0x4000_0000
}

/// Work handed to the background workers.
pub enum Request {
    /// Generate or load the blocks of a chunk.
    Blocks { pos: Vec3i },
    /// Compute the light-source caches of a chunk from its 27-buffer neighbourhood.
    LightPosCache { pos: Vec3i, surrounding_blocks: Vec<Arc<BlockBuffer>>, for_state: u64 },
    /// Compute the light of a chunk from its 27-buffer neighbourhood.
    Lights { pos: Vec3i, surrounding_blocks: Vec<Arc<BlockBuffer>>, for_state: u64 },
    /// Mesh a chunk from its own and its six face neighbours' blocks and light.
    Mesh { pos: Vec3i, surrounding_blocks: Vec<Arc<BlockBuffer>>, surrounding_lights: Vec<Arc<LightBuffer>>, for_state: u64 },
}

/// Results coming back from the background workers.
pub enum Response {
    Blocks { pos: Vec3i, blocks: BlockBuffer },
    LightPosCache { pos: Vec3i, light_source_cache: LightPosCache, sunlight_source_cache: LightPosCache, for_state: u64 },
    Lights { pos: Vec3i, lights: Option<LightBuffer>, for_state: u64 },
    Mesh { pos: Vec3i, mesh: MeshBuffer, for_state: u64 },
}

/// Whether a response can be taken into the terrain at all (well-formed payload).
pub open spec fn response_wf(r: Response) -> bool {
    match r {
        Response::Blocks { blocks, .. } => blocks.wf(),
        Response::LightPosCache { light_source_cache, sunlight_source_cache, .. } =>
            light_source_cache.wf() && sunlight_source_cache.wf()
            && light_source_cache.kind() == LightPosKind::Light
            && sunlight_source_cache.kind() == LightPosKind::Sunlight,
        Response::Lights { lights, .. } => lights matches Some(l) ==> l.wf(),
        Response::Mesh { .. } => true,
    }
}

/// The chunk at face-neighbourhood index `i` (centre, up, down, west, east, north, south) of `c`.
pub open spec fn face_neighbour(c: Vec3i, i: int) -> Vec3i {
    let o = surrounding_offset(i);
    Vec3i {
        x: add_skipping_zero(c.x as int, o.x as int) as i32,
        y: add_skipping_zero(c.y as int, o.y as int) as i32,
        z: add_skipping_zero(c.z as int, o.z as int) as i32,
    }
}

/// `b` is the blocks of the chunk at `c` in `list`.
pub open spec fn buffer_of(list: Seq<(Vec3i, Chunk)>, c: Vec3i, b: BlockBuffer) -> bool {
    exists|k: int| 0 <= k < list.len() && list[k].0 == c && b == list[k].1.data().block_buffer()
}

/// The chunk at cube-neighbourhood index `i` of `c`.
pub open spec fn cube_neighbour(c: Vec3i, i: int) -> Vec3i {
    offset_chunk(c, cube_offset(i).x as int, cube_offset(i).y as int, cube_offset(i).z as int)
}

/// Two chunk lists hold the same positions in the same order.
pub open spec fn same_keys(a: Seq<(Vec3i, Chunk)>, b: Seq<(Vec3i, Chunk)>) -> bool {
    a.len() == b.len() && forall|i: int| 0 <= i < a.len() ==> (#[trigger] a[i]).0 == b[i].0
}

/// The eviction radius: the larger render distance plus four chunks.
pub open spec fn max_distance(h: u32, v: u32) -> int {
    (if h > v { h } else { v }) as int + 4
}

/// Whether a chunk lies within the eviction radius of the viewer's chunk.
pub open spec fn within_purge_radius(camera: Vec3i, p: Vec3i, h: u32, v: u32) -> bool {
    (p.x - camera.x) * (p.x - camera.x) + (p.y - camera.y) * (p.y - camera.y) + (p.z - camera.z) * (p.z - camera.z)
        <= max_distance(h, v) * max_distance(h, v)
}

proof fn lemma_same_keys_has_chunk(a: Terrain, b: Terrain)
    requires
        same_keys(a.chunk_list(), b.chunk_list()),
    ensures
        forall|p: Vec3i| #[trigger] a.has_chunk(p) == b.has_chunk(p),
{
    assert forall|p: Vec3i| #[trigger] a.has_chunk(p) == b.has_chunk(p) by {
        if a.has_chunk(p) {
            let k = choose|k: int| 0 <= k < a.chunk_list().len() && (#[trigger] a.chunk_list()[k]).0 == p;
            assert(b.chunk_list()[k].0 == p);
        }
        if b.has_chunk(p) {
            let k = choose|k: int| 0 <= k < b.chunk_list().len() && (#[trigger] b.chunk_list()[k]).0 == p;
            assert(a.chunk_list()[k].0 == p);
        }
    }
}

proof fn lemma_same_keys_trans(a: Seq<(Vec3i, Chunk)>, b: Seq<(Vec3i, Chunk)>, c: Seq<(Vec3i, Chunk)>)
    requires
        same_keys(a, b),
        same_keys(b, c),
    ensures
        same_keys(a, c),
{
    assert forall|i: int| 0 <= i < a.len() implies (#[trigger] a[i]).0 == c[i].0 by {
        assert(a[i].0 == b[i].0);
    }
}

/// Whether an edit at `p` can change the light of the neighbour chunk at offset
/// `(x, y, z)`: only corner neighbours are ever left out, when the edit is far enough from
/// them (the `y == -1` case compares the x coordinate).
pub open spec fn can_affect_chunk_light_spec(x: int, y: int, z: int, p: Vec3i) -> bool {
    !((x != 0 && y != 0 && z != 0) && ((x == -1 && p.x >= 15) || (x == 1 && p.x <= 17) || (y == -1 && p.x >= 15)
        || (y == 1 && p.y <= 17) || (z == -1 && p.z >= 15) || (z == 1 && p.z <= 17)))
}

fn can_affect_chunk_light(x: i32, y: i32, z: i32, in_chunk_pos: Vec3i) -> (r: bool)
    ensures
        r == can_affect_chunk_light_spec(x as int, y as int, z as int, in_chunk_pos),
{
    let p = in_chunk_pos;
    let limit = MAX_LIGHT_VAL as i32;
    !((x != 0 && y != 0 && z != 0) && ((x == -1 && p.x >= limit) || (x == 1 && p.x <= 32 - limit)
        || (y == -1 && p.x >= limit) || (y == 1 && p.y <= 32 - limit) || (z == -1 && p.z >= limit)
        || (z == 1 && p.z <= 32 - limit)))
}

fn push_unique(list: &mut Vec<(Vec3i, u8, Vec2i)>, entry: (Vec3i, u8, Vec2i))
    ensures
        final(list)@ == old(list)@ || final(list)@ == old(list)@.push(entry),
        final(list)@.contains(entry),
{
    let mut i: usize = 0;
    while i < list.len()
        invariant
            i <= list@.len(),
            list@ == old(list)@,
        decreases list@.len() - i,
    {
        let e = list[i];
        if e.0 == entry.0 && e.1 == entry.1 && e.2 == entry.2 {
            assert(list@[i as int] == entry);
            return;
        }
        i = i + 1;
    }
    list.push(entry);
    assert(list@[list@.len() - 1] == entry);
}

fn push_unique_pos(list: &mut Vec<Vec3i>, entry: Vec3i)
    ensures
        final(list)@ == old(list)@ || final(list)@ == old(list)@.push(entry),
{
    let mut i: usize = 0;
    while i < list.len()
        invariant
            i <= list@.len(),
            list@ == old(list)@,
        decreases list@.len() - i,
    {
        if list[i] == entry {
            return;
        }
        i = i + 1;
    }
    list.push(entry);
}

/// Whether a response brings the blocks of the chunk at `p`.
pub open spec fn blocks_response_at(r: Response, p: Vec3i) -> bool {
    r matches Response::Blocks { pos, .. } && pos == p
}

/// Whether a response brings a mesh for the chunk at `p` made for content `fs`.
pub open spec fn mesh_response_at(r: Response, p: Vec3i, fs: u64) -> bool {
    r matches Response::Mesh { pos, for_state, .. } && pos == p && for_state == fs
}

/// Whether a response brings light for the chunk at `p` made for content `fs`.
pub open spec fn lights_response_at(r: Response, p: Vec3i, fs: u64) -> bool {
    r matches Response::Lights { pos, lights: Some(_), for_state } && pos == p && for_state == fs
}

pub open spec fn light_list_has(l: Seq<(Vec3i, Option<LightBuffer>, u64)>, p: Vec3i, fs: u64) -> bool {
    exists|k: int| 0 <= k < l.len() && (#[trigger] l[k]).0 == p && l[k].2 == fs && l[k].1 is Some
}

/// Whether the chunk entry `e` turns response `r` away: blocks for a loaded chunk, or a
/// result for another chunk, or for content or a request it does not have outstanding.
pub open spec fn refuses(e: (Vec3i, Chunk), r: Response) -> bool {
    match r {
        Response::Blocks { .. } => true,
        Response::LightPosCache { pos, for_state, .. } => pos != e.0 || !accepts(e.1.cache_request(), e.1.state(), for_state),
        Response::Lights { pos, lights, for_state } => pos != e.0
            || !(accepts(e.1.lights_request(), e.1.state(), for_state) && lights is Some),
        Response::Mesh { pos, for_state, .. } => pos != e.0 || !accepts(e.1.mesh_request(), e.1.state(), for_state),
    }
}

/// Whether `e` turns every response of `rs` away.
pub open spec fn refuses_all(e: (Vec3i, Chunk), rs: Seq<Response>) -> bool {
    forall|i: int| 0 <= i < rs.len() ==> #[trigger] refuses(e, rs[i])
}

pub open spec fn cache_from(rs: Seq<Response>, p: Vec3i, fs: u64) -> bool {
    exists|i: int| 0 <= i < rs.len() && (#[trigger] rs[i] matches Response::LightPosCache { pos, for_state, .. } && pos == p && for_state == fs)
}

pub open spec fn light_from(rs: Seq<Response>, p: Vec3i, fs: u64, some: bool) -> bool {
    exists|i: int| 0 <= i < rs.len() && (#[trigger] rs[i] matches Response::Lights { pos, lights, for_state }
        && pos == p && for_state == fs && (lights is Some) == some)
}

pub open spec fn mesh_from(rs: Seq<Response>, p: Vec3i, fs: u64) -> bool {
    exists|i: int| 0 <= i < rs.len() && #[trigger] mesh_response_at(rs[i], p, fs)
}

pub open spec fn mesh_list_has(l: Seq<(Vec3i, MeshBuffer, u64)>, p: Vec3i, fs: u64) -> bool {
    exists|k: int| 0 <= k < l.len() && (#[trigger] l[k]).0 == p && l[k].2 == fs
}

pub open spec fn block_list_has(l: Seq<(Vec3i, BlockBuffer)>, p: Vec3i) -> bool {
    exists|k: int| 0 <= k < l.len() && (#[trigger] l[k]).0 == p
}

/// The chunk `(a, b, d)` chunks away from `c`, skipping zero.
pub open spec fn offset_chunk(c: Vec3i, a: int, b: int, d: int) -> Vec3i {
    Vec3i {
        x: add_skipping_zero(c.x as int, a) as i32,
        y: add_skipping_zero(c.y as int, b) as i32,
        z: add_skipping_zero(c.z as int, d) as i32,
    }
}

/// Whether `p` lies in the render volume around `c`.
pub open spec fn in_volume(c: Vec3i, p: Vec3i, h: int, v: int) -> bool {
    exists|a: int, b: int, d: int| -h <= a <= h && -v <= b <= v && -h <= d <= h && p == #[trigger] offset_chunk(c, a, b, d)
}

/// `p` is the chunk at some offset of the render volume walked before `(a, b, d)`.
pub open spec fn placed_before(c: Vec3i, p: Vec3i, h: int, v: int, a: int, b: int, d: int) -> bool {
    exists|a2: int, b2: int, d2: int| -h <= a2 <= h && -v <= b2 <= v && -h <= d2 <= h && walked_before(a2, b2, d2, a, b, d)
        && p == #[trigger] offset_chunk(c, a2, b2, d2)
}

/// Distinct offsets within the render volume give distinct chunks.
proof fn lemma_placed_differs(c: Vec3i, q: Vec3i, h: int, v: int, a: int, b: int, d: int)
    requires
        bounded_chunk_pos(c),
        0 <= h <= 0x1000_0000,
        0 <= v <= 0x1000_0000,
        -h <= a <= h && -v <= b <= v && -h <= d <= h,
        placed_before(c, q, h, v, a, b, d),
    ensures
        q != offset_chunk(c, a, b, d),
{
    let (a2, b2, d2) = choose|a2: int, b2: int, d2: int| -h <= a2 <= h && -v <= b2 <= v && -h <= d2 <= h
        && walked_before(a2, b2, d2, a, b, d) && q == #[trigger] offset_chunk(c, a2, b2, d2);
    crate::pos::lemma_increment_never_zero(c.x as int, a);
    crate::pos::lemma_increment_never_zero(c.x as int, a2);
    crate::pos::lemma_increment_never_zero(c.y as int, b);
    crate::pos::lemma_increment_never_zero(c.y as int, b2);
    crate::pos::lemma_increment_never_zero(c.z as int, d);
    crate::pos::lemma_increment_never_zero(c.z as int, d2);
}

/// Offset `(a2, b2, d2)` comes before `(a, b, d)` in the order the volume is walked.
pub open spec fn walked_before(a2: int, b2: int, d2: int, a: int, b: int, d: int) -> bool {
    a2 < a || (a2 == a && (b2 < b || (b2 == b && d2 < d)))
}

pub open spec fn listed(handles: Seq<MeshHandle>, p: Vec3i, translucent: bool) -> bool {
    exists|j: int| 0 <= j < handles.len() && #[trigger] handles[j] == (MeshHandle { chunk_pos: p, translucent })
}

/// An entry of `list`, unchanged.
pub open spec fn kept_from(e: (Vec3i, Chunk), list: Seq<(Vec3i, Chunk)>) -> bool {
    exists|j: int| 0 <= j < list.len() && e == list[j]
}

/// The position and blocks of an entry of `list`.
pub open spec fn evicted_from(e: (Vec3i, Arc<BlockBuffer>), list: Seq<(Vec3i, Chunk)>) -> bool {
    exists|j: int| 0 <= j < list.len() && e.0 == list[j].0 && *e.1 == list[j].1.data().block_buffer()
}

/// Two chunk lists hold the same blocks, entry by entry.
pub open spec fn same_cells(a: Seq<(Vec3i, Chunk)>, b: Seq<(Vec3i, Chunk)>) -> bool {
    a.len() == b.len() && forall|i: int| 0 <= i < a.len() ==> (#[trigger] a[i]).1.cells() == b[i].1.cells()
}

proof fn lemma_same_cells_trans(a: Seq<(Vec3i, Chunk)>, b: Seq<(Vec3i, Chunk)>, c: Seq<(Vec3i, Chunk)>)
    requires
        same_cells(a, b),
        same_cells(b, c),
    ensures
        same_cells(a, c),
{
    assert forall|i: int| 0 <= i < a.len() implies (#[trigger] a[i]).1.cells() == c[i].1.cells() by {
        assert(a[i].1.cells() == b[i].1.cells());
    }
}

/// A mesh group to draw: the chunk that holds it and whether it is the translucent one.
#[derive(Clone, Copy, Debug, PartialEq, Eq, Structural)]
pub struct MeshHandle {
    pub chunk_pos: Vec3i,
    pub translucent: bool,
}

/// The loaded chunks, the chunks whose blocks were requested, and the requests not yet
/// handed to the workers.
pub struct Terrain {
    chunks: Vec<(Vec3i, Chunk)>,
    requested_chunks_list: Vec<Vec3i>,
    requests: Vec<Request>,
    transparency: bool,
    loading_chunks: u32,
}

impl Terrain {
    pub closed spec fn chunk_list(&self) -> Seq<(Vec3i, Chunk)> {
        self.chunks@
    }

    pub closed spec fn requested_list(&self) -> Seq<Vec3i> {
        self.requested_chunks_list@
    }

    pub closed spec fn outbox(&self) -> Seq<Request> {
        self.requests@
    }

    pub closed spec fn loading(&self) -> u32 {
        self.loading_chunks
    }

    /// Whether the chunk at `p` is loaded and takes a mesh made for content `fs`.
    pub open spec fn accepts_at(&self, p: Vec3i, fs: u64) -> bool {
        exists|i: int| 0 <= i < self.chunk_list().len() && (#[trigger] self.chunk_list()[i]).0 == p
            && accepts(self.chunk_list()[i].1.mesh_request(), self.chunk_list()[i].1.state(), fs)
    }

    /// Whether the chunk at `p` is loaded and takes light computed for content `fs`.
    pub open spec fn lights_accept_at(&self, p: Vec3i, fs: u64) -> bool {
        exists|i: int| 0 <= i < self.chunk_list().len() && (#[trigger] self.chunk_list()[i]).0 == p
            && accepts(self.chunk_list()[i].1.lights_request(), self.chunk_list()[i].1.state(), fs)
    }

    /// Whether the chunk at `p` is loaded with fresh light and no light request outstanding.
    pub open spec fn lights_installed(&self, p: Vec3i) -> bool {
        exists|i: int| 0 <= i < self.chunk_list().len() && (#[trigger] self.chunk_list()[i]).0 == p
            && self.chunk_list()[i].1.data().light_buffer() is Some && self.chunk_list()[i].1.lights_fresh()
            && self.chunk_list()[i].1.lights_request() is None
    }

    /// Whether the chunk at `p` is loaded with a fresh mesh and no mesh request outstanding.
    pub open spec fn mesh_installed(&self, p: Vec3i) -> bool {
        exists|i: int| 0 <= i < self.chunk_list().len() && (#[trigger] self.chunk_list()[i]).0 == p
            && self.chunk_list()[i].1.has_mesh() && self.chunk_list()[i].1.mesh_fresh() && self.chunk_list()[i].1.mesh_request() is None
    }

    /// Whether the chunk at `p` is loaded and its stored mesh has indices in the given group.
    pub open spec fn shows(&self, p: Vec3i, translucent: bool) -> bool {
        exists|i: int| 0 <= i < self.chunk_list().len() && (#[trigger] self.chunk_list()[i]).0 == p
            && self.chunk_list()[i].1.group_nonempty(translucent)
    }

    /// Whether the chunk at `p` is loaded and has light (up to date, unless `stale_ok`).
    pub open spec fn light_available(&self, p: Vec3i, stale_ok: bool) -> bool {
        exists|i: int| 0 <= i < self.chunk_list().len() && (#[trigger] self.chunk_list()[i]).0 == p
            && self.chunk_list()[i].1.data().light_buffer() is Some
            && (stale_ok || self.chunk_list()[i].1.lights_fresh())
    }

    pub open spec fn has_chunk(&self, p: Vec3i) -> bool {
        exists|i: int| 0 <= i < self.chunk_list().len() && (#[trigger] self.chunk_list()[i]).0 == p
    }

    pub open spec fn wf(&self) -> bool {
        &&& forall|i: int| 0 <= i < self.chunk_list().len() ==> (#[trigger] self.chunk_list()[i]).1.wf()
            && bounded_chunk_pos(self.chunk_list()[i].0)
        &&& forall|i: int, j: int| 0 <= i < self.chunk_list().len() && 0 <= j < self.chunk_list().len() && i != j
            ==> (#[trigger] self.chunk_list()[i]).0 != (#[trigger] self.chunk_list()[j]).0
    }

    pub fn new(transparency: bool) -> (r: Terrain)
        ensures
            r.wf(),
            r.chunk_list().len() == 0,
            r.requested_list().len() == 0,
            r.outbox().len() == 0,
            r.loading() == 0,
            r.transparency_enabled() == transparency,
    {
        Terrain {
            chunks: Vec::new(),
            requested_chunks_list: Vec::new(),
            requests: Vec::new(),
            transparency,
            loading_chunks: 0,
        }
    }

    /// Index of the loaded chunk at `pos`.
    fn find(&self, pos: &Vec3i) -> (r: Option<usize>)
        ensures
            r matches Some(i) ==> i < self.chunk_list().len() && self.chunk_list()[i as int].0 == *pos,
            r is None <==> !self.has_chunk(*pos),
    {
        let mut i: usize = 0;
        while i < self.chunks.len()
            invariant
                i <= self.chunks@.len(),
                forall|j: int| 0 <= j < i ==> (#[trigger] self.chunks@[j]).0 != *pos,
            decreases self.chunks@.len() - i,
        {
            if self.chunks[i].0 == *pos {
                return Some(i);
            }
            i = i + 1;
        }
        None
    }

    /// Whether the chunk at `chunk_pos` is loaded.
    pub fn contains_chunk(&self, chunk_pos: &Vec3i) -> (r: bool)
        ensures
            r == self.has_chunk(*chunk_pos),
    {
        self.find(chunk_pos).is_some()
    }

    /// Queues generation of a chunk's blocks unless it is loaded or already queued.
    pub fn request_chunk_blocks(&mut self, chunk_pos: &Vec3i)
        requires
            old(self).wf(),
        ensures
            final(self).wf(),
            final(self).chunk_list() == old(self).chunk_list(),
            (old(self).has_chunk(*chunk_pos) || old(self).requested_list().contains(*chunk_pos))
                ==> *final(self) == *old(self),
            !(old(self).has_chunk(*chunk_pos) || old(self).requested_list().contains(*chunk_pos)) ==> {
                &&& final(self).requested_list() == old(self).requested_list().push(*chunk_pos)
                &&& final(self).outbox() == old(self).outbox().push(Request::Blocks { pos: *chunk_pos })
                &&& final(self).loading() == (if old(self).loading() < u32::MAX { old(self).loading() + 1 } else { u32::MAX as int })
            },
    {
        if self.find(chunk_pos).is_some() {
            return;
        }
        let mut i: usize = 0;
        while i < self.requested_chunks_list.len()
            invariant
                i <= self.requested_chunks_list@.len(),
                *self == *old(self),
                old(self).wf(),
                forall|j: int| 0 <= j < i ==> self.requested_chunks_list@[j] != *chunk_pos,
            decreases self.requested_chunks_list@.len() - i,
        {
            if self.requested_chunks_list[i] == *chunk_pos {
                assert(self.requested_list().contains(*chunk_pos));
                return;
            }
            i = i + 1;
        }
        self.requested_chunks_list.push(*chunk_pos);
        self.requests.push(Request::Blocks { pos: *chunk_pos });
        self.loading_chunks = self.loading_chunks.saturating_add(1);
        assert(self.chunk_list() == old(self).chunk_list());
    }

    /// The blocks of the chunk at `chunk_pos`; when it is not loaded and `load` is set,
    /// its blocks are requested.
    pub fn get_blocks(&mut self, chunk_pos: &Vec3i, load: bool) -> (r: Option<Arc<BlockBuffer>>)
        requires
            old(self).wf(),
        ensures
            final(self).wf(),
            final(self).chunk_list() == old(self).chunk_list(),
            r is Some <==> old(self).has_chunk(*chunk_pos),
            r matches Some(b) ==> b.wf() && exists|i: int| 0 <= i < old(self).chunk_list().len()
                && old(self).chunk_list()[i].0 == *chunk_pos && *b == old(self).chunk_list()[i].1.data().block_buffer(),
            !load ==> *final(self) == *old(self),
            old(self).has_chunk(*chunk_pos) ==> *final(self) == *old(self),
    {
        match self.find(chunk_pos) {
            Some(i) => {
                let b = self.chunks[i].1.blocks();
                assert(self.chunk_list()[i as int].1.wf());
                Some(b)
            },
            None => {
                if load {
                    self.request_chunk_blocks(chunk_pos);
                }
                None
            },
        }
    }

    /// The light of the chunk at `chunk_pos`. When the light is out of date it is
    /// requested (if `load`) and only returned when `return_if_outdated` is set.
    pub fn get_lights(&mut self, chunk_pos: &Vec3i, load: bool, return_if_outdated: bool) -> (r: Option<Arc<LightBuffer>>)
        requires
            old(self).wf(),
        ensures
            final(self).wf(),
            same_keys(final(self).chunk_list(), old(self).chunk_list()),
            same_cells(final(self).chunk_list(), old(self).chunk_list()),
            r matches Some(l) ==> l.wf(),
            r is Some <==> old(self).light_available(*chunk_pos, return_if_outdated),
            r matches Some(l) ==> exists|i: int| 0 <= i < old(self).chunk_list().len()
                && (#[trigger] old(self).chunk_list()[i]).0 == *chunk_pos
                && old(self).chunk_list()[i].1.data().light_buffer() == Some(*l),
            !load ==> *final(self) == *old(self),
            old(self).light_available(*chunk_pos, false) ==> *final(self) == *old(self),
    {
        match self.find(chunk_pos) {
            Some(i) => {
                assert(self.chunk_list()[i as int].1.wf());
                proof {
                    if old(self).light_available(*chunk_pos, return_if_outdated) {
                        let k = choose|k: int| 0 <= k < old(self).chunk_list().len()
                            && (#[trigger] old(self).chunk_list()[k]).0 == *chunk_pos
                            && old(self).chunk_list()[k].1.data().light_buffer() is Some
                            && (return_if_outdated || old(self).chunk_list()[k].1.lights_fresh());
                        assert(k == i as int);
                    }
                }
                let out = self.chunks[i].1.lights();
                if !self.chunks[i].1.lights_up_to_date() {
                    if load {
                        self.request_chunk_light(chunk_pos);
                    }
                    if !return_if_outdated {
                        return None;
                    }
                }
                out
            },
            None => {
                if load {
                    self.request_chunk_blocks(chunk_pos);
                }
                None
            },
        }
    }

    /// Collects the blocks of the 27 chunks around `center_chunk_pos` (cube index order);
    /// absent as soon as one is not loaded (that one is requested when `load` is set).
    pub fn get_surrounding_blocks_cube(&mut self, center_chunk_pos: &Vec3i, load: bool) -> (r: Option<Vec<Arc<BlockBuffer>>>)
        requires
            old(self).wf(),
            bounded_chunk_pos(*center_chunk_pos),
        ensures
            final(self).wf(),
            final(self).chunk_list() == old(self).chunk_list(),
            r matches Some(v) ==> surrounding_wf(v@),
            !load ==> *final(self) == *old(self),
            old(self).caches_ready(*center_chunk_pos) ==> *final(self) == *old(self) && r is Some,
            r matches Some(v) ==> forall|j: int| 0 <= j < 27 ==> buffer_of(old(self).chunk_list(), cube_neighbour(*center_chunk_pos, j), *(#[trigger] v@[j])),
    {
        let mut out: Vec<Arc<BlockBuffer>> = Vec::new();
        let mut i: u8 = 0;
        while i < 27
            invariant
                i <= 27,
                bounded_chunk_pos(*center_chunk_pos),
                self.wf(),
                self.chunk_list() == old(self).chunk_list(),
                !load ==> *self == *old(self),
                old(self).caches_ready(*center_chunk_pos) ==> *self == *old(self),
                out@.len() == i,
                forall|j: int| 0 <= j < i ==> (#[trigger] out@[j]).wf(),
                forall|j: int| 0 <= j < i ==> buffer_of(old(self).chunk_list(), cube_neighbour(*center_chunk_pos, j), *(#[trigger] out@[j])),
            decreases 27 - i,
        {
            let off = relative_pos_surrounding_cubes_from_index(i);
            let p = add_non_zero_i32_vector3(*center_chunk_pos, off);
            proof {
                assert(p == cube_neighbour(*center_chunk_pos, i as int));
                if old(self).caches_ready(*center_chunk_pos) {
                    assert(0 <= i < 27);
                    let k = choose|k: int| 0 <= k < old(self).chunk_list().len()
                        && (#[trigger] old(self).chunk_list()[k]).0 == #[trigger] cube_neighbour(*center_chunk_pos, i as int)
                        && old(self).chunk_list()[k].1.data().block_buffer().light_cache() is Some
                        && old(self).chunk_list()[k].1.data().block_buffer().sunlight_cache() is Some;
                    assert(self.has_chunk(p));
                }
            }
            let ghost o0 = out@;
            match self.get_blocks(&p, load) {
                Some(b) => {
                    out.push(b);
                    proof {
                        assert forall|j: int| 0 <= j < i + 1 implies buffer_of(old(self).chunk_list(), cube_neighbour(*center_chunk_pos, j),
                            *(#[trigger] out@[j])) by {
                            if j < i {
                                assert(out@[j] == o0[j]);
                            } else {
                                assert(out@[j] == b);
                            }
                        }
                    }
                },
                None => return None,
            }
            i = i + 1;
        }
        Some(out)
    }

    /// Collects the blocks of a chunk and its six face neighbours (centre, up, down,
    /// west, east, north, south); absent as soon as one is not loaded.
    pub fn get_surrounding_blocks(&mut self, center_chunk_pos: &Vec3i, load: bool) -> (r: Option<Vec<Arc<BlockBuffer>>>)
        requires
            old(self).wf(),
            bounded_chunk_pos(*center_chunk_pos),
        ensures
            final(self).wf(),
            final(self).chunk_list() == old(self).chunk_list(),
            r matches Some(v) ==> v@.len() == 7 && forall|j: int| 0 <= j < 7 ==> (#[trigger] v@[j]).wf(),
            !load ==> *final(self) == *old(self),
            old(self).mesh_ready(*center_chunk_pos) ==> r is Some && *final(self) == *old(self),
    {
        let mut out: Vec<Arc<BlockBuffer>> = Vec::new();
        let mut i: u8 = 0;
        while i < 7
            invariant
                i <= 7,
                bounded_chunk_pos(*center_chunk_pos),
                self.wf(),
                self.chunk_list() == old(self).chunk_list(),
                old(self).mesh_ready(*center_chunk_pos) ==> *self == *old(self),
                !load ==> *self == *old(self),
                out@.len() == i,
                forall|j: int| 0 <= j < i ==> (#[trigger] out@[j]).wf(),
            decreases 7 - i,
        {
            let off = relative_pos_surrounding_from_index(i);
            let p = add_non_zero_i32_vector3(*center_chunk_pos, off);
            proof {
                assert(p == face_neighbour(*center_chunk_pos, i as int));
                if old(self).mesh_ready(*center_chunk_pos) {
                    assert(old(self).light_available(face_neighbour(*center_chunk_pos, i as int), false));
                    let k = choose|k: int| 0 <= k < old(self).chunk_list().len() && (#[trigger] old(self).chunk_list()[k]).0 == p
                        && old(self).chunk_list()[k].1.data().light_buffer() is Some && old(self).chunk_list()[k].1.lights_fresh();
                    assert(self.has_chunk(p));
                }
            }
            match self.get_blocks(&p, load) {
                Some(b) => out.push(b),
                None => return None,
            }
            i = i + 1;
        }
        Some(out)
    }

    /// Collects the light of a chunk and its six face neighbours; absent as soon as one is
    /// missing (or out of date, unless `return_if_outdated`).
    pub fn get_surrounding_lights(&mut self, center_chunk_pos: &Vec3i, load: bool, return_if_outdated: bool) -> (r: Option<Vec<Arc<LightBuffer>>>)
        requires
            old(self).wf(),
            bounded_chunk_pos(*center_chunk_pos),
        ensures
            final(self).wf(),
            same_keys(final(self).chunk_list(), old(self).chunk_list()),
            same_cells(final(self).chunk_list(), old(self).chunk_list()),
            r matches Some(v) ==> v@.len() == 7 && forall|j: int| 0 <= j < 7 ==> (#[trigger] v@[j]).wf(),
            !load ==> *final(self) == *old(self),
            old(self).mesh_ready(*center_chunk_pos) && !return_if_outdated ==> r is Some && *final(self) == *old(self),
    {
        let mut out: Vec<Arc<LightBuffer>> = Vec::new();
        let mut i: u8 = 0;
        while i < 7
            invariant
                i <= 7,
                bounded_chunk_pos(*center_chunk_pos),
                self.wf(),
                same_keys(self.chunk_list(), old(self).chunk_list()),
                same_cells(self.chunk_list(), old(self).chunk_list()),
                old(self).mesh_ready(*center_chunk_pos) && !return_if_outdated ==> *self == *old(self),
                !load ==> *self == *old(self),
                out@.len() == i,
                forall|j: int| 0 <= j < i ==> (#[trigger] out@[j]).wf(),
            decreases 7 - i,
        {
            let off = relative_pos_surrounding_from_index(i);
            let p = add_non_zero_i32_vector3(*center_chunk_pos, off);
            proof {
                assert(p == face_neighbour(*center_chunk_pos, i as int));
                if old(self).mesh_ready(*center_chunk_pos) {
                    assert(old(self).light_available(face_neighbour(*center_chunk_pos, i as int), false));
                }
            }
            match self.get_lights(&p, load, return_if_outdated) {
                Some(l) => out.push(l),
                None => return None,
            }
            i = i + 1;
        }
        Some(out)
    }

    /// Collects the light of the 27 chunks around `center_chunk_pos` (cube index order);
    /// absent as soon as one is missing (or out of date, unless `return_if_outdated`).
    pub fn get_surrounding_lights_cube(&mut self, center_chunk_pos: &Vec3i, load: bool, return_if_outdated: bool)
        -> (r: Option<Vec<Arc<LightBuffer>>>)
        requires
            old(self).wf(),
            bounded_chunk_pos(*center_chunk_pos),
        ensures
            final(self).wf(),
            same_keys(final(self).chunk_list(), old(self).chunk_list()),
            r matches Some(v) ==> v@.len() == 27 && forall|j: int| 0 <= j < 27 ==> (#[trigger] v@[j]).wf(),
            !load ==> *final(self) == *old(self),
    {
        let mut out: Vec<Arc<LightBuffer>> = Vec::new();
        let mut i: u8 = 0;
        while i < 27
            invariant
                i <= 27,
                bounded_chunk_pos(*center_chunk_pos),
                self.wf(),
                same_keys(self.chunk_list(), old(self).chunk_list()),
                !load ==> *self == *old(self),
                out@.len() == i,
                forall|j: int| 0 <= j < i ==> (#[trigger] out@[j]).wf(),
            decreases 27 - i,
        {
            let off = relative_pos_surrounding_cubes_from_index(i);
            let p = add_non_zero_i32_vector3(*center_chunk_pos, off);
            let ghost before = self.chunk_list();
            match self.get_lights(&p, load, return_if_outdated) {
                Some(l) => out.push(l),
                None => return None,
            }
            proof { lemma_same_keys_trans(self.chunk_list(), before, old(self).chunk_list()); }
            i = i + 1;
        }
        Some(out)
    }

    /// Queues computation of a chunk's light-source caches unless a request for its
    /// current content is outstanding or a neighbour is missing.
    fn request_chunk_light_pos_cache(&mut self, chunk_pos: &Vec3i)
        requires
            old(self).wf(),
        ensures
            final(self).wf(),
            same_keys(final(self).chunk_list(), old(self).chunk_list()),
            same_cells(final(self).chunk_list(), old(self).chunk_list()),
    {
        let i = match self.find(chunk_pos) {
            Some(i) => i,
            None => {
                self.request_chunk_blocks(chunk_pos);
                return;
            },
        };
        assert(self.chunk_list()[i as int].1.wf() && bounded_chunk_pos(self.chunk_list()[i as int].0));
        let for_state = self.chunks[i].1.state_hash();
        if !self.chunks[i].1.light_pos_cache_requested() {
            let surrounding = match self.get_surrounding_blocks_cube(chunk_pos, true) {
                Some(v) => v,
                None => return,
            };
            self.requests.push(Request::LightPosCache { pos: *chunk_pos, surrounding_blocks: surrounding, for_state });
            self.loading_chunks = self.loading_chunks.saturating_add(1);
            self.chunks[i].1.set_light_pos_cache_requested(true);
            proof { self.lemma_keys_after_update(old(self).chunk_list(), i as int); }
        }
    }

    /// Queues computation of a chunk's light once all 27 neighbours are loaded and have
    /// their light-source caches (missing caches are requested instead), unless a request
    /// for its current content is outstanding.
    fn request_chunk_light(&mut self, chunk_pos: &Vec3i)
        requires
            old(self).wf(),
        ensures
            final(self).wf(),
            same_keys(final(self).chunk_list(), old(self).chunk_list()),
            same_cells(final(self).chunk_list(), old(self).chunk_list()),
            old(self).has_chunk(*chunk_pos) && !old(self).lights_pending(*chunk_pos) && old(self).caches_ready(*chunk_pos) ==> {
                &&& final(self).outbox() == old(self).outbox().push(final(self).outbox().last())
                &&& final(self).outbox().last() matches Request::Lights { pos, for_state, .. }
                &&& pos == *chunk_pos
                &&& exists|k: int| 0 <= k < old(self).chunk_list().len() && (#[trigger] old(self).chunk_list()[k]).0 == *chunk_pos
                    && for_state == old(self).chunk_list()[k].1.state()
                &&& final(self).lights_pending(*chunk_pos)
            },
            old(self).lights_pending(*chunk_pos) ==> *final(self) == *old(self),
    {
        let i = match self.find(chunk_pos) {
            Some(i) => i,
            None => {
                self.request_chunk_blocks(chunk_pos);
                return;
            },
        };
        assert(self.chunk_list()[i as int].1.wf() && bounded_chunk_pos(self.chunk_list()[i as int].0));
        let for_state = self.chunks[i].1.state_hash();
        proof {
            if old(self).lights_pending(*chunk_pos) {
                let kk = choose|kk: int| 0 <= kk < old(self).chunk_list().len() && (#[trigger] old(self).chunk_list()[kk]).0 == *chunk_pos
                    && old(self).chunk_list()[kk].1.lights_request() == Some(old(self).chunk_list()[kk].1.state());
                assert(kk == i as int);
            }
        }
        if !self.chunks[i].1.lights_requested() {
            let surrounding = match self.get_surrounding_blocks_cube(chunk_pos, true) {
                Some(v) => v,
                None => return,
            };
            let mut all_fine = true;
            let mut k: u8 = 0;
            while k < 27
                invariant
                    k <= 27,
                    surrounding@.len() == 27,
                    bounded_chunk_pos(*chunk_pos),
                    self.wf(),
                    same_keys(self.chunk_list(), old(self).chunk_list()),
                    same_cells(self.chunk_list(), old(self).chunk_list()),
                    i < self.chunk_list().len(),
                    self.chunk_list()[i as int].0 == *chunk_pos,
                    old(self).caches_ready(*chunk_pos) ==> *self == *old(self) && all_fine,
                    forall|j: int| 0 <= j < 27 ==> buffer_of(old(self).chunk_list(), cube_neighbour(*chunk_pos, j), *(#[trigger] surrounding@[j])),
                    old(self).wf(),
                decreases 27 - k,
            {
                let buffer: &BlockBuffer = &surrounding[k as usize];
                proof {
                    if old(self).caches_ready(*chunk_pos) {
                        let j = k as int;
                        assert(buffer_of(old(self).chunk_list(), cube_neighbour(*chunk_pos, j), *surrounding@[j]));
                        let kk = choose|kk: int| 0 <= kk < old(self).chunk_list().len()
                            && old(self).chunk_list()[kk].0 == cube_neighbour(*chunk_pos, j)
                            && *surrounding@[j] == old(self).chunk_list()[kk].1.data().block_buffer();
                        let k2 = choose|k2: int| 0 <= k2 < old(self).chunk_list().len()
                            && (#[trigger] old(self).chunk_list()[k2]).0 == #[trigger] cube_neighbour(*chunk_pos, j)
                            && old(self).chunk_list()[k2].1.data().block_buffer().light_cache() is Some
                            && old(self).chunk_list()[k2].1.data().block_buffer().sunlight_cache() is Some;
                        assert(kk == k2);
                    }
                }
                if buffer.light_sources().is_none() || buffer.sunlight_sources().is_none() {
                    all_fine = false;
                    let off = relative_pos_surrounding_cubes_from_index(k);
                    let p = add_non_zero_i32_vector3(*chunk_pos, off);
                    self.request_chunk_light_pos_cache(&p);
                }
                k = k + 1;
            }
            if all_fine {
                self.requests.push(Request::Lights { pos: *chunk_pos, surrounding_blocks: surrounding, for_state });
                self.loading_chunks = self.loading_chunks.saturating_add(1);
                let ghost before = self.chunk_list();
                self.chunks[i].1.set_lights_requested(true);
                proof {
                    self.lemma_keys_after_update(before, i as int);
                    assert(self.chunk_list()[i as int].0 == *chunk_pos);
                }
            }
        }
    }

    /// Whether all 27 chunks around `p` are loaded with both light-source caches.
    pub open spec fn caches_ready(&self, p: Vec3i) -> bool {
        forall|i: int| 0 <= i < 27 ==> exists|k: int| 0 <= k < self.chunk_list().len()
            && (#[trigger] self.chunk_list()[k]).0 == #[trigger] cube_neighbour(p, i)
            && self.chunk_list()[k].1.data().block_buffer().light_cache() is Some
            && self.chunk_list()[k].1.data().block_buffer().sunlight_cache() is Some
    }

    /// Whether a light request for the current content of the chunk at `p` is outstanding.
    pub open spec fn lights_pending(&self, p: Vec3i) -> bool {
        exists|i: int| 0 <= i < self.chunk_list().len() && (#[trigger] self.chunk_list()[i]).0 == p
            && self.chunk_list()[i].1.lights_request() == Some(self.chunk_list()[i].1.state())
    }

    /// Whether the chunk at `p` and its six face neighbours are loaded with up-to-date light.
    pub open spec fn mesh_ready(&self, p: Vec3i) -> bool {
        forall|i: int| 0 <= i < 7 ==> #[trigger] self.light_available(face_neighbour(p, i), false)
    }

    /// Whether a mesh request for the current content of the chunk at `p` is outstanding.
    pub open spec fn mesh_pending(&self, p: Vec3i) -> bool {
        exists|i: int| 0 <= i < self.chunk_list().len() && (#[trigger] self.chunk_list()[i]).0 == p
            && self.chunk_list()[i].1.mesh_request() == Some(self.chunk_list()[i].1.state())
    }

    /// Queues meshing of a chunk once its face neighbours' blocks and light are available.
    /// A second request while one for the current content is outstanding changes nothing.
    pub fn request_chunk_mesh(&mut self, chunk_pos: &Vec3i)
        requires
            old(self).wf(),
        ensures
            final(self).wf(),
            same_keys(final(self).chunk_list(), old(self).chunk_list()),
            same_cells(final(self).chunk_list(), old(self).chunk_list()),
            old(self).mesh_pending(*chunk_pos) ==> *final(self) == *old(self),
            old(self).has_chunk(*chunk_pos) && !old(self).mesh_pending(*chunk_pos) && old(self).mesh_ready(*chunk_pos) ==> {
                &&& final(self).outbox() == old(self).outbox().push(final(self).outbox().last())
                &&& final(self).outbox().last() matches Request::Mesh { pos, for_state, .. }
                &&& pos == *chunk_pos
                &&& exists|k: int| 0 <= k < old(self).chunk_list().len() && (#[trigger] old(self).chunk_list()[k]).0 == *chunk_pos
                    && for_state == old(self).chunk_list()[k].1.state()
                &&& final(self).mesh_pending(*chunk_pos)
            },
    {
        let i = match self.find(chunk_pos) {
            Some(i) => i,
            None => {
                self.request_chunk_blocks(chunk_pos);
                return;
            },
        };
        assert(self.chunk_list()[i as int].1.wf() && bounded_chunk_pos(self.chunk_list()[i as int].0));
        let for_state = self.chunks[i].1.state_hash();
        if !self.chunks[i].1.mesh_requested() {
            let surrounding_blocks = match self.get_surrounding_blocks(chunk_pos, true) {
                Some(v) => v,
                None => return,
            };
            let surrounding_lights = match self.get_surrounding_lights(chunk_pos, true, false) {
                Some(v) => v,
                None => return,
            };
            self.requests.push(Request::Mesh { pos: *chunk_pos, surrounding_blocks, surrounding_lights, for_state });
            self.loading_chunks = self.loading_chunks.saturating_add(1);
            let ghost before = self.chunk_list();
            self.chunks[i].1.set_mesh_requested(true);
            proof { self.lemma_keys_after_update(before, i as int); }
        } else {
            proof {
                if !old(self).mesh_pending(*chunk_pos) {
                    assert(false);
                }
            }
        }
    }

    proof fn lemma_keys_after_update(&self, before: Seq<(Vec3i, Chunk)>, i: int)
        requires
            0 <= i < before.len(),
            self.chunk_list() == before.update(i, (before[i].0, self.chunk_list()[i].1)),
            self.chunk_list()[i].1.cells() == before[i].1.cells(),
        ensures
            same_keys(self.chunk_list(), before),
            same_cells(self.chunk_list(), before),
    {
    }

    /// The block at a position, if its chunk is loaded.
    pub fn get_block(&mut self, pos: &Pos) -> (r: Option<Block>)
        requires
            old(self).wf(),
            in_chunk(pos.in_chunk_pos),
        ensures
            *final(self) == *old(self),
            r is Some <==> old(self).has_chunk(pos.chunk_pos),
            r matches Some(b) ==> exists|i: int| 0 <= i < old(self).chunk_list().len()
                && (#[trigger] old(self).chunk_list()[i]).0 == pos.chunk_pos
                && b == old(self).chunk_list()[i].1.data().block_buffer().block(pos.in_chunk_pos),
    {
        match self.get_blocks(&pos.chunk_pos, false) {
            Some(blocks) => Some(*blocks.get(&pos.in_chunk_pos)),
            None => None,
        }
    }

    /// The light at a position, if its chunk is loaded and its light is up to date.
    pub fn get_light(&mut self, pos: &Pos) -> (r: Option<LightVal>)
        requires
            old(self).wf(),
            in_chunk(pos.in_chunk_pos),
        ensures
            *final(self) == *old(self),
            r is Some <==> old(self).light_available(pos.chunk_pos, false),
            r matches Some(v) ==> exists|i: int| 0 <= i < old(self).chunk_list().len()
                && (#[trigger] old(self).chunk_list()[i]).0 == pos.chunk_pos
                && v == old(self).chunk_list()[i].1.data().light_buffer().unwrap().light(pos.in_chunk_pos),
    {
        match self.get_lights(&pos.chunk_pos, false, false) {
            Some(lights) => Some(*lights.get(&pos.in_chunk_pos)),
            None => None,
        }
    }

    /// Hands the queued requests over to the workers.
    pub fn take_requests(&mut self) -> (r: Vec<Request>)
        ensures
            r@ == old(self).outbox(),
            final(self).outbox().len() == 0,
            final(self).chunk_list() == old(self).chunk_list(),
            final(self).requested_list() == old(self).requested_list(),
            final(self).loading() == old(self).loading(),
    {
        let mut out: Vec<Request> = Vec::new();
        std::mem::swap(&mut out, &mut self.requests);
        out
    }

    /// Takes the workers' results: new chunks first, then light-source caches, light and
    /// meshes. A result whose chunk is gone, whose content changed since the request, or
    /// that was not asked for is dropped.
    pub fn update(&mut self, responses: Vec<Response>)
        requires
            old(self).wf(),
            forall|i: int| 0 <= i < responses@.len() ==> response_wf(#[trigger] responses@[i]),
        ensures
            final(self).wf(),
            forall|p: Vec3i| #[trigger] final(self).has_chunk(p) == (old(self).has_chunk(p)
                || (bounded_chunk_pos(p) && exists|i: int| 0 <= i < responses@.len() && #[trigger] blocks_response_at(responses@[i], p))),
            forall|i: int, p: Vec3i, fs: u64| 0 <= i < responses@.len() && #[trigger] mesh_response_at(responses@[i], p, fs)
                && old(self).accepts_at(p, fs) ==> final(self).mesh_installed(p),
            forall|i: int, p: Vec3i, fs: u64| 0 <= i < responses@.len() && #[trigger] lights_response_at(responses@[i], p, fs)
                && old(self).lights_accept_at(p, fs) ==> final(self).lights_installed(p),
            forall|j: int| 0 <= j < old(self).chunk_list().len() && refuses_all(old(self).chunk_list()[j], responses@)
                ==> #[trigger] final(self).chunk_list()[j] == old(self).chunk_list()[j],
    {
        let ghost orig = responses@;
        let mut blocks: Vec<(Vec3i, BlockBuffer)> = Vec::new();
        let mut caches: Vec<(Vec3i, LightPosCache, LightPosCache, u64)> = Vec::new();
        let mut lights: Vec<(Vec3i, Option<LightBuffer>, u64)> = Vec::new();
        let mut meshes: Vec<(Vec3i, MeshBuffer, u64)> = Vec::new();
        let mut responses = responses;
        while responses.len() > 0
            invariant
                responses@.len() <= orig.len(),
                responses@ == orig.subrange(orig.len() - responses@.len(), orig.len() as int),
                forall|i: int| 0 <= i < responses@.len() ==> response_wf(#[trigger] responses@[i]),
                forall|i: int| 0 <= i < blocks@.len() ==> (#[trigger] blocks@[i]).1.wf(),
                forall|i: int| 0 <= i < caches@.len() ==> (#[trigger] caches@[i]).1.wf() && caches@[i].2.wf()
                    && caches@[i].1.kind() == LightPosKind::Light && caches@[i].2.kind() == LightPosKind::Sunlight,
                forall|i: int| 0 <= i < lights@.len() ==> ((#[trigger] lights@[i]).1 matches Some(l) ==> l.wf()),
                forall|p: Vec3i| #[trigger] block_list_has(blocks@, p) == (exists|i: int| 0 <= i < orig.len() - responses@.len()
                    && #[trigger] blocks_response_at(orig[i], p)),
                forall|i: int, p: Vec3i, fs: u64| 0 <= i < orig.len() - responses@.len() && #[trigger] mesh_response_at(orig[i], p, fs)
                    ==> mesh_list_has(meshes@, p, fs),
                forall|i: int, p: Vec3i, fs: u64| 0 <= i < orig.len() - responses@.len() && #[trigger] lights_response_at(orig[i], p, fs)
                    ==> light_list_has(lights@, p, fs),
                forall|k: int| 0 <= k < caches@.len() ==> cache_from(orig, (#[trigger] caches@[k]).0, caches@[k].3),
                forall|k: int| 0 <= k < lights@.len() ==> light_from(orig, (#[trigger] lights@[k]).0, lights@[k].2, lights@[k].1 is Some),
                forall|k: int| 0 <= k < meshes@.len() ==> mesh_from(orig, (#[trigger] meshes@[k]).0, meshes@[k].2),
            decreases responses@.len(),
        {
            let ghost before = responses@;
            let ghost before_blocks = blocks@;
            let ghost before_meshes = meshes@;
            let ghost before_lights = lights@;
            let ghost before_caches = caches@;
            let ghost consumed = orig.len() - before.len();
            let r = responses.remove(0);
            proof {
                assert(response_wf(before[0]));
                assert(before[0] == orig[consumed]);
                assert forall|i: int| 0 <= i < responses@.len() implies response_wf(#[trigger] responses@[i]) by {
                    assert(responses@[i] == before[i + 1]);
                }
                assert(responses@ =~= orig.subrange(orig.len() - responses@.len(), orig.len() as int));
            }
            match r {
                Response::Blocks { pos, blocks: b } => {
                    blocks.push((pos, b));
                    proof {
                        assert forall|p: Vec3i| #[trigger] block_list_has(blocks@, p) == (exists|i: int| 0 <= i < consumed + 1
                            && #[trigger] blocks_response_at(orig[i], p)) by {
                            if block_list_has(blocks@, p) {
                                let k = choose|k: int| 0 <= k < blocks@.len() && (#[trigger] blocks@[k]).0 == p;
                                if k < before_blocks.len() {
                                    assert(before_blocks[k] == blocks@[k]);
                                    assert(block_list_has(before_blocks, p));
                                } else {
                                    assert(blocks_response_at(orig[consumed], p));
                                }
                            }
                            if exists|i: int| 0 <= i < consumed + 1 && #[trigger] blocks_response_at(orig[i], p) {
                                let i = choose|i: int| 0 <= i < consumed + 1 && #[trigger] blocks_response_at(orig[i], p);
                                if i < consumed {
                                    assert(block_list_has(before_blocks, p));
                                    let k = choose|k: int| 0 <= k < before_blocks.len() && (#[trigger] before_blocks[k]).0 == p;
                                    assert(blocks@[k] == before_blocks[k]);
                                } else {
                                    assert(blocks@[before_blocks.len() as int].0 == p);
                                }
                            }
                        }
                    }
                },
                Response::LightPosCache { pos, light_source_cache, sunlight_source_cache, for_state } => {
                    caches.push((pos, light_source_cache, sunlight_source_cache, for_state));
                    proof { self.lemma_other_response(orig, consumed, before_blocks, blocks@); }
                },
                Response::Lights { pos, lights: l, for_state } => {
                    lights.push((pos, l, for_state));
                    proof { self.lemma_other_response(orig, consumed, before_blocks, blocks@); }
                },
                Response::Mesh { pos, mesh, for_state } => {
                    meshes.push((pos, mesh, for_state));
                    proof { self.lemma_other_response(orig, consumed, before_blocks, blocks@); }
                },
            }
            proof {
                assert forall|i: int, p: Vec3i, fs: u64| 0 <= i < consumed + 1 && #[trigger] mesh_response_at(orig[i], p, fs)
                    implies mesh_list_has(meshes@, p, fs) by {
                    if i < consumed {
                        let k = choose|k: int| 0 <= k < before_meshes.len() && (#[trigger] before_meshes[k]).0 == p && before_meshes[k].2 == fs;
                        assert(meshes@[k] == before_meshes[k]);
                    } else {
                        assert(meshes@[meshes@.len() - 1].0 == p && meshes@[meshes@.len() - 1].2 == fs);
                    }
                }
                assert forall|i: int, p: Vec3i, fs: u64| 0 <= i < consumed + 1 && #[trigger] lights_response_at(orig[i], p, fs)
                    implies light_list_has(lights@, p, fs) by {
                    if i < consumed {
                        let k = choose|k: int| 0 <= k < before_lights.len() && (#[trigger] before_lights[k]).0 == p
                            && before_lights[k].2 == fs && before_lights[k].1 is Some;
                        assert(lights@[k] == before_lights[k]);
                    } else {
                        assert(lights@[lights@.len() - 1].0 == p && lights@[lights@.len() - 1].2 == fs);
                    }
                }
                assert forall|k: int| 0 <= k < caches@.len() implies cache_from(orig, (#[trigger] caches@[k]).0, caches@[k].3) by {
                    if k < before_caches.len() {
                        assert(caches@[k] == before_caches[k]);
                    } else {
                        assert(orig[consumed] matches Response::LightPosCache { pos, for_state, .. }
                            && pos == caches@[k].0 && for_state == caches@[k].3);
                    }
                }
                assert forall|k: int| 0 <= k < lights@.len() implies light_from(orig, (#[trigger] lights@[k]).0, lights@[k].2, lights@[k].1 is Some) by {
                    if k < before_lights.len() {
                        assert(lights@[k] == before_lights[k]);
                    } else {
                        assert(orig[consumed] matches Response::Lights { pos, lights: lv, for_state }
                            && pos == lights@[k].0 && for_state == lights@[k].2 && (lv is Some) == (lights@[k].1 is Some));
                    }
                }
                assert forall|k: int| 0 <= k < meshes@.len() implies mesh_from(orig, (#[trigger] meshes@[k]).0, meshes@[k].2) by {
                    if k < before_meshes.len() {
                        assert(meshes@[k] == before_meshes[k]);
                    } else {
                        assert(mesh_response_at(orig[consumed], meshes@[k].0, meshes@[k].2));
                    }
                }
            }
        }
        let ghost all_blocks = blocks@;
        while blocks.len() > 0
            invariant
                self.wf(),
                blocks@.len() <= all_blocks.len(),
                blocks@ == all_blocks.subrange(all_blocks.len() - blocks@.len(), all_blocks.len() as int),
                forall|i: int| 0 <= i < blocks@.len() ==> (#[trigger] blocks@[i]).1.wf(),
                forall|p: Vec3i| #[trigger] self.has_chunk(p) == (old(self).has_chunk(p) || (bounded_chunk_pos(p)
                    && block_list_has(all_blocks.subrange(0, all_blocks.len() - blocks@.len()), p))),
                forall|p: Vec3i| #[trigger] block_list_has(all_blocks, p) == (exists|i: int| 0 <= i < orig.len()
                    && #[trigger] blocks_response_at(orig[i], p)),
                forall|j: int| 0 <= j < old(self).chunk_list().len() && refuses_all(old(self).chunk_list()[j], orig)
                    ==> #[trigger] self.chunk_list()[j] == old(self).chunk_list()[j],
                old(self).chunk_list().len() <= self.chunk_list().len(),
                forall|k: int| 0 <= k < caches@.len() ==> cache_from(orig, (#[trigger] caches@[k]).0, caches@[k].3),
                forall|k: int| 0 <= k < lights@.len() ==> light_from(orig, (#[trigger] lights@[k]).0, lights@[k].2, lights@[k].1 is Some),
                forall|k: int| 0 <= k < meshes@.len() ==> mesh_from(orig, (#[trigger] meshes@[k]).0, meshes@[k].2),
                forall|p: Vec3i, fs: u64| #[trigger] old(self).accepts_at(p, fs) ==> self.accepts_at(p, fs),
                forall|p: Vec3i, fs: u64| #[trigger] old(self).lights_accept_at(p, fs) ==> self.lights_accept_at(p, fs),
                forall|i: int, p: Vec3i, fs: u64| 0 <= i < orig.len() && #[trigger] lights_response_at(orig[i], p, fs)
                    ==> light_list_has(lights@, p, fs),
                forall|i: int, p: Vec3i, fs: u64| 0 <= i < orig.len() && #[trigger] mesh_response_at(orig[i], p, fs)
                    ==> mesh_list_has(meshes@, p, fs),
            decreases blocks@.len(),
        {
            let ghost before = blocks@;
            let ghost done = all_blocks.len() - before.len();
            let (pos, b) = blocks.remove(0);
            proof {
                assert(before[0].1.wf());
                assert(before[0] == all_blocks[done]);
                assert forall|i: int| 0 <= i < blocks@.len() implies (#[trigger] blocks@[i]).1.wf() by {
                    assert(blocks@[i] == before[i + 1]);
                }
                assert(blocks@ =~= all_blocks.subrange(all_blocks.len() - blocks@.len(), all_blocks.len() as int));
            }
            let ghost mid = *self;
            self.receive_blocks(pos, b);
            proof {
                assert forall|j: int| 0 <= j < old(self).chunk_list().len() && refuses_all(old(self).chunk_list()[j], orig)
                    implies #[trigger] self.chunk_list()[j] == old(self).chunk_list()[j] by {
                    assert(self.chunk_list()[j] == mid.chunk_list()[j]);
                }
                assert forall|p: Vec3i, fs: u64| #[trigger] old(self).accepts_at(p, fs) implies self.accepts_at(p, fs) by {
                    assert(mid.accepts_at(p, fs));
                    let k = choose|k: int| 0 <= k < mid.chunk_list().len() && (#[trigger] mid.chunk_list()[k]).0 == p
                        && accepts(mid.chunk_list()[k].1.mesh_request(), mid.chunk_list()[k].1.state(), fs);
                    assert(self.chunk_list()[k] == mid.chunk_list()[k]);
                }
                assert forall|p: Vec3i, fs: u64| #[trigger] old(self).lights_accept_at(p, fs) implies self.lights_accept_at(p, fs) by {
                    assert(mid.lights_accept_at(p, fs));
                    let k = choose|k: int| 0 <= k < mid.chunk_list().len() && (#[trigger] mid.chunk_list()[k]).0 == p
                        && accepts(mid.chunk_list()[k].1.lights_request(), mid.chunk_list()[k].1.state(), fs);
                    assert(self.chunk_list()[k] == mid.chunk_list()[k]);
                }
                let prefix = all_blocks.subrange(0, done);
                let prefix1 = all_blocks.subrange(0, done + 1);
                assert forall|p: Vec3i| #[trigger] block_list_has(prefix1, p) == (block_list_has(prefix, p) || p == pos) by {
                    if block_list_has(prefix1, p) {
                        let k = choose|k: int| 0 <= k < prefix1.len() && (#[trigger] prefix1[k]).0 == p;
                        if k < done {
                            assert(prefix[k] == prefix1[k]);
                        }
                    }
                    if block_list_has(prefix, p) {
                        let k = choose|k: int| 0 <= k < prefix.len() && (#[trigger] prefix[k]).0 == p;
                        assert(prefix1[k] == prefix[k]);
                    }
                    if p == pos {
                        assert(prefix1[done].0 == pos);
                    }
                }
                assert forall|p: Vec3i| #[trigger] self.has_chunk(p) == (old(self).has_chunk(p) || (bounded_chunk_pos(p)
                    && block_list_has(all_blocks.subrange(0, all_blocks.len() - blocks@.len()), p))) by {
                    assert(self.has_chunk(p) == (mid.has_chunk(p) || (p == pos && bounded_chunk_pos(pos))));
                    assert(mid.has_chunk(p) == (old(self).has_chunk(p) || (bounded_chunk_pos(p) && block_list_has(prefix, p))));
                }
            }
        }
        proof {
            assert(all_blocks.subrange(0, all_blocks.len() as int) =~= all_blocks);
        }
        let ghost keys = self.chunk_list();
        let ghost after_blocks = *self;
        assert(forall|p: Vec3i| #[trigger] after_blocks.has_chunk(p) == (old(self).has_chunk(p)
            || (bounded_chunk_pos(p) && exists|i: int| 0 <= i < orig.len() && #[trigger] blocks_response_at(orig[i], p))));
        while caches.len() > 0
            invariant
                self.wf(),
                same_keys(self.chunk_list(), keys),
                keys == after_blocks.chunk_list(),
                forall|p: Vec3i| #[trigger] after_blocks.has_chunk(p) == (old(self).has_chunk(p)
                    || (bounded_chunk_pos(p) && exists|i: int| 0 <= i < orig.len() && #[trigger] blocks_response_at(orig[i], p))),
                forall|i: int| 0 <= i < caches@.len() ==> (#[trigger] caches@[i]).1.wf() && caches@[i].2.wf()
                    && caches@[i].1.kind() == LightPosKind::Light && caches@[i].2.kind() == LightPosKind::Sunlight,
                forall|p: Vec3i, fs: u64| #[trigger] old(self).accepts_at(p, fs) ==> self.accepts_at(p, fs),
                forall|p: Vec3i, fs: u64| #[trigger] old(self).lights_accept_at(p, fs) ==> self.lights_accept_at(p, fs),
                forall|i: int, p: Vec3i, fs: u64| 0 <= i < orig.len() && #[trigger] lights_response_at(orig[i], p, fs)
                    ==> light_list_has(lights@, p, fs),
                forall|i: int, p: Vec3i, fs: u64| 0 <= i < orig.len() && #[trigger] mesh_response_at(orig[i], p, fs)
                    ==> mesh_list_has(meshes@, p, fs),
                forall|j: int| 0 <= j < old(self).chunk_list().len() && refuses_all(old(self).chunk_list()[j], orig)
                    ==> #[trigger] self.chunk_list()[j] == old(self).chunk_list()[j],
                old(self).chunk_list().len() <= self.chunk_list().len(),
                forall|k: int| 0 <= k < caches@.len() ==> cache_from(orig, (#[trigger] caches@[k]).0, caches@[k].3),
                forall|k: int| 0 <= k < lights@.len() ==> light_from(orig, (#[trigger] lights@[k]).0, lights@[k].2, lights@[k].1 is Some),
                forall|k: int| 0 <= k < meshes@.len() ==> mesh_from(orig, (#[trigger] meshes@[k]).0, meshes@[k].2),
            decreases caches@.len(),
        {
            let ghost before = caches@;
            let (pos, l, sl, for_state) = caches.remove(0);
            proof {
                assert forall|k: int| 0 <= k < caches@.len() implies cache_from(orig, (#[trigger] caches@[k]).0, caches@[k].3) by {
                    assert(caches@[k] == before[k + 1]);
                }
                assert(cache_from(orig, before[0].0, before[0].3));
                assert(before[0].1.wf());
                assert forall|i: int| 0 <= i < caches@.len() implies (#[trigger] caches@[i]).1.wf() && caches@[i].2.wf()
                    && caches@[i].1.kind() == LightPosKind::Light && caches@[i].2.kind() == LightPosKind::Sunlight by {
                    assert(caches@[i] == before[i + 1]);
                }
            }
            if let Some(i) = self.find(&pos) {
                let ghost list = self.chunk_list();
                assert(list[i as int].1.wf());
                let ghost pre = self.chunk_list();
                if self.chunks[i].1.receive_light_pos_caches(for_state, l, sl) {
                    self.loading_chunks = self.loading_chunks.saturating_sub(1);
                }
                proof {
                    self.lemma_wf_after_update(list, i as int);
                    lemma_same_keys_trans(self.chunk_list(), list, keys);
                    assert forall|j: int| 0 <= j < old(self).chunk_list().len() && refuses_all(old(self).chunk_list()[j], orig)
                        implies #[trigger] self.chunk_list()[j] == old(self).chunk_list()[j] by {
                        if j != i as int {
                            assert(self.chunk_list()[j] == list[j]);
                        } else {
                            let w = choose|w: int| 0 <= w < orig.len() && (#[trigger] orig[w] matches Response::LightPosCache { pos: pp, for_state: ff, .. }
                                && pp == pos && ff == for_state);
                            assert(refuses(old(self).chunk_list()[j], orig[w]));
                        }
                    }
                    assert forall|p: Vec3i, fs: u64| #[trigger] old(self).accepts_at(p, fs) implies self.accepts_at(p, fs) by {
                        let k = choose|k: int| 0 <= k < list.len() && (#[trigger] list[k]).0 == p
                            && accepts(list[k].1.mesh_request(), list[k].1.state(), fs);
                        if k != i as int {
                            assert(self.chunk_list()[k] == list[k]);
                        } else {
                            assert(self.chunk_list()[k].0 == p);
                        }
                    }
                    assert forall|p: Vec3i, fs: u64| #[trigger] old(self).lights_accept_at(p, fs) implies self.lights_accept_at(p, fs) by {
                        let k = choose|k: int| 0 <= k < list.len() && (#[trigger] list[k]).0 == p
                            && accepts(list[k].1.lights_request(), list[k].1.state(), fs);
                        if k != i as int {
                            assert(self.chunk_list()[k] == list[k]);
                        } else {
                            assert(self.chunk_list()[k].0 == p);
                        }
                    }
                }
            }
        }
        let ghost all_l = lights@;
        let ghost bl = *self;
        while lights.len() > 0
            invariant
                self.wf(),
                lights@.len() <= all_l.len(),
                lights@ == all_l.subrange(all_l.len() - lights@.len(), all_l.len() as int),
                forall|p: Vec3i, fs: u64| #[trigger] old(self).lights_accept_at(p, fs) ==> bl.lights_accept_at(p, fs),
                forall|i: int, p: Vec3i, fs: u64| 0 <= i < orig.len() && #[trigger] lights_response_at(orig[i], p, fs)
                    ==> light_list_has(all_l, p, fs),
                forall|p: Vec3i, fs: u64| #[trigger] bl.lights_accept_at(p, fs) ==> self.lights_accept_at(p, fs) || self.lights_installed(p),
                forall|k: int| 0 <= k < all_l.len() - lights@.len() && (#[trigger] all_l[k]).1 is Some && bl.lights_accept_at(all_l[k].0, all_l[k].2)
                    ==> self.lights_installed(all_l[k].0),
                same_keys(self.chunk_list(), keys),
                keys == after_blocks.chunk_list(),
                forall|p: Vec3i| #[trigger] after_blocks.has_chunk(p) == (old(self).has_chunk(p)
                    || (bounded_chunk_pos(p) && exists|i: int| 0 <= i < orig.len() && #[trigger] blocks_response_at(orig[i], p))),
                forall|i: int| 0 <= i < lights@.len() ==> ((#[trigger] lights@[i]).1 matches Some(l) ==> l.wf()),
                forall|p: Vec3i, fs: u64| #[trigger] old(self).accepts_at(p, fs) ==> self.accepts_at(p, fs),
                forall|i: int, p: Vec3i, fs: u64| 0 <= i < orig.len() && #[trigger] mesh_response_at(orig[i], p, fs)
                    ==> mesh_list_has(meshes@, p, fs),
                forall|j: int| 0 <= j < old(self).chunk_list().len() && refuses_all(old(self).chunk_list()[j], orig)
                    ==> #[trigger] self.chunk_list()[j] == old(self).chunk_list()[j],
                old(self).chunk_list().len() <= self.chunk_list().len(),
                forall|k: int| 0 <= k < lights@.len() ==> light_from(orig, (#[trigger] lights@[k]).0, lights@[k].2, lights@[k].1 is Some),
                forall|k: int| 0 <= k < meshes@.len() ==> mesh_from(orig, (#[trigger] meshes@[k]).0, meshes@[k].2),
            decreases lights@.len(),
        {
            let ghost before = lights@;
            let ghost done = all_l.len() - before.len();
            let ghost prev = *self;
            let (pos, l, for_state) = lights.remove(0);
            proof {
                assert forall|k: int| 0 <= k < lights@.len() implies light_from(orig, (#[trigger] lights@[k]).0, lights@[k].2, lights@[k].1 is Some) by {
                    assert(lights@[k] == before[k + 1]);
                }
                assert(light_from(orig, before[0].0, before[0].2, before[0].1 is Some));
                assert(before[0] == all_l[done]);
                assert(lights@ =~= all_l.subrange(all_l.len() - lights@.len(), all_l.len() as int));
                assert(before[0].1 matches Some(x) ==> x.wf());
                assert forall|i: int| 0 <= i < lights@.len() implies ((#[trigger] lights@[i]).1 matches Some(x) ==> x.wf()) by {
                    assert(lights@[i] == before[i + 1]);
                }
            }
            if let Some(i) = self.find(&pos) {
                let ghost list = self.chunk_list();
                assert(list[i as int].1.wf());
                let ghost payload = l is Some;
                if self.chunks[i].1.receive_lights(for_state, l) {
                    self.loading_chunks = self.loading_chunks.saturating_sub(1);
                }
                proof {
                    self.lemma_wf_after_update(list, i as int);
                    lemma_same_keys_trans(self.chunk_list(), list, keys);
                    assert forall|j: int| 0 <= j < old(self).chunk_list().len() && refuses_all(old(self).chunk_list()[j], orig)
                        implies #[trigger] self.chunk_list()[j] == old(self).chunk_list()[j] by {
                        if j != i as int {
                            assert(self.chunk_list()[j] == list[j]);
                        } else {
                            let w = choose|w: int| 0 <= w < orig.len() && (#[trigger] orig[w] matches Response::Lights { pos: pp, lights: lv, for_state: ff }
                                && pp == pos && ff == for_state && (lv is Some) == payload);
                            assert(refuses(old(self).chunk_list()[j], orig[w]));
                        }
                    }
                    assert forall|p: Vec3i| #[trigger] prev.lights_installed(p) implies self.lights_installed(p) by {
                        let k = choose|k: int| 0 <= k < list.len() && (#[trigger] list[k]).0 == p
                            && list[k].1.data().light_buffer() is Some && list[k].1.lights_fresh() && list[k].1.lights_request() is None;
                        if k != i as int {
                            assert(self.chunk_list()[k] == list[k]);
                        } else {
                            assert(self.chunk_list()[k].0 == p);
                        }
                    }
                    assert forall|p: Vec3i, fs: u64| #[trigger] prev.lights_accept_at(p, fs) implies self.lights_accept_at(p, fs) || self.lights_installed(p) by {
                        let k = choose|k: int| 0 <= k < list.len() && (#[trigger] list[k]).0 == p
                            && accepts(list[k].1.lights_request(), list[k].1.state(), fs);
                        if k != i as int {
                            assert(self.chunk_list()[k] == list[k]);
                        } else {
                            assert(self.chunk_list()[k].0 == p);
                        }
                    }
                    if payload && bl.lights_accept_at(pos, for_state) {
                        if prev.lights_accept_at(pos, for_state) {
                            let k = choose|k: int| 0 <= k < list.len() && (#[trigger] list[k]).0 == pos
                                && accepts(list[k].1.lights_request(), list[k].1.state(), for_state);
                            assert(k == i as int);
                            assert(self.chunk_list()[k].0 == pos);
                        }
                    }
                    assert forall|p: Vec3i, fs: u64| #[trigger] old(self).accepts_at(p, fs) implies self.accepts_at(p, fs) by {
                        let k = choose|k: int| 0 <= k < list.len() && (#[trigger] list[k]).0 == p
                            && accepts(list[k].1.mesh_request(), list[k].1.state(), fs);
                        if k != i as int {
                            assert(self.chunk_list()[k] == list[k]);
                        } else {
                            assert(self.chunk_list()[k].0 == p);
                        }
                    }
                }
            } else {
                proof {
                    if bl.lights_accept_at(pos, for_state) {
                        if prev.lights_accept_at(pos, for_state) {
                            let k = choose|k: int| 0 <= k < prev.chunk_list().len() && (#[trigger] prev.chunk_list()[k]).0 == pos
                                && accepts(prev.chunk_list()[k].1.lights_request(), prev.chunk_list()[k].1.state(), for_state);
                            assert(prev.has_chunk(pos));
                        } else {
                            let k = choose|k: int| 0 <= k < prev.chunk_list().len() && (#[trigger] prev.chunk_list()[k]).0 == pos
                                && prev.chunk_list()[k].1.data().light_buffer() is Some && prev.chunk_list()[k].1.lights_fresh()
                                && prev.chunk_list()[k].1.lights_request() is None;
                            assert(prev.has_chunk(pos));
                        }
                    }
                }
            }
            proof {
                assert forall|k: int| 0 <= k < all_l.len() - lights@.len() && (#[trigger] all_l[k]).1 is Some && bl.lights_accept_at(all_l[k].0, all_l[k].2)
                    implies self.lights_installed(all_l[k].0) by {
                    if k < done {
                        assert(prev.lights_installed(all_l[k].0));
                    }
                }
            }
        }
        let ghost all_m = meshes@;
        let ghost bm = *self;
        while meshes.len() > 0
            invariant
                self.wf(),
                meshes@.len() <= all_m.len(),
                meshes@ == all_m.subrange(all_m.len() - meshes@.len(), all_m.len() as int),
                forall|p: Vec3i, fs: u64| #[trigger] bm.accepts_at(p, fs) ==> self.accepts_at(p, fs) || self.mesh_installed(p),
                forall|k: int| 0 <= k < all_m.len() - meshes@.len() && bm.accepts_at((#[trigger] all_m[k]).0, all_m[k].2)
                    ==> self.mesh_installed(all_m[k].0),
                forall|p: Vec3i, fs: u64| #[trigger] old(self).lights_accept_at(p, fs) ==> bl.lights_accept_at(p, fs),
                forall|i: int, p: Vec3i, fs: u64| 0 <= i < orig.len() && #[trigger] lights_response_at(orig[i], p, fs)
                    ==> light_list_has(all_l, p, fs),
                forall|k: int| 0 <= k < all_l.len() && (#[trigger] all_l[k]).1 is Some && bl.lights_accept_at(all_l[k].0, all_l[k].2)
                    ==> self.lights_installed(all_l[k].0),
                same_keys(self.chunk_list(), keys),
                keys == after_blocks.chunk_list(),
                forall|p: Vec3i| #[trigger] after_blocks.has_chunk(p) == (old(self).has_chunk(p)
                    || (bounded_chunk_pos(p) && exists|i: int| 0 <= i < orig.len() && #[trigger] blocks_response_at(orig[i], p))),
                forall|j: int| 0 <= j < old(self).chunk_list().len() && refuses_all(old(self).chunk_list()[j], orig)
                    ==> #[trigger] self.chunk_list()[j] == old(self).chunk_list()[j],
                old(self).chunk_list().len() <= self.chunk_list().len(),
                forall|k: int| 0 <= k < meshes@.len() ==> mesh_from(orig, (#[trigger] meshes@[k]).0, meshes@[k].2),
            decreases meshes@.len(),
        {
            let ghost before = meshes@;
            let ghost done = all_m.len() - before.len();
            let ghost prev = *self;
            let (pos, mesh, for_state) = meshes.remove(0);
            proof {
                assert forall|k: int| 0 <= k < meshes@.len() implies mesh_from(orig, (#[trigger] meshes@[k]).0, meshes@[k].2) by {
                    assert(meshes@[k] == before[k + 1]);
                }
                assert(mesh_from(orig, before[0].0, before[0].2));
                assert(before[0] == all_m[done]);
                assert(meshes@ =~= all_m.subrange(all_m.len() - meshes@.len(), all_m.len() as int));
            }
            if let Some(i) = self.find(&pos) {
                let ghost list = self.chunk_list();
                assert(list[i as int].1.wf());
                if self.chunks[i].1.receive_mesh(for_state, mesh) {
                    self.loading_chunks = self.loading_chunks.saturating_sub(1);
                }
                proof {
                    self.lemma_wf_after_update(list, i as int);
                    lemma_same_keys_trans(self.chunk_list(), list, keys);
                    assert forall|p: Vec3i| #[trigger] prev.lights_installed(p) implies self.lights_installed(p) by {
                        let k = choose|k: int| 0 <= k < list.len() && (#[trigger] list[k]).0 == p
                            && list[k].1.data().light_buffer() is Some && list[k].1.lights_fresh() && list[k].1.lights_request() is None;
                        if k != i as int {
                            assert(self.chunk_list()[k] == list[k]);
                        } else {
                            assert(self.chunk_list()[k].0 == p);
                        }
                    }
                    assert forall|k: int| 0 <= k < all_l.len() && (#[trigger] all_l[k]).1 is Some && bl.lights_accept_at(all_l[k].0, all_l[k].2)
                        implies self.lights_installed(all_l[k].0) by {
                        assert(prev.lights_installed(all_l[k].0));
                    }
                    assert forall|j: int| 0 <= j < old(self).chunk_list().len() && refuses_all(old(self).chunk_list()[j], orig)
                        implies #[trigger] self.chunk_list()[j] == old(self).chunk_list()[j] by {
                        if j != i as int {
                            assert(self.chunk_list()[j] == list[j]);
                        } else {
                            let w = choose|w: int| 0 <= w < orig.len() && #[trigger] mesh_response_at(orig[w], pos, for_state);
                            assert(refuses(old(self).chunk_list()[j], orig[w]));
                        }
                    }
                    assert forall|p: Vec3i| #[trigger] prev.mesh_installed(p) implies self.mesh_installed(p) by {
                        let k = choose|k: int| 0 <= k < list.len() && (#[trigger] list[k]).0 == p && list[k].1.has_mesh()
                            && list[k].1.mesh_fresh() && list[k].1.mesh_request() is None;
                        if k != i as int {
                            assert(self.chunk_list()[k] == list[k]);
                        } else {
                            assert(self.chunk_list()[k].0 == p);
                        }
                    }
                    assert forall|p: Vec3i, fs: u64| #[trigger] prev.accepts_at(p, fs) implies self.accepts_at(p, fs) || self.mesh_installed(p) by {
                        let k = choose|k: int| 0 <= k < list.len() && (#[trigger] list[k]).0 == p
                            && accepts(list[k].1.mesh_request(), list[k].1.state(), fs);
                        if k != i as int {
                            assert(self.chunk_list()[k] == list[k]);
                        } else {
                            assert(self.chunk_list()[k].0 == p);
                        }
                    }
                    if bm.accepts_at(pos, for_state) {
                        if prev.accepts_at(pos, for_state) {
                            let k = choose|k: int| 0 <= k < list.len() && (#[trigger] list[k]).0 == pos
                                && accepts(list[k].1.mesh_request(), list[k].1.state(), for_state);
                            assert(k == i as int);
                            assert(self.chunk_list()[k].0 == pos);
                        }
                    }
                }
            } else {
                proof {
                    if bm.accepts_at(pos, for_state) {
                        if prev.accepts_at(pos, for_state) {
                            let k = choose|k: int| 0 <= k < prev.chunk_list().len() && (#[trigger] prev.chunk_list()[k]).0 == pos
                                && accepts(prev.chunk_list()[k].1.mesh_request(), prev.chunk_list()[k].1.state(), for_state);
                            assert(prev.has_chunk(pos));
                        } else {
                            let k = choose|k: int| 0 <= k < prev.chunk_list().len() && (#[trigger] prev.chunk_list()[k]).0 == pos
                                && prev.chunk_list()[k].1.has_mesh() && prev.chunk_list()[k].1.mesh_fresh()
                                && prev.chunk_list()[k].1.mesh_request() is None;
                            assert(prev.has_chunk(pos));
                        }
                    }
                }
            }
            proof {
                assert forall|k: int| 0 <= k < all_m.len() - meshes@.len() && bm.accepts_at((#[trigger] all_m[k]).0, all_m[k].2)
                    implies self.mesh_installed(all_m[k].0) by {
                    if k < done {
                        assert(prev.mesh_installed(all_m[k].0));
                    }
                }
            }
        }
        proof {
            assert forall|i: int, p: Vec3i, fs: u64| 0 <= i < orig.len() && #[trigger] lights_response_at(orig[i], p, fs)
                && old(self).lights_accept_at(p, fs) implies self.lights_installed(p) by {
                assert(light_list_has(all_l, p, fs));
                let k = choose|k: int| 0 <= k < all_l.len() && (#[trigger] all_l[k]).0 == p && all_l[k].2 == fs && all_l[k].1 is Some;
                assert(bl.lights_accept_at(p, fs));
            }
            assert forall|i: int, p: Vec3i, fs: u64| 0 <= i < orig.len() && #[trigger] mesh_response_at(orig[i], p, fs)
                && old(self).accepts_at(p, fs) implies self.mesh_installed(p) by {
                assert(mesh_list_has(all_m, p, fs));
                let k = choose|k: int| 0 <= k < all_m.len() && (#[trigger] all_m[k]).0 == p && all_m[k].2 == fs;
                assert(bm.accepts_at(p, fs));
            }
            assert forall|p: Vec3i| #[trigger] self.has_chunk(p) == (old(self).has_chunk(p)
                || (bounded_chunk_pos(p) && exists|i: int| 0 <= i < orig.len() && #[trigger] blocks_response_at(orig[i], p))) by {
                if self.has_chunk(p) {
                    let k = choose|k: int| 0 <= k < self.chunk_list().len() && (#[trigger] self.chunk_list()[k]).0 == p;
                    assert(keys[k].0 == p);
                    assert(after_blocks.has_chunk(p));
                }
                if after_blocks.has_chunk(p) {
                    let k = choose|k: int| 0 <= k < keys.len() && (#[trigger] keys[k]).0 == p;
                    assert(self.chunk_list()[k].0 == p);
                }
            }
        }
    }

    proof fn lemma_other_response(&self, orig: Seq<Response>, consumed: int, before_blocks: Seq<(Vec3i, BlockBuffer)>,
        blocks: Seq<(Vec3i, BlockBuffer)>)
        requires
            0 <= consumed < orig.len(),
            !(orig[consumed] is Blocks),
            blocks == before_blocks,
            forall|p: Vec3i| #[trigger] block_list_has(before_blocks, p) == (exists|i: int| 0 <= i < consumed
                && #[trigger] blocks_response_at(orig[i], p)),
        ensures
            forall|p: Vec3i| #[trigger] block_list_has(blocks, p) == (exists|i: int| 0 <= i < consumed + 1
                && #[trigger] blocks_response_at(orig[i], p)),
    {
        assert forall|p: Vec3i| #[trigger] block_list_has(blocks, p) == (exists|i: int| 0 <= i < consumed + 1
            && #[trigger] blocks_response_at(orig[i], p)) by {
            if exists|i: int| 0 <= i < consumed + 1 && #[trigger] blocks_response_at(orig[i], p) {
                let i = choose|i: int| 0 <= i < consumed + 1 && #[trigger] blocks_response_at(orig[i], p);
                assert(i != consumed);
            }
        }
    }

    /// Stores freshly generated or loaded blocks as a new chunk, unless that chunk is
    /// already loaded or its coordinate is out of range.
    pub fn receive_blocks(&mut self, pos: Vec3i, blocks: BlockBuffer)
        requires
            old(self).wf(),
            blocks.wf(),
        ensures
            final(self).wf(),
            final(self).has_chunk(pos) == (old(self).has_chunk(pos) || bounded_chunk_pos(pos)),
            !old(self).has_chunk(pos) && bounded_chunk_pos(pos) ==>
                final(self).chunk_list() == old(self).chunk_list().push((pos, final(self).chunk_list().last().1))
                && final(self).chunk_list().last().1.cells() == blocks.cells(),
            old(self).has_chunk(pos) || !bounded_chunk_pos(pos) ==> *final(self) == *old(self),
            forall|q: Vec3i| #[trigger] final(self).has_chunk(q) == (old(self).has_chunk(q) || (q == pos && bounded_chunk_pos(pos))),
    {
        if self.find(&pos).is_some() {
            return;
        }
        let ok = pos.x != 0 && pos.y != 0 && pos.z != 0 && -CHUNK_COORD_LIMIT <= pos.x && pos.x <= CHUNK_COORD_LIMIT
            && -CHUNK_COORD_LIMIT <= pos.y && pos.y <= CHUNK_COORD_LIMIT && -CHUNK_COORD_LIMIT <= pos.z
            && pos.z <= CHUNK_COORD_LIMIT;
        if !ok {
            return;
        }
        let mut k: usize = 0;
        while k < self.requested_chunks_list.len()
            invariant
                k <= self.requested_chunks_list@.len(),
                self.chunk_list() == old(self).chunk_list(),
            decreases self.requested_chunks_list@.len() - k,
        {
            if self.requested_chunks_list[k] == pos {
                self.requested_chunks_list.remove(k);
                break;
            }
            k = k + 1;
        }
        self.loading_chunks = self.loading_chunks.saturating_sub(1);
        let chunk = Chunk::new(blocks);
        let ghost before = self.chunk_list();
        self.chunks.push((pos, chunk));
        proof {
            assert(self.chunk_list()[before.len() as int].0 == pos);
            assert forall|q: Vec3i| #[trigger] self.has_chunk(q) == (old(self).has_chunk(q) || q == pos) by {
                if old(self).has_chunk(q) {
                    let j = choose|j: int| 0 <= j < before.len() && (#[trigger] before[j]).0 == q;
                    assert(self.chunk_list()[j] == before[j]);
                }
                if self.has_chunk(q) && q != pos {
                    let j = choose|j: int| 0 <= j < self.chunk_list().len() && (#[trigger] self.chunk_list()[j]).0 == q;
                    assert(before[j] == self.chunk_list()[j]);
                }
            }
        }
    }

    proof fn lemma_wf_after_update(&self, before: Seq<(Vec3i, Chunk)>, i: int)
        requires
            0 <= i < before.len(),
            self.chunk_list() == before.update(i, (before[i].0, self.chunk_list()[i].1)),
            self.chunk_list()[i].1.wf(),
            forall|j: int| 0 <= j < before.len() ==> (#[trigger] before[j]).1.wf() && bounded_chunk_pos(before[j].0),
            forall|a: int, b: int| 0 <= a < before.len() && 0 <= b < before.len() && a != b
                ==> (#[trigger] before[a]).0 != (#[trigger] before[b]).0,
        ensures
            self.wf(),
            same_keys(self.chunk_list(), before),
    {
        assert forall|a: int, b: int| 0 <= a < self.chunk_list().len() && 0 <= b < self.chunk_list().len() && a != b
            implies (#[trigger] self.chunk_list()[a]).0 != (#[trigger] self.chunk_list()[b]).0 by {
            assert(self.chunk_list()[a].0 == before[a].0);
            assert(self.chunk_list()[b].0 == before[b].0);
        }
    }

    /// Evicts every chunk farther than the larger render distance plus four chunks from the
    /// viewer (by Euclidean distance between chunk coordinates) and returns the evicted
    /// chunks' blocks for saving.
    pub fn purge(&mut self, camera_chunk_pos: &Vec3i, render_distance_horizontal: u32, render_distance_vertical: u32)
        -> (r: Vec<(Vec3i, Arc<BlockBuffer>)>)
        requires
            old(self).wf(),
        ensures
            final(self).wf(),
            final(self).chunk_list().len() + r@.len() == old(self).chunk_list().len(),
            forall|i: int| 0 <= i < final(self).chunk_list().len() ==> within_purge_radius(*camera_chunk_pos,
                (#[trigger] final(self).chunk_list()[i]).0, render_distance_horizontal, render_distance_vertical),
            forall|i: int| 0 <= i < r@.len() ==> !within_purge_radius(*camera_chunk_pos, (#[trigger] r@[i]).0,
                render_distance_horizontal, render_distance_vertical),
            forall|i: int| 0 <= i < final(self).chunk_list().len() ==> #[trigger] kept_from(final(self).chunk_list()[i], old(self).chunk_list()),
            forall|i: int| 0 <= i < r@.len() ==> #[trigger] evicted_from(r@[i], old(self).chunk_list()),
            forall|j: int| 0 <= j < old(self).chunk_list().len() && within_purge_radius(*camera_chunk_pos,
                old(self).chunk_list()[j].0, render_distance_horizontal, render_distance_vertical)
                ==> #[trigger] kept_from(old(self).chunk_list()[j], final(self).chunk_list()),
            forall|a: int, b: int| 0 <= a < r@.len() && 0 <= b < r@.len() && a != b ==> (#[trigger] r@[a]).0 != (#[trigger] r@[b]).0,
    {
        let radius: i128 = (if render_distance_horizontal > render_distance_vertical {
            render_distance_horizontal
        } else {
            render_distance_vertical
        }) as i128 + 4;
        let mut kept: Vec<(Vec3i, Chunk)> = Vec::new();
        let mut evicted: Vec<(Vec3i, Arc<BlockBuffer>)> = Vec::new();
        let mut chunks: Vec<(Vec3i, Chunk)> = Vec::new();
        std::mem::swap(&mut chunks, &mut self.chunks);
        let ghost all = chunks@;
        while chunks.len() > 0
            invariant
                kept@.len() + evicted@.len() + chunks@.len() == all.len(),
                all == old(self).chunk_list(),
                old(self).wf(),
                chunks@ == all.subrange(all.len() - chunks@.len(), all.len() as int),
                forall|i: int| 0 <= i < kept@.len() ==> (#[trigger] kept@[i]).1.wf() && bounded_chunk_pos(kept@[i].0)
                    && within_purge_radius(*camera_chunk_pos, kept@[i].0, render_distance_horizontal, render_distance_vertical),
                forall|i: int| 0 <= i < kept@.len() ==> exists|j: int| 0 <= j < all.len() - chunks@.len()
                    && #[trigger] kept@[i].0 == all[j].0 && kept@[i] == all[j],
                forall|i: int| 0 <= i < evicted@.len() ==> exists|j: int| 0 <= j < all.len() - chunks@.len()
                    && (#[trigger] evicted@[i]).0 == all[j].0 && *evicted@[i].1 == all[j].1.data().block_buffer(),
                forall|j: int| 0 <= j < all.len() - chunks@.len() && within_purge_radius(*camera_chunk_pos, all[j].0,
                    render_distance_horizontal, render_distance_vertical) ==> #[trigger] kept_from(all[j], kept@),
                forall|a: int, b: int| 0 <= a < evicted@.len() && 0 <= b < evicted@.len() && a != b
                    ==> (#[trigger] evicted@[a]).0 != (#[trigger] evicted@[b]).0,
                forall|a: int, b: int| 0 <= a < kept@.len() && 0 <= b < kept@.len() && a != b
                    ==> (#[trigger] kept@[a]).0 != (#[trigger] kept@[b]).0,
                forall|i: int| 0 <= i < evicted@.len() ==> !within_purge_radius(*camera_chunk_pos, (#[trigger] evicted@[i]).0,
                    render_distance_horizontal, render_distance_vertical),
                radius == max_distance(render_distance_horizontal, render_distance_vertical),
            decreases chunks@.len(),
        {
            let ghost before = chunks@;
            let (pos, chunk) = chunks.remove(0);
            proof {
                assert(chunks@ =~= all.subrange(all.len() - chunks@.len(), all.len() as int));
            }
            let dx = pos.x as i128 - camera_chunk_pos.x as i128;
            let dy = pos.y as i128 - camera_chunk_pos.y as i128;
            let dz = pos.z as i128 - camera_chunk_pos.z as i128;
            proof {
                assert(0 <= dx * dx <= 0x1_0000_0000_0000_0000) by (nonlinear_arith)
                    requires -0x1_0000_0000 <= dx <= 0x1_0000_0000;
                assert(0 <= dy * dy <= 0x1_0000_0000_0000_0000) by (nonlinear_arith)
                    requires -0x1_0000_0000 <= dy <= 0x1_0000_0000;
                assert(0 <= dz * dz <= 0x1_0000_0000_0000_0000) by (nonlinear_arith)
                    requires -0x1_0000_0000 <= dz <= 0x1_0000_0000;
                assert(0 <= radius * radius <= 0x4_0000_0000_0000_0000) by (nonlinear_arith)
                    requires 0 <= radius <= 0x2_0000_0000;
            }
            if dx * dx + dy * dy + dz * dz <= radius * radius {
                proof {
                    let idx = all.len() - before.len();
                    assert(all[idx] == before[0]);
                    assert forall|a: int| 0 <= a < kept@.len() implies (#[trigger] kept@[a]).0 != pos by {
                        let j = choose|j: int| 0 <= j < idx && #[trigger] kept@[a].0 == all[j].0 && kept@[a] == all[j];
                        assert(all[j].0 != all[idx].0);
                    }
                }
                let ghost k0 = kept@;
                kept.push((pos, chunk));
                proof {
                    let idx = all.len() - before.len();
                    assert forall|i: int| 0 <= i < kept@.len() implies exists|j: int| 0 <= j < all.len() - chunks@.len()
                        && #[trigger] kept@[i].0 == all[j].0 by {
                        if i == kept@.len() - 1 {
                            assert(kept@[i].0 == all[idx].0 && kept@[i] == all[idx]);
                        } else {
                            let j = choose|j: int| 0 <= j < idx && #[trigger] kept@[i].0 == all[j].0 && kept@[i] == all[j];
                            assert(kept@[i].0 == all[j].0 && kept@[i] == all[j]);
                        }
                    }
                    assert forall|j: int| 0 <= j < all.len() - chunks@.len() && within_purge_radius(*camera_chunk_pos, all[j].0,
                        render_distance_horizontal, render_distance_vertical) implies #[trigger] kept_from(all[j], kept@) by {
                        if j < idx {
                            assert(kept_from(all[j], k0));
                            let i = choose|i: int| 0 <= i < k0.len() && all[j] == k0[i];
                            assert(kept@[i] == all[j]);
                        } else {
                            assert(kept@[kept@.len() - 1] == all[j]);
                        }
                    }
                }
            } else {
                let ghost ev0 = evicted@;
                evicted.push((pos, chunk.blocks()));
                proof {
                    let idx = all.len() - before.len();
                    assert(all[idx] == before[0]);
                    assert forall|i: int| 0 <= i < evicted@.len() implies exists|j: int| 0 <= j < all.len()
                        && (#[trigger] evicted@[i]).0 == all[j].0 && *evicted@[i].1 == all[j].1.data().block_buffer() by {
                        if i < ev0.len() {
                            assert(evicted@[i] == ev0[i]);
                        } else {
                            assert(evicted@[i].0 == all[idx].0);
                        }
                    }
                    assert forall|a: int, b: int| 0 <= a < evicted@.len() && 0 <= b < evicted@.len() && a != b
                        implies (#[trigger] evicted@[a]).0 != (#[trigger] evicted@[b]).0 by {
                        if a < ev0.len() && b < ev0.len() {
                            assert(evicted@[a] == ev0[a] && evicted@[b] == ev0[b]);
                        } else if a < ev0.len() {
                            assert(evicted@[a] == ev0[a]);
                            let j = choose|j: int| 0 <= j < idx && (#[trigger] ev0[a]).0 == all[j].0 && *ev0[a].1 == all[j].1.data().block_buffer();
                            assert(all[j].0 != all[idx].0);
                        } else if b < ev0.len() {
                            assert(evicted@[b] == ev0[b]);
                            let j = choose|j: int| 0 <= j < idx && (#[trigger] ev0[b]).0 == all[j].0 && *ev0[b].1 == all[j].1.data().block_buffer();
                            assert(all[j].0 != all[idx].0);
                        }
                    }
                    assert forall|j: int| 0 <= j < all.len() - chunks@.len() && within_purge_radius(*camera_chunk_pos, all[j].0,
                        render_distance_horizontal, render_distance_vertical) implies #[trigger] kept_from(all[j], kept@) by {
                        if j == idx {
                            assert(!within_purge_radius(*camera_chunk_pos, all[j].0, render_distance_horizontal, render_distance_vertical));
                        }
                    }
                    let idx = all.len() - before.len();
                    assert forall|i: int| 0 <= i < kept@.len() implies exists|j: int| 0 <= j < all.len() - chunks@.len()
                        && #[trigger] kept@[i].0 == all[j].0 by {
                        let j = choose|j: int| 0 <= j < idx && #[trigger] kept@[i].0 == all[j].0 && kept@[i] == all[j];
                        assert(kept@[i].0 == all[j].0 && kept@[i] == all[j]);
                    }
                }
            }
        }
        self.chunks = kept;
        proof {
            assert forall|i: int| 0 <= i < self.chunk_list().len() implies #[trigger] kept_from(self.chunk_list()[i], old(self).chunk_list()) by {
                let j = choose|j: int| 0 <= j < all.len() - 0 && #[trigger] kept@[i].0 == all[j].0 && kept@[i] == all[j];
                assert(self.chunk_list()[i] == old(self).chunk_list()[j]);
            }
            assert forall|j: int| 0 <= j < old(self).chunk_list().len() && within_purge_radius(*camera_chunk_pos,
                old(self).chunk_list()[j].0, render_distance_horizontal, render_distance_vertical)
                implies #[trigger] kept_from(old(self).chunk_list()[j], self.chunk_list()) by {
                assert(kept_from(all[j], kept@));
                let i = choose|i: int| 0 <= i < kept@.len() && all[j] == kept@[i];
                assert(self.chunk_list()[i] == old(self).chunk_list()[j]);
            }
            assert forall|i: int| 0 <= i < evicted@.len() implies #[trigger] evicted_from(evicted@[i], old(self).chunk_list()) by {
                let j = choose|j: int| 0 <= j < all.len() && (#[trigger] evicted@[i]).0 == all[j].0
                    && *evicted@[i].1 == all[j].1.data().block_buffer();
                assert(all[j] == old(self).chunk_list()[j]);
            }
        }
        evicted
    }

    /// The blocks of every loaded chunk, for saving.
    pub fn save(&self) -> (r: Vec<(Vec3i, Arc<BlockBuffer>)>)
        ensures
            r@.len() == self.chunk_list().len(),
            forall|i: int| 0 <= i < r@.len() ==> (#[trigger] r@[i]).0 == self.chunk_list()[i].0
                && *r@[i].1 == self.chunk_list()[i].1.data().block_buffer(),
    {
        let mut out: Vec<(Vec3i, Arc<BlockBuffer>)> = Vec::new();
        let mut i: usize = 0;
        while i < self.chunks.len()
            invariant
                i <= self.chunks@.len(),
                out@.len() == i,
                forall|j: int| 0 <= j < i ==> (#[trigger] out@[j]).0 == self.chunk_list()[j].0
                    && *out@[j].1 == self.chunk_list()[j].1.data().block_buffer(),
            decreases self.chunks@.len() - i,
        {
            out.push((self.chunks[i].0, self.chunks[i].1.blocks()));
            i = i + 1;
        }
        out
    }

    /// Forgets every outstanding request (the workers are restarted with a new seed) while
    /// keeping the loaded chunks.
    pub fn reset_chunks(&mut self)
        requires
            old(self).wf(),
        ensures
            final(self).wf(),
            same_keys(final(self).chunk_list(), old(self).chunk_list()),
            final(self).outbox().len() == 0,
            final(self).requested_list().len() == 0,
            final(self).loading() == 0,
            forall|i: int| 0 <= i < final(self).chunk_list().len() ==> (#[trigger] final(self).chunk_list()[i]).1.mesh_request() is None
                && final(self).chunk_list()[i].1.lights_request() is None
                && final(self).chunk_list()[i].1.cache_request() is None,
    {
        self.requests = Vec::new();
        self.requested_chunks_list = Vec::new();
        self.loading_chunks = 0;
        assert(self.chunk_list() == old(self).chunk_list());
        let mut i: usize = 0;
        while i < self.chunks.len()
            invariant
                i <= self.chunks@.len(),
                self.wf(),
                same_keys(self.chunk_list(), old(self).chunk_list()),
                self.outbox().len() == 0,
                self.requested_list().len() == 0,
                self.loading() == 0,
                forall|j: int| 0 <= j < i ==> (#[trigger] self.chunk_list()[j]).1.mesh_request() is None
                    && self.chunk_list()[j].1.lights_request() is None
                    && self.chunk_list()[j].1.cache_request() is None,
            decreases self.chunks@.len() - i,
        {
            let ghost list = self.chunk_list();
            assert(list[i as int].1.wf());
            self.chunks[i].1.set_mesh_requested(false);
            self.chunks[i].1.set_lights_requested(false);
            self.chunks[i].1.set_light_pos_cache_requested(false);
            proof {
                assert(self.chunk_list() =~= list.update(i as int, (list[i as int].0, self.chunk_list()[i as int].1)));
                self.lemma_wf_after_update(list, i as int);
                assert forall|j: int| 0 <= j < i + 1 implies (#[trigger] self.chunk_list()[j]).1.mesh_request() is None
                    && self.chunk_list()[j].1.lights_request() is None
                    && self.chunk_list()[j].1.cache_request() is None by {
                    if j < i {
                        assert(self.chunk_list()[j] == list[j]);
                    }
                }
            }
            i = i + 1;
        }
    }

    pub closed spec fn transparency_enabled(&self) -> bool {
        self.transparency
    }

    pub fn transparency(&self) -> (r: bool)
        ensures
            r == self.transparency_enabled(),
    {
        self.transparency
    }

    /// Outstanding work, counted in whole chunks (each chunk passes four stages).
    pub fn loading_chunks(&self) -> (r: u32)
        ensures
            r == self.loading() / 4,
    {
        self.loading_chunks / 4
    }

    /// The mesh groups to draw in the render volume around `camera_chunk_pos`: one handle for
    /// every loaded chunk there whose stored mesh has indices in that group, solid groups
    /// first.
    pub fn collect_handles(&self, camera_chunk_pos: &Vec3i, h: u32, v: u32) -> (r: Vec<MeshHandle>)
        requires
            self.wf(),
            bounded_chunk_pos(*camera_chunk_pos),
            h <= 0x1000_0000,
            v <= 0x1000_0000,
        ensures
            forall|j: int| 0 <= j < r@.len() ==> self.shows((#[trigger] r@[j]).chunk_pos, r@[j].translucent)
                && in_volume(*camera_chunk_pos, r@[j].chunk_pos, h as int, v as int),
            forall|a: int, b: int, d: int, t: bool| -h <= a <= h && -v <= b <= v && -h <= d <= h
                && #[trigger] self.shows(offset_chunk(*camera_chunk_pos, a, b, d), t)
                ==> listed(r@, offset_chunk(*camera_chunk_pos, a, b, d), t),
            forall|x: int, y: int| 0 <= x < y < r@.len() && (#[trigger] r@[x]).translucent ==> (#[trigger] r@[y]).translucent,
            forall|x: int, y: int| 0 <= x < r@.len() && 0 <= y < r@.len() && x != y ==> (#[trigger] r@[x]) != (#[trigger] r@[y]),
    {
        let c = *camera_chunk_pos;
        let hi = h as i32;
        let vi = v as i32;
        let mut solids: Vec<MeshHandle> = Vec::new();
        let mut trans: Vec<MeshHandle> = Vec::new();
        let mut a: i32 = -hi;
        while a <= hi
            invariant
                -hi <= a <= hi + 1,
                hi == h,
                vi == v,
                h <= 0x1000_0000,
                v <= 0x1000_0000,
                c == *camera_chunk_pos,
                bounded_chunk_pos(c),
                self.wf(),
                forall|j: int| 0 <= j < solids@.len() ==> !(#[trigger] solids@[j]).translucent
                    && self.shows(solids@[j].chunk_pos, false) && in_volume(c, solids@[j].chunk_pos, h as int, v as int)
                    && placed_before(c, solids@[j].chunk_pos, h as int, v as int, a as int, -(v as int), -(h as int)),
                forall|j: int| 0 <= j < trans@.len() ==> (#[trigger] trans@[j]).translucent
                    && self.shows(trans@[j].chunk_pos, true) && in_volume(c, trans@[j].chunk_pos, h as int, v as int)
                    && placed_before(c, trans@[j].chunk_pos, h as int, v as int, a as int, -(v as int), -(h as int)),
                forall|a2: int, b2: int, d2: int| -h <= a2 <= h && -v <= b2 <= v && -h <= d2 <= h
                    && walked_before(a2, b2, d2, a as int, -v, -h) && #[trigger] offset_chunk(c, a2, b2, d2) == offset_chunk(c, a2, b2, d2)
                    ==> (self.shows(offset_chunk(c, a2, b2, d2), false) ==> listed(solids@, offset_chunk(c, a2, b2, d2), false))
                    && (self.shows(offset_chunk(c, a2, b2, d2), true) ==> listed(trans@, offset_chunk(c, a2, b2, d2), true)),
                forall|x: int, y: int| 0 <= x < solids@.len() && 0 <= y < solids@.len() && x != y ==> (#[trigger] solids@[x]) != (#[trigger] solids@[y]),
                forall|x: int, y: int| 0 <= x < trans@.len() && 0 <= y < trans@.len() && x != y ==> (#[trigger] trans@[x]) != (#[trigger] trans@[y]),
            decreases hi + 1 - a,
        {
            let mut b: i32 = -vi;
            while b <= vi
                invariant
                    -hi <= a <= hi,
                    -vi <= b <= vi + 1,
                    hi == h,
                    vi == v,
                    h <= 0x1000_0000,
                    v <= 0x1000_0000,
                    c == *camera_chunk_pos,
                    bounded_chunk_pos(c),
                    self.wf(),
                    forall|j: int| 0 <= j < solids@.len() ==> !(#[trigger] solids@[j]).translucent
                        && self.shows(solids@[j].chunk_pos, false) && in_volume(c, solids@[j].chunk_pos, h as int, v as int)
                    && placed_before(c, solids@[j].chunk_pos, h as int, v as int, a as int, b as int, -(h as int)),
                    forall|j: int| 0 <= j < trans@.len() ==> (#[trigger] trans@[j]).translucent
                        && self.shows(trans@[j].chunk_pos, true) && in_volume(c, trans@[j].chunk_pos, h as int, v as int)
                    && placed_before(c, trans@[j].chunk_pos, h as int, v as int, a as int, b as int, -(h as int)),
                    forall|a2: int, b2: int, d2: int| -h <= a2 <= h && -v <= b2 <= v && -h <= d2 <= h
                        && walked_before(a2, b2, d2, a as int, b as int, -h) && #[trigger] offset_chunk(c, a2, b2, d2) == offset_chunk(c, a2, b2, d2)
                        ==> (self.shows(offset_chunk(c, a2, b2, d2), false) ==> listed(solids@, offset_chunk(c, a2, b2, d2), false))
                        && (self.shows(offset_chunk(c, a2, b2, d2), true) ==> listed(trans@, offset_chunk(c, a2, b2, d2), true)),
                forall|x: int, y: int| 0 <= x < solids@.len() && 0 <= y < solids@.len() && x != y ==> (#[trigger] solids@[x]) != (#[trigger] solids@[y]),
                forall|x: int, y: int| 0 <= x < trans@.len() && 0 <= y < trans@.len() && x != y ==> (#[trigger] trans@[x]) != (#[trigger] trans@[y]),
                decreases vi + 1 - b,
            {
                let mut d: i32 = -hi;
                while d <= hi
                    invariant
                        -hi <= a <= hi,
                        -vi <= b <= vi,
                        -hi <= d <= hi + 1,
                        hi == h,
                        vi == v,
                        h <= 0x1000_0000,
                        v <= 0x1000_0000,
                        c == *camera_chunk_pos,
                        bounded_chunk_pos(c),
                        self.wf(),
                        forall|j: int| 0 <= j < solids@.len() ==> !(#[trigger] solids@[j]).translucent
                            && self.shows(solids@[j].chunk_pos, false) && in_volume(c, solids@[j].chunk_pos, h as int, v as int)
                    && placed_before(c, solids@[j].chunk_pos, h as int, v as int, a as int, b as int, d as int),
                        forall|j: int| 0 <= j < trans@.len() ==> (#[trigger] trans@[j]).translucent
                            && self.shows(trans@[j].chunk_pos, true) && in_volume(c, trans@[j].chunk_pos, h as int, v as int)
                    && placed_before(c, trans@[j].chunk_pos, h as int, v as int, a as int, b as int, d as int),
                        forall|a2: int, b2: int, d2: int| -h <= a2 <= h && -v <= b2 <= v && -h <= d2 <= h
                            && walked_before(a2, b2, d2, a as int, b as int, d as int) && #[trigger] offset_chunk(c, a2, b2, d2) == offset_chunk(c, a2, b2, d2)
                            ==> (self.shows(offset_chunk(c, a2, b2, d2), false) ==> listed(solids@, offset_chunk(c, a2, b2, d2), false))
                            && (self.shows(offset_chunk(c, a2, b2, d2), true) ==> listed(trans@, offset_chunk(c, a2, b2, d2), true)),
                forall|x: int, y: int| 0 <= x < solids@.len() && 0 <= y < solids@.len() && x != y ==> (#[trigger] solids@[x]) != (#[trigger] solids@[y]),
                forall|x: int, y: int| 0 <= x < trans@.len() && 0 <= y < trans@.len() && x != y ==> (#[trigger] trans@[x]) != (#[trigger] trans@[y]),
                    decreases hi + 1 - d,
                {
                    let p = add_non_zero_i32_vector3(c, Vec3i { x: a, y: b, z: d });
                    assert(p == offset_chunk(c, a as int, b as int, d as int));
                    let ghost s0 = solids@;
                    let ghost t0 = trans@;
                    match self.find(&p) {
                        Some(i) => {
                            match self.chunks[i].1.mesh() {
                                Some(m) => {
                                    if m.solid_mesh.indices.len() > 0 {
                                        solids.push(MeshHandle { chunk_pos: p, translucent: false });
                                    }
                                    if m.transparent_mesh.indices.len() > 0 {
                                        trans.push(MeshHandle { chunk_pos: p, translucent: true });
                                    }
                                },
                                None => {},
                            }
                            proof {
                                assert(self.chunk_list()[i as int].0 == p);
                                assert(in_volume(c, p, h as int, v as int));
                            }
                        },
                        None => {},
                    }
                    proof {
                        assert forall|j: int| 0 <= j < s0.len() implies s0[j].chunk_pos != p by {
                            lemma_placed_differs(c, s0[j].chunk_pos, h as int, v as int, a as int, b as int, d as int);
                        }
                        assert forall|j: int| 0 <= j < t0.len() implies t0[j].chunk_pos != p by {
                            lemma_placed_differs(c, t0[j].chunk_pos, h as int, v as int, a as int, b as int, d as int);
                        }
                        assert forall|j: int| 0 <= j < s0.len() implies solids@[j] == s0[j] by {}
                        assert forall|j: int| 0 <= j < t0.len() implies trans@[j] == t0[j] by {}
                        assert forall|a2: int, b2: int, d2: int| -h <= a2 <= h && -v <= b2 <= v && -h <= d2 <= h
                            && walked_before(a2, b2, d2, a as int, b as int, d + 1) && #[trigger] offset_chunk(c, a2, b2, d2) == offset_chunk(c, a2, b2, d2)
                            implies (self.shows(offset_chunk(c, a2, b2, d2), false) ==> listed(solids@, offset_chunk(c, a2, b2, d2), false))
                            && (self.shows(offset_chunk(c, a2, b2, d2), true) ==> listed(trans@, offset_chunk(c, a2, b2, d2), true)) by {
                            let q = offset_chunk(c, a2, b2, d2);
                            if walked_before(a2, b2, d2, a as int, b as int, d as int) {
                                if self.shows(q, false) {
                                    let j = choose|j: int| 0 <= j < s0.len() && #[trigger] s0[j] == (MeshHandle { chunk_pos: q, translucent: false });
                                    assert(solids@[j] == s0[j]);
                                }
                                if self.shows(q, true) {
                                    let j = choose|j: int| 0 <= j < t0.len() && #[trigger] t0[j] == (MeshHandle { chunk_pos: q, translucent: true });
                                    assert(trans@[j] == t0[j]);
                                }
                            } else {
                                assert(q == p);
                                if self.shows(q, false) {
                                    let k = choose|k: int| 0 <= k < self.chunk_list().len() && (#[trigger] self.chunk_list()[k]).0 == q
                                        && self.chunk_list()[k].1.group_nonempty(false);
                                    assert(solids@[solids@.len() - 1] == (MeshHandle { chunk_pos: q, translucent: false }));
                                }
                                if self.shows(q, true) {
                                    let k = choose|k: int| 0 <= k < self.chunk_list().len() && (#[trigger] self.chunk_list()[k]).0 == q
                                        && self.chunk_list()[k].1.group_nonempty(true);
                                    assert(trans@[trans@.len() - 1] == (MeshHandle { chunk_pos: q, translucent: true }));
                                }
                            }
                        }
                    }
                    d = d + 1;
                }
                b = b + 1;
            }
            a = a + 1;
        }
        let ghost s_all = solids@;
        let mut k: usize = 0;
        while k < trans.len()
            invariant
                k <= trans@.len(),
                solids@.len() == s_all.len() + k,
                forall|j: int| 0 <= j < s_all.len() ==> solids@[j] == s_all[j],
                forall|j: int| 0 <= j < k ==> solids@[s_all.len() + j] == trans@[j],
                forall|x: int, y: int| 0 <= x < s_all.len() && 0 <= y < s_all.len() && x != y ==> (#[trigger] s_all[x]) != (#[trigger] s_all[y]),
                forall|x: int, y: int| 0 <= x < trans@.len() && 0 <= y < trans@.len() && x != y ==> (#[trigger] trans@[x]) != (#[trigger] trans@[y]),
                forall|j: int| 0 <= j < s_all.len() ==> !(#[trigger] s_all[j]).translucent,
                forall|j: int| 0 <= j < trans@.len() ==> (#[trigger] trans@[j]).translucent,
            decreases trans@.len() - k,
        {
            solids.push(trans[k]);
            k = k + 1;
        }
        proof {
            assert forall|x: int, y: int| 0 <= x < solids@.len() && 0 <= y < solids@.len() && x != y implies (#[trigger] solids@[x]) != (#[trigger] solids@[y]) by {
                if x < s_all.len() && y < s_all.len() {
                    assert(solids@[x] == s_all[x] && solids@[y] == s_all[y]);
                } else if x >= s_all.len() && y >= s_all.len() {
                    assert(solids@[x] == trans@[x - s_all.len()] && solids@[y] == trans@[y - s_all.len()]);
                } else if x < s_all.len() {
                    assert(solids@[x] == s_all[x] && solids@[y] == trans@[y - s_all.len()]);
                } else {
                    assert(solids@[y] == s_all[y] && solids@[x] == trans@[x - s_all.len()]);
                }
            }
            assert forall|j: int| 0 <= j < solids@.len() implies self.shows((#[trigger] solids@[j]).chunk_pos, solids@[j].translucent)
                && in_volume(*camera_chunk_pos, solids@[j].chunk_pos, h as int, v as int) by {
                if j < s_all.len() {
                    assert(solids@[j] == s_all[j]);
                } else {
                    assert(solids@[j] == trans@[j - s_all.len()]);
                }
            }
            assert forall|a2: int, b2: int, d2: int, t: bool| -h <= a2 <= h && -v <= b2 <= v && -h <= d2 <= h
                && #[trigger] self.shows(offset_chunk(*camera_chunk_pos, a2, b2, d2), t)
                implies listed(solids@, offset_chunk(*camera_chunk_pos, a2, b2, d2), t) by {
                let q = offset_chunk(c, a2, b2, d2);
                assert(walked_before(a2, b2, d2, h + 1, -(v as int), -(h as int)));
                if t {
                    let j = choose|j: int| 0 <= j < trans@.len() && #[trigger] trans@[j] == (MeshHandle { chunk_pos: q, translucent: true });
                    assert(solids@[s_all.len() + j] == trans@[j]);
                } else {
                    let j = choose|j: int| 0 <= j < s_all.len() && #[trigger] s_all[j] == (MeshHandle { chunk_pos: q, translucent: false });
                    assert(solids@[j] == s_all[j]);
                }
            }
            assert forall|x: int, y: int| 0 <= x < y < solids@.len() && (#[trigger] solids@[x]).translucent implies (#[trigger] solids@[y]).translucent by {
                if x < s_all.len() {
                    assert(solids@[x] == s_all[x]);
                }
                if y >= s_all.len() {
                    assert(solids@[y] == trans@[y - s_all.len()]);
                } else {
                    assert(solids@[y] == s_all[y]);
                    assert(solids@[x] == s_all[x]);
                }
            }
        }
        solids
    }

    /// Requests what one chunk in view lacks: its blocks when it is not loaded, otherwise a
    /// mesh when the stored one is missing or its mesh or light is stale.
    fn request_for_render(&mut self, chunk_pos: Vec3i)
        requires
            old(self).wf(),
        ensures
            final(self).wf(),
            same_keys(final(self).chunk_list(), old(self).chunk_list()),
            same_cells(final(self).chunk_list(), old(self).chunk_list()),
    {
        match self.find(&chunk_pos) {
            Some(i) => {
                let do_request = !self.chunks[i].1.mesh_up_to_date() || !self.chunks[i].1.lights_up_to_date()
                    || self.chunks[i].1.mesh().is_none();
                if do_request {
                    self.request_chunk_mesh(&chunk_pos);
                }
            },
            None => {
                self.request_chunk_blocks(&chunk_pos);
            },
        }
    }

    /// The mesh groups to draw around the viewer's chunk, all solid groups before all
    /// translucent ones. Chunks whose mesh is missing or out of date are (re)requested
    /// along the way, and missing chunks are requested.
    pub fn meshes_to_render(
        &mut self,
        camera_chunk_pos: &Vec3i,
        render_distance_horizontal: u32,
        render_distance_vertical: u32,
    ) -> (r: Vec<MeshHandle>)
        requires
            old(self).wf(),
            bounded_chunk_pos(*camera_chunk_pos),
            render_distance_horizontal <= 0x1000_0000,
            render_distance_vertical <= 0x1000_0000,
        ensures
            final(self).wf(),
            same_keys(final(self).chunk_list(), old(self).chunk_list()),
            same_cells(final(self).chunk_list(), old(self).chunk_list()),
            forall|a: int, b: int| 0 <= a < b < r@.len() && (#[trigger] r@[a]).translucent ==> (#[trigger] r@[b]).translucent,
            forall|j: int| 0 <= j < r@.len() ==> old(self).shows((#[trigger] r@[j]).chunk_pos, r@[j].translucent)
                && in_volume(*camera_chunk_pos, r@[j].chunk_pos, render_distance_horizontal as int, render_distance_vertical as int),
            forall|a: int, b: int, d: int, t: bool| -render_distance_horizontal <= a <= render_distance_horizontal
                && -render_distance_vertical <= b <= render_distance_vertical
                && -render_distance_horizontal <= d <= render_distance_horizontal
                && #[trigger] old(self).shows(offset_chunk(*camera_chunk_pos, a, b, d), t)
                ==> listed(r@, offset_chunk(*camera_chunk_pos, a, b, d), t),
            forall|j: int| 0 <= j < r@.len() ==> final(self).has_chunk((#[trigger] r@[j]).chunk_pos),
            forall|x: int, y: int| 0 <= x < r@.len() && 0 <= y < r@.len() && x != y ==> (#[trigger] r@[x]) != (#[trigger] r@[y]),
    {
        let handles = self.collect_handles(camera_chunk_pos, render_distance_horizontal, render_distance_vertical);
        let h = render_distance_horizontal as i32;
        let v = render_distance_vertical as i32;
        let mut x: i32 = 0;
        while x <= h
            invariant
                0 <= x <= h + 1,
                h == render_distance_horizontal,
                v == render_distance_vertical,
                h <= 0x1000_0000,
                v <= 0x1000_0000,
                bounded_chunk_pos(*camera_chunk_pos),
                self.wf(),
                same_keys(self.chunk_list(), old(self).chunk_list()),
                same_cells(self.chunk_list(), old(self).chunk_list()),
            decreases h + 1 - x,
        {
            let mut y: i32 = 0;
            while y <= v
                invariant
                    0 <= x <= h,
                    0 <= y <= v + 1,
                    h == render_distance_horizontal,
                    v == render_distance_vertical,
                    h <= 0x1000_0000,
                    v <= 0x1000_0000,
                    bounded_chunk_pos(*camera_chunk_pos),
                    self.wf(),
                    same_keys(self.chunk_list(), old(self).chunk_list()),
                    same_cells(self.chunk_list(), old(self).chunk_list()),
                decreases v + 1 - y,
            {
                let mut z: i32 = 0;
                while z <= h
                    invariant
                        0 <= x <= h,
                        0 <= y <= v,
                        0 <= z <= h + 1,
                        h == render_distance_horizontal,
                        v == render_distance_vertical,
                        h <= 0x1000_0000,
                        v <= 0x1000_0000,
                        bounded_chunk_pos(*camera_chunk_pos),
                        self.wf(),
                        same_keys(self.chunk_list(), old(self).chunk_list()),
                        same_cells(self.chunk_list(), old(self).chunk_list()),
                    decreases h + 1 - z,
                {
                    let mut combo: u8 = 0;
                    while combo < 8
                        invariant
                            0 <= x <= h,
                            0 <= y <= v,
                            0 <= z <= h,
                            h <= 0x1000_0000,
                            v <= 0x1000_0000,
                            bounded_chunk_pos(*camera_chunk_pos),
                            self.wf(),
                            same_keys(self.chunk_list(), old(self).chunk_list()),
                            same_cells(self.chunk_list(), old(self).chunk_list()),
                        decreases 8 - combo,
                    {
                        // (+,+,+), (-,+,+), (+,-,+), (+,+,-), (-,-,+), (+,-,-), (-,+,-), (-,-,-)
                        let sx: i32 = if combo == 1 || combo == 4 || combo == 6 || combo == 7 { -1 } else { 1 };
                        let sy: i32 = if combo == 2 || combo == 4 || combo == 5 || combo == 7 { -1 } else { 1 };
                        let sz: i32 = if combo == 3 || combo == 5 || combo == 6 || combo == 7 { -1 } else { 1 };
                        // a zero component has one sign only, so every chunk is visited once
                        if (sx == 1 || x != 0) && (sy == 1 || y != 0) && (sz == 1 || z != 0) {
                            let offset = Vec3i { x: sx * x, y: sy * y, z: sz * z };
                            let p = add_non_zero_i32_vector3(*camera_chunk_pos, offset);
                            let ghost before = self.chunk_list();
                            self.request_for_render(p);
                            proof { lemma_same_keys_trans(self.chunk_list(), before, old(self).chunk_list()); lemma_same_cells_trans(self.chunk_list(), before, old(self).chunk_list()); }
                        }
                        combo = combo + 1;
                    }
                    z = z + 1;
                }
                y = y + 1;
            }
            x = x + 1;
        }
        proof {
            lemma_same_keys_has_chunk(*self, *old(self));
            assert forall|j: int| 0 <= j < handles@.len() implies self.has_chunk((#[trigger] handles@[j]).chunk_pos) by {
                let p = handles@[j].chunk_pos;
                assert(old(self).shows(p, handles@[j].translucent));
                let i = choose|i: int| 0 <= i < old(self).chunk_list().len() && (#[trigger] old(self).chunk_list()[i]).0 == p
                    && old(self).chunk_list()[i].1.group_nonempty(handles@[j].translucent);
                assert(old(self).has_chunk(p));
            }
        }
        handles
    }

    /// The blocks of a loaded chunk, without requesting anything.
    fn blocks_at(&self, chunk_pos: &Vec3i) -> (r: Option<Arc<BlockBuffer>>)
        requires
            self.wf(),
        ensures
            r is Some <==> self.has_chunk(*chunk_pos),
            r matches Some(b) ==> b.wf(),
    {
        match self.find(chunk_pos) {
            Some(i) => {
                assert(self.chunk_list()[i as int].1.wf());
                Some(self.chunks[i].1.blocks())
            },
            None => None,
        }
    }

    /// Whether the column above `pos`'s chunk, through every loaded chunk stacked on it,
    /// holds no opaque block.
    fn highest_block_in_chunk_sees_sky(&self, pos: &Pos) -> (r: bool)
        requires
            self.wf(),
            bounded_chunk_pos(pos.chunk_pos),
            in_chunk(pos.in_chunk_pos),
    {
        let collum = Vec2i { x: pos.in_chunk_pos.x, y: pos.in_chunk_pos.z };
        let mut current = add_non_zero_i32_vector3(pos.chunk_pos, Vec3i { x: 0, y: 1, z: 0 });
        let mut steps: usize = 0;
        while steps < self.chunks.len()
            invariant
                self.wf(),
                valid_chunk_pos(current),
                -0x4000_0000 <= current.x <= 0x4000_0000,
                -0x4000_0000 <= current.y <= 0x4000_0001,
                -0x4000_0000 <= current.z <= 0x4000_0000,
                0 <= collum.x < 32,
                0 <= collum.y < 32,
            decreases self.chunks@.len() + 1 - steps,
        {
            match self.blocks_at(&current) {
                Some(blocks) => {
                    if blocks.contains_collum_opaque_blocks(&collum) {
                        return false;
                    }
                    if current.y >= CHUNK_COORD_LIMIT {
                        return true;
                    }
                },
                None => return true,
            }
            current = add_non_zero_i32_vector3(current, Vec3i { x: 0, y: 1, z: 0 });
            steps = steps + 1;
        }
        true
    }

    /// Chunks whose sunlight an edit at `pos` may change: the edited chunk, and when the
    /// column's opacity changed, every loaded chunk below down to the first whose column
    /// holds an opaque block, with their neighbours.
    /// Entries are `(chunk, mode, column)`: mode 1 recomputes the edited column, mode 2
    /// refreshes `column`, mode 0 only marks the chunk stale.
    fn chunks_to_update_sunlight(&self, pos: &Pos, contains_collum_opaque_blocks_changed: bool) -> (r: Vec<(Vec3i, u8, Vec2i)>)
        requires
            self.wf(),
            bounded_chunk_pos(pos.chunk_pos),
            in_chunk(pos.in_chunk_pos),
        ensures
            forall|i: int| 0 <= i < r@.len() ==> (#[trigger] r@[i]).1 <= 2 && 0 <= r@[i].2.x < 32 && 0 <= r@[i].2.y < 32,
            r@.len() >= 1 && r@[0] == (pos.chunk_pos, 1u8, Vec2i { x: 0, y: 0 }),
    {
        let p = pos.in_chunk_pos;
        let collum = Vec2i { x: p.x, y: p.z };
        let mut out: Vec<(Vec3i, u8, Vec2i)> = Vec::new();
        out.push((pos.chunk_pos, 1, Vec2i { x: 0, y: 0 }));
        if contains_collum_opaque_blocks_changed {
            let mut current = add_non_zero_i32_vector3(pos.chunk_pos, Vec3i { x: 0, y: -1, z: 0 });
            let mut steps: usize = 0;
            while steps < self.chunks.len()
                invariant
                    self.wf(),
                    in_chunk(p),
                    collum == (Vec2i { x: p.x, y: p.z }),
                    valid_chunk_pos(current),
                    -0x4000_0000 <= current.x <= 0x4000_0000,
                    -0x4000_0001 <= current.y <= 0x4000_0000,
                    -0x4000_0000 <= current.z <= 0x4000_0000,
                    forall|i: int| 0 <= i < out@.len() ==> (#[trigger] out@[i]).1 <= 2 && 0 <= out@[i].2.x < 32 && 0 <= out@[i].2.y < 32,
                    out@.len() >= 1 && out@[0] == (pos.chunk_pos, 1u8, Vec2i { x: 0, y: 0 }),
                decreases self.chunks@.len() + 1 - steps,
            {
                let blocks = match self.blocks_at(&current) {
                    Some(b) => b,
                    None => break,
                };
                let mut k: i32 = 0;
                while k < 27
                    invariant
                        0 <= k <= 27,
                        in_chunk(p),
                        collum == (Vec2i { x: p.x, y: p.z }),
                        valid_chunk_pos(current),
                        -0x4000_0000 <= current.x <= 0x4000_0000,
                        -0x4000_0001 <= current.y <= 0x4000_0000,
                        -0x4000_0000 <= current.z <= 0x4000_0000,
                        forall|i: int| 0 <= i < out@.len() ==> (#[trigger] out@[i]).1 <= 2 && 0 <= out@[i].2.x < 32 && 0 <= out@[i].2.y < 32,
                        out@.len() >= 1 && out@[0] == (pos.chunk_pos, 1u8, Vec2i { x: 0, y: 0 }),
                    out@.len() >= 1 && out@[0] == (pos.chunk_pos, 1u8, Vec2i { x: 0, y: 0 }),
                    decreases 27 - k,
                {
                    let x = k / 9 - 1;
                    let y = (k / 3) % 3 - 1;
                    let z = k % 3 - 1;
                    if y <= 0 && can_affect_chunk_light(x, y, z, p) {
                        let c = add_non_zero_i32_vector3(current, Vec3i { x, y, z });
                        let mode: u8 = if x == 0 && y == 0 && z == 0 { 1 } else { 0 };
                        push_unique(&mut out, (c, mode, Vec2i { x: 0, y: 0 }));
                        if (x == -1 && collum.x == 0) || (x == 1 && collum.x == 31) || (z == -1 && collum.y == 0)
                            || (z == 1 && collum.y == 31) {
                            push_unique(&mut out, (c, 2, collum));
                        }
                    }
                    k = k + 1;
                }
                if blocks.contains_collum_opaque_blocks(&collum) {
                    break;
                }
                if current.y <= -CHUNK_COORD_LIMIT {
                    break;
                }
                current = add_non_zero_i32_vector3(current, Vec3i { x: 0, y: -1, z: 0 });
                steps = steps + 1;
            }
        }
        out
    }

    /// Writes a block at a normalised position and brings sunlight and light-source caches
    /// of every affected chunk up to date; light and meshes of those chunks become stale.
    /// Nothing happens when the chunk is not loaded.
    pub fn set_block(&mut self, pos: &Pos, block: Block)
        requires
            old(self).wf(),
            bounded_chunk_pos(pos.chunk_pos),
            in_chunk(pos.in_chunk_pos),
        ensures
            final(self).wf(),
            same_keys(final(self).chunk_list(), old(self).chunk_list()),
            !old(self).has_chunk(pos.chunk_pos) ==> *final(self) == *old(self),
            old(self).has_chunk(pos.chunk_pos) ==> exists|t: int| 0 <= t < final(self).chunk_list().len()
                && (#[trigger] final(self).chunk_list()[t]).0 == pos.chunk_pos
                && unsunned(cell_at(final(self).chunk_list()[t].1.cells(), pos.in_chunk_pos.x as int,
                    pos.in_chunk_pos.y as int, pos.in_chunk_pos.z as int)) == unsunned(block)
                && shaded_below(final(self).chunk_list()[t].1.cells(), pos.in_chunk_pos.x as int, pos.in_chunk_pos.z as int),
            old(self).has_chunk(pos.chunk_pos) ==> forall|a: int, b: int, d: int, j: int| -1 <= a <= 1 && -1 <= b <= 1 && -1 <= d <= 1
                && (a == 0 || b == 0 || d == 0) && 0 <= j < final(self).chunk_list().len()
                && (#[trigger] final(self).chunk_list()[j]).0 == #[trigger] offset_chunk(pos.chunk_pos, a, b, d)
                ==> !final(self).chunk_list()[j].1.mesh_fresh() && !final(self).chunk_list()[j].1.lights_fresh(),
    {
        let p = pos.in_chunk_pos;
        let sky = self.highest_block_in_chunk_sees_sky(pos);
        let t = match self.find(&pos.chunk_pos) {
            Some(t) => t,
            None => return,
        };
        let ghost px = p.x as int;
        let ghost py = p.y as int;
        let ghost pz = p.z as int;
        let ghost l0 = self.chunk_list();
        assert(l0[t as int].1.wf());
        let (old_flag, new_flag) = self.chunks[t].1.set_block(&p, block);
        proof {
            self.lemma_wf_after_update(l0, t as int);
            assert(cell_at(self.chunk_list()[t as int].1.cells(), px, py, pz) == block);
        }
        let main_col = Vec2i { x: p.x, y: p.z };
        let mut list = self.chunks_to_update_sunlight(pos, old_flag != new_flag);
        let mut k: i32 = 0;
        while k < 27
            invariant
                0 <= k <= 27,
                in_chunk(p),
                bounded_chunk_pos(pos.chunk_pos),
                forall|i: int| 0 <= i < list@.len() ==> (#[trigger] list@[i]).1 <= 2 && 0 <= list@[i].2.x < 32 && 0 <= list@[i].2.y < 32,
                list@.len() >= 1 && list@[0] == (pos.chunk_pos, 1u8, Vec2i { x: 0, y: 0 }),
                forall|k2: int| 0 <= k2 < k && can_affect_chunk_light_spec(k2 / 9 - 1, (k2 / 3) % 3 - 1, k2 % 3 - 1, p)
                    ==> list@.contains((#[trigger] offset_chunk(pos.chunk_pos, k2 / 9 - 1, (k2 / 3) % 3 - 1, k2 % 3 - 1), 0u8, Vec2i { x: 0, y: 0 })),
            decreases 27 - k,
        {
            let x = k / 9 - 1;
            let y = (k / 3) % 3 - 1;
            let z = k % 3 - 1;
            let ghost l0 = list@;
            if can_affect_chunk_light(x, y, z, p) {
                let c = add_non_zero_i32_vector3(pos.chunk_pos, Vec3i { x, y, z });
                assert(c == offset_chunk(pos.chunk_pos, k / 9 - 1, (k / 3) % 3 - 1, k % 3 - 1));
                push_unique(&mut list, (c, 0, Vec2i { x: 0, y: 0 }));
            }
            proof {
                assert forall|k2: int| 0 <= k2 < k + 1 && can_affect_chunk_light_spec(k2 / 9 - 1, (k2 / 3) % 3 - 1, k2 % 3 - 1, p)
                    implies list@.contains((#[trigger] offset_chunk(pos.chunk_pos, k2 / 9 - 1, (k2 / 3) % 3 - 1, k2 % 3 - 1), 0u8, Vec2i { x: 0, y: 0 })) by {
                    if k2 < k {
                        let e = (offset_chunk(pos.chunk_pos, k2 / 9 - 1, (k2 / 3) % 3 - 1, k2 % 3 - 1), 0u8, Vec2i { x: 0, y: 0 });
                        assert(l0.contains(e));
                        let w = choose|w: int| 0 <= w < l0.len() && l0[w] == e;
                        assert(list@[w] == l0[w]);
                    }
                }
            }
            k = k + 1;
        }
        let mut cache_set: Vec<Vec3i> = Vec::new();
        let mut others: Vec<(Vec3i, Vec2i)> = Vec::new();
        let mut e: usize = 0;
        while e < list.len()
            invariant
                e <= list@.len(),
                self.wf(),
                same_keys(self.chunk_list(), old(self).chunk_list()),
                t < self.chunk_list().len(),
                self.chunk_list()[t as int].0 == pos.chunk_pos,
                unsunned(cell_at(self.chunk_list()[t as int].1.cells(), px, py, pz)) == unsunned(block),
                in_chunk(p),
                px == p.x && py == p.y && pz == p.z,
                p == pos.in_chunk_pos,
                main_col == (Vec2i { x: p.x, y: p.z }),
                e >= 1 ==> shaded_below(self.chunk_list()[t as int].1.cells(), px, pz),
                list@.len() >= 1 && list@[0] == (pos.chunk_pos, 1u8, Vec2i { x: 0, y: 0 }),
                forall|i: int| 0 <= i < list@.len() ==> (#[trigger] list@[i]).1 <= 2 && 0 <= list@[i].2.x < 32 && 0 <= list@[i].2.y < 32,
                forall|i: int| 0 <= i < others@.len() ==> 0 <= (#[trigger] others@[i]).1.x < 32 && 0 <= others@[i].1.y < 32,
                forall|e2: int, j: int| 0 <= e2 < e && 0 <= j < self.chunk_list().len() && (#[trigger] self.chunk_list()[j]).0 == (#[trigger] list@[e2]).0
                    ==> !self.chunk_list()[j].1.mesh_fresh() && !self.chunk_list()[j].1.lights_fresh(),
                forall|k2: int| 0 <= k2 < 27 && can_affect_chunk_light_spec(k2 / 9 - 1, (k2 / 3) % 3 - 1, k2 % 3 - 1, p)
                    ==> list@.contains((#[trigger] offset_chunk(pos.chunk_pos, k2 / 9 - 1, (k2 / 3) % 3 - 1, k2 % 3 - 1), 0u8, Vec2i { x: 0, y: 0 })),
            decreases list@.len() - e,
        {
            let (c, mode, col) = list[e];
            assert(mode <= 2 && 0 <= col.x < 32 && 0 <= col.y < 32) by { assert(list@[e as int].1 <= 2); }
            if let Some(j) = self.find(&c) {
                let ghost l1 = self.chunk_list();
                assert(l1[j as int].1.wf() && bounded_chunk_pos(c));
                proof {
                    if e == 0 {
                        assert(list@[0].0 == pos.chunk_pos);
                        assert(j as int == t as int);
                    }
                }
                if mode == 1 {
                    let sky_here = if c.y < pos.chunk_pos.y { !new_flag && sky } else { sky };
                    self.chunks[j].1.update_sunlight_in_collum(&main_col, sky_here);
                    proof {
                        assert(self.chunk_list() =~= l1.update(j as int, (c, self.chunk_list()[j as int].1)));
                        assert(unsunned(cell_at(self.chunk_list()[j as int].1.cells(), px, py, pz))
                            == unsunned(cell_at(l1[j as int].1.cells(), px, py, pz)));
                    }
                    let mut d: u8 = 0;
                    while d < 4
                        invariant
                            d <= 4,
                            j < self.chunk_list().len(),
                            l1.len() == self.chunk_list().len(),
                            self.chunk_list() == l1.update(j as int, (c, self.chunk_list()[j as int].1)),
                            l1[j as int].0 == c,
                            self.chunk_list()[j as int].1.wf(),
                            unsunned(cell_at(self.chunk_list()[j as int].1.cells(), px, py, pz))
                                == unsunned(cell_at(l1[j as int].1.cells(), px, py, pz)),
                            shaded_below(self.chunk_list()[j as int].1.cells(), px, pz),
                            bounded_chunk_pos(c),
                            in_chunk(p),
                            main_col == (Vec2i { x: p.x, y: p.z }),
                            px == p.x && py == p.y && pz == p.z,
                p == pos.in_chunk_pos,
                            forall|i: int| 0 <= i < others@.len() ==> 0 <= (#[trigger] others@[i]).1.x < 32 && 0 <= others@[i].1.y < 32,
                        decreases 4 - d,
                    {
                        let ncol = if d == 0 {
                            Vec2i { x: main_col.x + 1, y: main_col.y }
                        } else if d == 1 {
                            Vec2i { x: main_col.x - 1, y: main_col.y }
                        } else if d == 2 {
                            Vec2i { x: main_col.x, y: main_col.y + 1 }
                        } else {
                            Vec2i { x: main_col.x, y: main_col.y - 1 }
                        };
                        if 0 <= ncol.x && ncol.x < 32 && 0 <= ncol.y && ncol.y < 32 {
                            let ghost prev = self.chunk_list();
                            let ghost mid = self.chunk_list()[j as int].1;
                            self.chunks[j].1.refresh_sunlight_in_collum(&ncol);
                            proof {
                                if !(ncol.x == px && ncol.y == pz) {
                                    assert forall|y: int| 0 <= y < 32 implies #[trigger] cell_at(self.chunk_list()[j as int].1.cells(), px, y, pz)
                                        == cell_at(mid.cells(), px, y, pz) by {}
                                    lemma_shaded_kept(self.chunk_list()[j as int].1.cells(), mid.cells(), px, pz);
                                }
                                assert(self.chunk_list() =~= l1.update(j as int, (c, self.chunk_list()[j as int].1)));
                                assert(unsunned(cell_at(self.chunk_list()[j as int].1.cells(), px, py, pz))
                                    == unsunned(cell_at(mid.cells(), px, py, pz)));
                            }
                        } else {
                            let (off, wrapped) = coordinate_in_surrounding_buffers_cube(Vec3i { x: ncol.x, y: 0, z: ncol.y });
                            let nc = add_non_zero_i32_vector3(c, off);
                            others.push((nc, Vec2i { x: wrapped.x, y: wrapped.z }));
                        }
                        d = d + 1;
                    }
                } else if mode == 2 {
                    let ghost mid = self.chunk_list()[j as int].1;
                    self.chunks[j].1.refresh_sunlight_in_collum(&col);
                    proof {
                        if j as int == t as int && e >= 1 && !(col.x == px && col.y == pz) {
                            assert forall|y: int| 0 <= y < 32 implies #[trigger] cell_at(self.chunk_list()[j as int].1.cells(), px, y, pz)
                                == cell_at(mid.cells(), px, y, pz) by {}
                            lemma_shaded_kept(self.chunk_list()[j as int].1.cells(), mid.cells(), px, pz);
                        }
                        assert(self.chunk_list() =~= l1.update(j as int, (c, self.chunk_list()[j as int].1)));
                        assert(unsunned(cell_at(self.chunk_list()[j as int].1.cells(), px, py, pz))
                            == unsunned(cell_at(mid.cells(), px, py, pz)));
                    }
                }
                proof {
                    if j as int == t as int {
                        assert(shaded_below(self.chunk_list()[t as int].1.cells(), px, pz));
                    }
                }
                if mode != 0 {
                    push_unique_pos(&mut cache_set, c);
                }
                self.chunks[j].1.set_lights_outdated();
                self.chunks[j].1.set_mesh_outdated();
                proof {
                    assert(self.chunk_list() =~= l1.update(j as int, (l1[j as int].0, self.chunk_list()[j as int].1)));
                    self.lemma_wf_after_update(l1, j as int);
                    lemma_same_keys_trans(self.chunk_list(), l1, old(self).chunk_list());
                    if j != t {
                        assert(self.chunk_list()[t as int] == l1[t as int]);
                    }
                    assert forall|e2: int, jj: int| 0 <= e2 < e + 1 && 0 <= jj < self.chunk_list().len() && (#[trigger] self.chunk_list()[jj]).0 == (#[trigger] list@[e2]).0
                        implies !self.chunk_list()[jj].1.mesh_fresh() && !self.chunk_list()[jj].1.lights_fresh() by {
                        if jj != j as int {
                            assert(self.chunk_list()[jj] == l1[jj]);
                            if e2 == e as int {
                                assert(l1[jj].0 == c && l1[j as int].0 == c);
                            }
                        }
                    }
                }
            } else {
                proof {
                    assert forall|e2: int, jj: int| 0 <= e2 < e + 1 && 0 <= jj < self.chunk_list().len() && (#[trigger] self.chunk_list()[jj]).0 == (#[trigger] list@[e2]).0
                        implies !self.chunk_list()[jj].1.mesh_fresh() && !self.chunk_list()[jj].1.lights_fresh() by {
                        if e2 == e as int {
                            assert(self.has_chunk(c));
                        }
                    }
                }
            }
            e = e + 1;
        }
        let mut o: usize = 0;
        while o < others.len()
            invariant
                o <= others@.len(),
                self.wf(),
                same_keys(self.chunk_list(), old(self).chunk_list()),
                t < self.chunk_list().len(),
                self.chunk_list()[t as int].0 == pos.chunk_pos,
                unsunned(cell_at(self.chunk_list()[t as int].1.cells(), px, py, pz)) == unsunned(block),
                in_chunk(p),
                px == p.x && py == p.y && pz == p.z,
                p == pos.in_chunk_pos,
                forall|i: int| 0 <= i < others@.len() ==> 0 <= (#[trigger] others@[i]).1.x < 32 && 0 <= others@[i].1.y < 32,
                forall|k2: int| 0 <= k2 < 27 && can_affect_chunk_light_spec(k2 / 9 - 1, (k2 / 3) % 3 - 1, k2 % 3 - 1, p)
                    ==> list@.contains((#[trigger] offset_chunk(pos.chunk_pos, k2 / 9 - 1, (k2 / 3) % 3 - 1, k2 % 3 - 1), 0u8, Vec2i { x: 0, y: 0 })),
                forall|e2: int, j: int| 0 <= e2 < list@.len() && 0 <= j < self.chunk_list().len() && (#[trigger] self.chunk_list()[j]).0 == (#[trigger] list@[e2]).0
                    ==> !self.chunk_list()[j].1.mesh_fresh() && !self.chunk_list()[j].1.lights_fresh(),
                shaded_below(self.chunk_list()[t as int].1.cells(), px, pz),
            decreases others@.len() - o,
        {
            let (c, col) = others[o];
            assert(0 <= col.x < 32 && 0 <= col.y < 32) by { assert(0 <= others@[o as int].1.x < 32); }
            if let Some(j) = self.find(&c) {
                let ghost l1 = self.chunk_list();
                assert(l1[j as int].1.wf());
                let ghost mid = self.chunk_list()[j as int].1;
                self.chunks[j].1.refresh_sunlight_in_collum(&col);
                proof {
                    if j as int == t as int && !(col.x == px && col.y == pz) {
                        assert forall|y: int| 0 <= y < 32 implies #[trigger] cell_at(self.chunk_list()[j as int].1.cells(), px, y, pz)
                            == cell_at(mid.cells(), px, y, pz) by {}
                        lemma_shaded_kept(self.chunk_list()[j as int].1.cells(), mid.cells(), px, pz);
                    }
                }
                self.chunks[j].1.set_lights_outdated();
                self.chunks[j].1.set_mesh_outdated();
                push_unique_pos(&mut cache_set, c);
                proof {
                    assert(self.chunk_list() =~= l1.update(j as int, (l1[j as int].0, self.chunk_list()[j as int].1)));
                    self.lemma_wf_after_update(l1, j as int);
                    lemma_same_keys_trans(self.chunk_list(), l1, old(self).chunk_list());
                    if j != t {
                        assert(self.chunk_list()[t as int] == l1[t as int]);
                    }
                    assert forall|e2: int, jj: int| 0 <= e2 < list@.len() && 0 <= jj < self.chunk_list().len() && (#[trigger] self.chunk_list()[jj]).0 == (#[trigger] list@[e2]).0
                        implies !self.chunk_list()[jj].1.mesh_fresh() && !self.chunk_list()[jj].1.lights_fresh() by {
                        if jj != j as int {
                            assert(self.chunk_list()[jj] == l1[jj]);
                        } else {
                            assert(self.chunk_list()[jj].0 == l1[jj].0);
                        }
                    }
                }
            }
            o = o + 1;
        }
        let mut q: usize = 0;
        while q < cache_set.len()
            invariant
                q <= cache_set@.len(),
                self.wf(),
                same_keys(self.chunk_list(), old(self).chunk_list()),
                t < self.chunk_list().len(),
                self.chunk_list()[t as int].0 == pos.chunk_pos,
                unsunned(cell_at(self.chunk_list()[t as int].1.cells(), px, py, pz)) == unsunned(block),
                in_chunk(p),
                px == p.x && py == p.y && pz == p.z,
                p == pos.in_chunk_pos,
                forall|k2: int| 0 <= k2 < 27 && can_affect_chunk_light_spec(k2 / 9 - 1, (k2 / 3) % 3 - 1, k2 % 3 - 1, p)
                    ==> list@.contains((#[trigger] offset_chunk(pos.chunk_pos, k2 / 9 - 1, (k2 / 3) % 3 - 1, k2 % 3 - 1), 0u8, Vec2i { x: 0, y: 0 })),
                forall|e2: int, j: int| 0 <= e2 < list@.len() && 0 <= j < self.chunk_list().len() && (#[trigger] self.chunk_list()[j]).0 == (#[trigger] list@[e2]).0
                    ==> !self.chunk_list()[j].1.mesh_fresh() && !self.chunk_list()[j].1.lights_fresh(),
                shaded_below(self.chunk_list()[t as int].1.cells(), px, pz),
            decreases cache_set@.len() - q,
        {
            let c = cache_set[q];
            if let Some(j) = self.find(&c) {
                assert(self.chunk_list()[j as int].1.wf() && bounded_chunk_pos(c));
                match self.get_surrounding_blocks_cube(&c, false) {
                    Some(surrounding) => {
                        let ghost l1 = self.chunk_list();
                        self.chunks[j].1.do_cache_updates(&surrounding);
                        proof {
                            assert(self.chunk_list() =~= l1.update(j as int, (l1[j as int].0, self.chunk_list()[j as int].1)));
                            self.lemma_wf_after_update(l1, j as int);
                            lemma_same_keys_trans(self.chunk_list(), l1, old(self).chunk_list());
                            if j != t {
                                assert(self.chunk_list()[t as int] == l1[t as int]);
                            }
                            assert forall|e2: int, jj: int| 0 <= e2 < list@.len() && 0 <= jj < self.chunk_list().len() && (#[trigger] self.chunk_list()[jj]).0 == (#[trigger] list@[e2]).0
                                implies !self.chunk_list()[jj].1.mesh_fresh() && !self.chunk_list()[jj].1.lights_fresh() by {
                                if jj != j as int {
                                    assert(self.chunk_list()[jj] == l1[jj]);
                                } else {
                                    assert(self.chunk_list()[jj].0 == l1[jj].0);
                                }
                            }
                        }
                    },
                    None => {
                        assert(self.chunk_list()[t as int].0 == pos.chunk_pos);
                        proof {
                            assert forall|a: int, b: int, d: int, j: int| -1 <= a <= 1 && -1 <= b <= 1 && -1 <= d <= 1
                                && (a == 0 || b == 0 || d == 0) && 0 <= j < self.chunk_list().len()
                                && (#[trigger] self.chunk_list()[j]).0 == #[trigger] offset_chunk(pos.chunk_pos, a, b, d)
                                implies !self.chunk_list()[j].1.mesh_fresh() && !self.chunk_list()[j].1.lights_fresh() by {
                                let k2 = (a + 1) * 9 + (b + 1) * 3 + (d + 1);
                                assert(k2 / 9 - 1 == a && (k2 / 3) % 3 - 1 == b && k2 % 3 - 1 == d);
                                assert(can_affect_chunk_light_spec(a, b, d, p));
                                let en = (offset_chunk(pos.chunk_pos, a, b, d), 0u8, Vec2i { x: 0, y: 0 });
                                assert(list@.contains((offset_chunk(pos.chunk_pos, k2 / 9 - 1, (k2 / 3) % 3 - 1, k2 % 3 - 1), 0u8, Vec2i { x: 0, y: 0 })));
                                let w = choose|w: int| 0 <= w < list@.len() && list@[w] == en;
                                assert(list@[w].0 == self.chunk_list()[j].0);
                            }
                        }
                        return;
                    },
                }
            }
            q = q + 1;
        }
        assert(self.chunk_list()[t as int].0 == pos.chunk_pos);
        proof {
            assert forall|a: int, b: int, d: int, j: int| -1 <= a <= 1 && -1 <= b <= 1 && -1 <= d <= 1
                && (a == 0 || b == 0 || d == 0) && 0 <= j < self.chunk_list().len()
                && (#[trigger] self.chunk_list()[j]).0 == #[trigger] offset_chunk(pos.chunk_pos, a, b, d)
                implies !self.chunk_list()[j].1.mesh_fresh() && !self.chunk_list()[j].1.lights_fresh() by {
                let k2 = (a + 1) * 9 + (b + 1) * 3 + (d + 1);
                assert(k2 / 9 - 1 == a && (k2 / 3) % 3 - 1 == b && k2 % 3 - 1 == d);
                assert(can_affect_chunk_light_spec(a, b, d, p));
                let en = (offset_chunk(pos.chunk_pos, a, b, d), 0u8, Vec2i { x: 0, y: 0 });
                assert(list@.contains((offset_chunk(pos.chunk_pos, k2 / 9 - 1, (k2 / 3) % 3 - 1, k2 % 3 - 1), 0u8, Vec2i { x: 0, y: 0 })));
                let w = choose|w: int| 0 <= w < list@.len() && list@[w] == en;
                assert(list@[w].0 == self.chunk_list()[j].0);
            }
        }
    }
}

} // verus!
