use vstd::prelude::*;
use std::sync::Arc;
use block_mesh::ndshape::ConstShape3u32;
use block_mesh::{greedy_quads, GreedyQuadsBuffer, RIGHT_HANDED_Y_UP_CONFIG};
use crate::index::{Vec3i, surrounding_index, index_from_relative_pos_surrounding, is_face_offset};
use crate::block::{Block, BlockBuffer, BlockTexture, TextureID, air, is_rendered, is_opaque};
use crate::light::{LightBuffer, LightVal, dark, source_light};
use crate::face::{FaceDirection, SideDirection, face_brightness, side_of_face, step, face_offset, face_index};
use crate::chunk::{coordinate_in_surrounding_buffers, chunk_offset_of, wrapped};
use crate::pos::chunk_rank;

verus! {

/// One vertex of a chunk mesh. Positions are relative to the chunk; the texture is
/// named by id and placed in the atlas by the renderer.
#[derive(Clone, Copy, Debug)]
pub struct BlockVertex {
    pub pos: [u8; 4],
    pub normal: [i8; 4],
    pub color: [u8; 4],
    pub texture: Option<TextureID>,
    pub brightness: u8,
    pub transparency: u8,
}

/// Vertex and index data of one group (solid or translucent) of a chunk's mesh.
pub struct ChunkMeshRaw {
    pub name: String,
    pub vertices: Vec<BlockVertex>,
    pub indices: Vec<u32>,
    pub chunk_pos: Vec3i,
}

/// The two mesh groups of a chunk.
pub struct MeshBuffer {
    pub solid_mesh: ChunkMeshRaw,
    pub transparent_mesh: ChunkMeshRaw,
}

impl ChunkMeshRaw {
    /// A mesh group; the chunk coordinate is stored without the gap at zero
    /// (`-1 -> 0`, `1 -> 1`).
    pub fn new(name: String, vertices: Vec<BlockVertex>, indices: Vec<u32>, chunk_pos: Vec3i) -> (r: ChunkMeshRaw)
        requires
            chunk_pos.x > i32::MIN && chunk_pos.y > i32::MIN && chunk_pos.z > i32::MIN,
            chunk_pos.x != 0 && chunk_pos.y != 0 && chunk_pos.z != 0,
        ensures
            r.name@ == name@,
            r.vertices@ == vertices@,
            r.indices@ == indices@,
            r.chunk_pos.x == chunk_rank(chunk_pos.x as int),
            r.chunk_pos.y == chunk_rank(chunk_pos.y as int),
            r.chunk_pos.z == chunk_rank(chunk_pos.z as int),
    {
        let mut p = chunk_pos;
        if p.x < 0 {
            p.x = p.x + 1;
        }
        if p.y < 0 {
            p.y = p.y + 1;
        }
        if p.z < 0 {
            p.z = p.z + 1;
        }
        ChunkMeshRaw { name, vertices, indices, chunk_pos: p }
    }
}


/// How a voxel takes part in meshing.
#[derive(Clone, Copy, Debug, PartialEq, Eq, Structural)]
pub enum VisibilityClass {
    Empty,
    Translucent,
    Opaque,
}

/// Meshing view of one cell: its textures, the light seen on each of its six faces
/// (rendered blocks only) and its visibility class.
#[derive(Clone, Copy, Debug, PartialEq, Eq)]
pub struct Voxel {
    pub texture: Option<BlockTexture>,
    pub face_lighting: Option<[LightVal; 6]>,
    pub is_renderer: bool,
    pub is_opaque: bool,
    pub is_transparent: bool,
}

pub open spec fn visibility_of(v: Voxel) -> VisibilityClass {
    if v.is_transparent && v.is_renderer {
        VisibilityClass::Translucent
    } else if v.is_opaque {
        VisibilityClass::Opaque
    } else {
        VisibilityClass::Empty
    }
}

impl Voxel {
    pub fn new(block: &Block, face_lighting: Option<[LightVal; 6]>) -> (r: Voxel)
        ensures
            r.texture == block.texture_id,
            r.face_lighting == face_lighting,
            r.is_renderer == is_rendered(*block),
            r.is_opaque == is_opaque(*block),
            r.is_transparent == block.is_transparent,
    {
        Voxel {
            texture: block.texture_id,
            face_lighting,
            is_renderer: block.is_rendered(),
            is_opaque: block.is_opaque(),
            is_transparent: block.is_transparent,
        }
    }

    pub fn texture(&self) -> (r: Option<BlockTexture>)
        ensures
            r == self.texture,
    {
        self.texture
    }

    pub fn face_lighting(&self) -> (r: Option<[LightVal; 6]>)
        ensures
            r == self.face_lighting,
    {
        self.face_lighting
    }

    pub fn is_renderer(&self) -> (r: bool)
        ensures
            r == self.is_renderer,
    {
        self.is_renderer
    }

    pub fn is_opaque(&self) -> (r: bool)
        ensures
            r == self.is_opaque,
    {
        self.is_opaque
    }

    pub fn is_transparent(&self) -> (r: bool)
        ensures
            r == self.is_transparent,
    {
        self.is_transparent
    }

    pub fn visibility(&self) -> (r: VisibilityClass)
        ensures
            r == visibility_of(*self),
    {
        if self.is_transparent && self.is_renderer {
            VisibilityClass::Translucent
        } else if self.is_opaque {
            VisibilityClass::Opaque
        } else {
            VisibilityClass::Empty
        }
    }

    /// The texture shown on a face: the single texture, or top / side / bottom.
    pub fn face_texture(&self, face: FaceDirection) -> (r: Option<TextureID>)
        ensures
            r == face_texture_of(self.texture, face),
    {
        match self.texture {
            None => None,
            Some(BlockTexture::Single(t)) => Some(t),
            Some(BlockTexture::Sided(top, side, bottom)) => match face.side() {
                SideDirection::Top => Some(top),
                SideDirection::Side => Some(side),
                SideDirection::Bottom => Some(bottom),
            },
        }
    }
}

pub open spec fn face_texture_of(t: Option<BlockTexture>, face: FaceDirection) -> Option<TextureID> {
    match t {
        None => None,
        Some(BlockTexture::Single(a)) => Some(a),
        Some(BlockTexture::Sided(top, side, bottom)) => match side_of_face(face) {
            SideDirection::Top => Some(top),
            SideDirection::Side => Some(side),
            SideDirection::Bottom => Some(bottom),
        },
    }
}

/// Edge length of the padded meshing grid.
pub const MESH_GRID: usize = 34;

/// Number of cells of the padded meshing grid.
pub const MESH_GRID_VOLUME: usize = 39304;

/// The position (relative to the chunk) of cell `i` of the padded grid.
pub open spec fn mesh_cell(i: int) -> Vec3i {
    Vec3i { x: (i % 34 - 1) as i32, y: ((i / 34) % 34 - 1) as i32, z: (i / 1156 - 1) as i32 }
}

/// The block at a position relative to the centre chunk, taken from the chunk or a face
/// neighbour (seven buffers: centre, up, down, west, east, north, south); air elsewhere.
pub open spec fn block_near(surr: Seq<Arc<BlockBuffer>>, p: Vec3i) -> Block {
    if is_face_offset(chunk_offset_of(p)) {
        surr[surrounding_index(chunk_offset_of(p))].block(wrapped(p))
    } else {
        air()
    }
}

/// The light at a position relative to the centre chunk, dark outside the seven chunks.
pub open spec fn light_near(lights: Seq<Arc<LightBuffer>>, p: Vec3i) -> LightVal {
    if is_face_offset(chunk_offset_of(p)) {
        lights[surrounding_index(chunk_offset_of(p))].light(wrapped(p))
    } else {
        dark()
    }
}

/// The light seen on face `f` of the block at `p`: an emitter shows its own light, any
/// other block the light of the cell across the face.
pub open spec fn face_light(surr: Seq<Arc<BlockBuffer>>, lights: Seq<Arc<LightBuffer>>, p: Vec3i, f: FaceDirection) -> LightVal {
    match block_near(surr, p).light_source {
        Some(s) => source_light(s),
        None => light_near(lights, step(p, f)),
    }
}

/// The voxel that meshing sees at `p`.
pub open spec fn voxel_at(surr: Seq<Arc<BlockBuffer>>, lights: Seq<Arc<LightBuffer>>, p: Vec3i) -> Voxel {
    let b = block_near(surr, p);
    Voxel {
        texture: b.texture_id,
        face_lighting: if is_rendered(b) {
            Some([
                face_light(surr, lights, p, FaceDirection::Top),
                face_light(surr, lights, p, FaceDirection::Bottom),
                face_light(surr, lights, p, FaceDirection::West),
                face_light(surr, lights, p, FaceDirection::East),
                face_light(surr, lights, p, FaceDirection::North),
                face_light(surr, lights, p, FaceDirection::South),
            ])
        } else {
            None
        },
        is_renderer: is_rendered(b),
        is_opaque: is_opaque(b),
        is_transparent: b.is_transparent,
    }
}

pub open spec fn neighbourhood_wf(surr: Seq<Arc<BlockBuffer>>, lights: Seq<Arc<LightBuffer>>) -> bool {
    &&& surr.len() == 7
    &&& lights.len() == 7
    &&& forall|i: int| 0 <= i < 7 ==> (#[trigger] surr[i]).wf()
    &&& forall|i: int| 0 <= i < 7 ==> (#[trigger] lights[i]).wf()
}

fn block_near_exec(surrounding_blocks: &Vec<Arc<BlockBuffer>>, p: Vec3i) -> (r: Block)
    requires
        surrounding_blocks@.len() == 7,
        forall|i: int| 0 <= i < 7 ==> (#[trigger] surrounding_blocks@[i]).wf(),
    ensures
        r == block_near(surrounding_blocks@, p),
{
    match coordinate_in_surrounding_buffers(p) {
        Some((c, q)) => {
            let idx = index_from_relative_pos_surrounding(&c) as usize;
            let buffer: &BlockBuffer = &surrounding_blocks[idx];
            *buffer.get(&q)
        },
        None => Block::default(),
    }
}

fn light_near_exec(surrounding_lights: &Vec<Arc<LightBuffer>>, p: Vec3i) -> (r: LightVal)
    requires
        surrounding_lights@.len() == 7,
        forall|i: int| 0 <= i < 7 ==> (#[trigger] surrounding_lights@[i]).wf(),
    ensures
        r == light_near(surrounding_lights@, p),
{
    match coordinate_in_surrounding_buffers(p) {
        Some((c, q)) => {
            let idx = index_from_relative_pos_surrounding(&c) as usize;
            let buffer: &LightBuffer = &surrounding_lights[idx];
            *buffer.get(&q)
        },
        None => LightVal::default(),
    }
}

/// Projects the chunk and one layer of each face neighbour into the padded meshing grid
/// (`34³` cells, cell `i` at `mesh_cell(i)`).
pub fn build_voxels(surrounding_blocks: &Vec<Arc<BlockBuffer>>, surrounding_lights: &Vec<Arc<LightBuffer>>) -> (r: Vec<Voxel>)
    requires
        neighbourhood_wf(surrounding_blocks@, surrounding_lights@),
    ensures
        r@.len() == MESH_GRID_VOLUME,
        forall|i: int| 0 <= i < MESH_GRID_VOLUME ==> #[trigger] r@[i] == voxel_at(surrounding_blocks@, surrounding_lights@, mesh_cell(i)),
{
    let mut out: Vec<Voxel> = Vec::new();
    let mut i: usize = 0;
    while i < MESH_GRID_VOLUME
        invariant
            i <= MESH_GRID_VOLUME,
            neighbourhood_wf(surrounding_blocks@, surrounding_lights@),
            out@.len() == i,
            forall|j: int| 0 <= j < i ==> #[trigger] out@[j] == voxel_at(surrounding_blocks@, surrounding_lights@, mesh_cell(j)),
        decreases MESH_GRID_VOLUME - i,
    {
        let p = Vec3i { x: (i % 34) as i32 - 1, y: ((i / 34) % 34) as i32 - 1, z: (i / 1156) as i32 - 1 };
        assert(p == mesh_cell(i as int));
        let block = block_near_exec(surrounding_blocks, p);
        let face_lighting = if block.is_rendered() {
            match block.light_source {
                Some(s) => {
                    let l = s.to_light_val();
                    Some([l, l, l, l, l, l])
                },
                None => {
                    let top = light_near_exec(surrounding_lights, Vec3i { x: p.x, y: p.y + 1, z: p.z });
                    let bottom = light_near_exec(surrounding_lights, Vec3i { x: p.x, y: p.y - 1, z: p.z });
                    let west = light_near_exec(surrounding_lights, Vec3i { x: p.x - 1, y: p.y, z: p.z });
                    let east = light_near_exec(surrounding_lights, Vec3i { x: p.x + 1, y: p.y, z: p.z });
                    let north = light_near_exec(surrounding_lights, Vec3i { x: p.x, y: p.y, z: p.z - 1 });
                    let south = light_near_exec(surrounding_lights, Vec3i { x: p.x, y: p.y, z: p.z + 1 });
                    Some([top, bottom, west, east, north, south])
                },
            }
        } else {
            None
        };
        let v = Voxel::new(&block, face_lighting);
        out.push(v);
        proof {
            assert(v == voxel_at(surrounding_blocks@, surrounding_lights@, mesh_cell(i as int)));
        }
        i = i + 1;
    }
    out
}


/// One merged face reported by the greedy mesher: its direction, the padded-grid cell it
/// starts at, its four corners in padded-grid coordinates and its six triangle indices
/// relative to its first corner.
#[derive(Clone, Copy, Debug)]
pub struct Quad {
    pub face: FaceDirection,
    pub minimum: Vec3i,
    pub corners: [Vec3i; 4],
    pub indices: [u32; 6],
}

pub open spec fn quad_ok(q: Quad) -> bool {
    &&& 0 <= q.minimum.x < 34 && 0 <= q.minimum.y < 34 && 0 <= q.minimum.z < 34
    &&& forall|k: int| 0 <= k < 4 ==> 0 <= (#[trigger] q.corners@[k]).x <= 34 && 0 <= q.corners@[k].y <= 34
        && 0 <= q.corners@[k].z <= 34
    &&& forall|k: int| 0 <= k < 6 ==> #[trigger] q.indices@[k] < 4
}

/// A vertex group is made of whole quads: four vertices and six indices each.
pub open spec fn group_ok(m: ChunkMeshRaw, translucent: bool) -> bool {
    &&& m.vertices@.len() % 4 == 0
    &&& m.indices@.len() * 2 == m.vertices@.len() * 3
    &&& forall|i: int| 0 <= i < m.indices@.len() ==> (#[trigger] m.indices@[i]) < m.vertices@.len()
    &&& forall|i: int| 0 <= i < m.vertices@.len() ==> (#[trigger] m.vertices@[i]).transparency == (if translucent { 1u8 } else { 0u8 })
}

/// Relies on `format!`: the label followed by the chunk coordinate.
#[verifier::external_body]
fn mesh_name(label: &str, x: i32, y: i32, z: i32) -> (r: String)
{
    format!("{} ({}, {}, {})", label, x, y, z)
}

fn group_name(translucent: bool, chunk_pos: Vec3i) -> (r: String) {
    let label = if translucent { "ChunkMesh - Transparent" } else { "ChunkMesh - Solid" };
    mesh_name(label, chunk_pos.x, chunk_pos.y, chunk_pos.z)
}

/// The vertex that corner `c` of `quad` becomes: the corner shifted back by the padding,
/// the face normal, the given light and texture, the face's brightness and the group flag.
pub open spec fn vertex_ok(v: BlockVertex, quad: Quad, c: int, light: LightVal, texture: Option<TextureID>, translucent: bool) -> bool {
    &&& v.pos@ == seq![(quad.corners@[c].x - 1) as u8, (quad.corners@[c].y - 1) as u8, (quad.corners@[c].z - 1) as u8, 0u8]
    &&& v.normal@ == seq![face_offset(quad.face).x as i8, face_offset(quad.face).y as i8, face_offset(quad.face).z as i8, 0i8]
    &&& v.color@ == seq![light.red, light.green, light.blue, light.sun]
    &&& v.texture == texture
    &&& v.brightness == face_brightness(quad.face)
    &&& v.transparency == (if translucent { 1u8 } else { 0u8 })
}

/// The voxel a quad starts at.
pub open spec fn quad_voxel(voxels: Seq<Voxel>, quad: Quad) -> Voxel {
    voxels[quad.minimum.x + 34 * quad.minimum.y + 1156 * quad.minimum.z]
}

/// Whether a quad goes to the given group: its voxel has face light, and it is translucent
/// exactly when transparency is on and the voxel is transparent.
pub open spec fn routed(voxels: Seq<Voxel>, quad: Quad, transparency: bool, translucent: bool) -> bool {
    quad_voxel(voxels, quad).face_lighting is Some
        && (transparency && quad_voxel(voxels, quad).is_transparent) == translucent
}

/// How many of the first `n` quads go to the given group.
pub open spec fn routed_count(voxels: Seq<Voxel>, quads: Seq<Quad>, transparency: bool, translucent: bool, n: int) -> int
    decreases n,
{
    if n <= 0 {
        0
    } else {
        routed_count(voxels, quads, transparency, translucent, n - 1)
            + (if routed(voxels, quads[n - 1], transparency, translucent) { 1int } else { 0int })
    }
}

/// Quad `i` went to the group as vertices `4 r .. 4 r + 4` and indices `6 r .. 6 r + 6`,
/// where `r` counts the quads routed there before it.
pub open spec fn quad_emitted(m: ChunkMeshRaw, voxels: Seq<Voxel>, quads: Seq<Quad>, transparency: bool, translucent: bool, i: int) -> bool {
    emitted_parts(m.vertices@, m.indices@, voxels, quads, transparency, translucent, i)
}

pub open spec fn emitted_parts(vertices: Seq<BlockVertex>, indices: Seq<u32>, voxels: Seq<Voxel>, quads: Seq<Quad>,
    transparency: bool, translucent: bool, i: int) -> bool {
    let q = quads[i];
    let r = routed_count(voxels, quads, transparency, translucent, i);
    let light = quad_voxel(voxels, q).face_lighting.unwrap()@[face_index(q.face)];
    &&& forall|c: int| 0 <= c < 4 ==> #[trigger] vertex_ok(vertices[4 * r + c], q, c, light,
        face_texture_of(quad_voxel(voxels, q).texture, q.face), translucent)
    &&& forall|j: int| 0 <= j < 6 ==> #[trigger] indices[6 * r + j] == 4 * r + q.indices@[j]
}

fn push_quad(vertices: &mut Vec<BlockVertex>, indices: &mut Vec<u32>, quad: &Quad, color: LightVal, texture: Option<TextureID>, translucent: bool)
    requires
        quad_ok(*quad),
        old(vertices)@.len() % 4 == 0,
        old(vertices)@.len() < 0x4000_0000,
        old(indices)@.len() * 2 == old(vertices)@.len() * 3,
        forall|i: int| 0 <= i < old(indices)@.len() ==> (#[trigger] old(indices)@[i]) < old(vertices)@.len(),
        forall|i: int| 0 <= i < old(vertices)@.len() ==> (#[trigger] old(vertices)@[i]).transparency == (if translucent { 1u8 } else { 0u8 }),
    ensures
        final(vertices)@.len() == old(vertices)@.len() + 4,
        final(indices)@.len() * 2 == final(vertices)@.len() * 3,
        forall|i: int| 0 <= i < final(indices)@.len() ==> (#[trigger] final(indices)@[i]) < final(vertices)@.len(),
        forall|i: int| 0 <= i < final(vertices)@.len() ==> (#[trigger] final(vertices)@[i]).transparency == (if translucent { 1u8 } else { 0u8 }),
        forall|i: int| old(vertices)@.len() <= i < final(vertices)@.len() ==> (#[trigger] final(vertices)@[i]).brightness == face_brightness(quad.face),
        final(indices)@.len() == old(indices)@.len() + 6,
        forall|i: int| 0 <= i < old(vertices)@.len() ==> #[trigger] final(vertices)@[i] == old(vertices)@[i],
        forall|i: int| 0 <= i < old(indices)@.len() ==> #[trigger] final(indices)@[i] == old(indices)@[i],
        forall|c: int| 0 <= c < 4 ==> #[trigger] vertex_ok(final(vertices)@[old(vertices)@.len() + c], *quad, c, color, texture, translucent),
        forall|j: int| 0 <= j < 6 ==> #[trigger] final(indices)@[old(indices)@.len() + j] == old(vertices)@.len() + quad.indices@[j],
{
    let start = vertices.len() as u32;
    let dir = quad.face.as_dir();
    let normal: [i8; 4] = [dir.x as i8, dir.y as i8, dir.z as i8, 0];
    let raw = color.light_raw();
    let brightness = quad.face.brightness();
    let mut k: usize = 0;
    while k < 6
        invariant
            k <= 6,
            quad_ok(*quad),
            start as int == old(vertices)@.len(),
            vertices@ == old(vertices)@,
            start < 0x4000_0000,
            indices@.len() == old(indices)@.len() + k,
            forall|i: int| 0 <= i < indices@.len() ==> (#[trigger] indices@[i]) < start + 4,
            forall|i: int| 0 <= i < old(indices)@.len() ==> indices@[i] == old(indices)@[i],
            forall|j: int| 0 <= j < k ==> #[trigger] indices@[old(indices)@.len() + j] == start + quad.indices@[j],
        decreases 6 - k,
    {
        assert(quad.indices@[k as int] < 4);
        indices.push(start + quad.indices[k]);
        k = k + 1;
    }
    let mut c: usize = 0;
    while c < 4
        invariant
            c <= 4,
            quad_ok(*quad),
            start as int == old(vertices)@.len(),
            vertices@.len() == old(vertices)@.len() + c,
            brightness == face_brightness(quad.face),
            forall|i: int| 0 <= i < vertices@.len() ==> (#[trigger] vertices@[i]).transparency == (if translucent { 1u8 } else { 0u8 }),
            forall|i: int| old(vertices)@.len() <= i < vertices@.len() ==> (#[trigger] vertices@[i]).brightness == face_brightness(quad.face),
            forall|i: int| 0 <= i < old(vertices)@.len() ==> #[trigger] vertices@[i] == old(vertices)@[i],
            forall|c2: int| 0 <= c2 < c ==> #[trigger] vertex_ok(vertices@[old(vertices)@.len() + c2], *quad, c2, color, texture, translucent),
            normal@ == seq![face_offset(quad.face).x as i8, face_offset(quad.face).y as i8, face_offset(quad.face).z as i8, 0i8],
            raw@ == seq![color.red, color.green, color.blue, color.sun],
        decreases 4 - c,
    {
        let corner = quad.corners[c];
        assert(0 <= quad.corners@[c as int].x <= 34);
        let pos: [u8; 4] = [(corner.x - 1) as u8, (corner.y - 1) as u8, (corner.z - 1) as u8, 0];
        let v = BlockVertex {
            pos,
            normal,
            color: raw,
            texture,
            brightness,
            transparency: if translucent { 1 } else { 0 },
        };
        assert(vertex_ok(v, *quad, c as int, color, texture, translucent));
        vertices.push(v);
        c = c + 1;
    }
}

proof fn lemma_routed_count_le(voxels: Seq<Voxel>, quads: Seq<Quad>, transparency: bool, translucent: bool, a: int, b: int)
    requires
        0 <= a <= b,
    ensures
        routed_count(voxels, quads, transparency, translucent, a) <= routed_count(voxels, quads, transparency, translucent, b),
    decreases b - a,
{
    if a < b {
        lemma_routed_count_le(voxels, quads, transparency, translucent, a, b - 1);
    }
}

impl MeshBuffer {
    /// Empty groups, for chunks without rendered blocks.
    pub fn empty(chunk_pos: Vec3i) -> (r: MeshBuffer)
        requires
            chunk_pos.x != 0 && chunk_pos.y != 0 && chunk_pos.z != 0,
            chunk_pos.x > i32::MIN && chunk_pos.y > i32::MIN && chunk_pos.z > i32::MIN,
        ensures
            r.solid_mesh.vertices@.len() == 0,
            r.solid_mesh.indices@.len() == 0,
            r.transparent_mesh.vertices@.len() == 0,
            r.transparent_mesh.indices@.len() == 0,
    {
        MeshBuffer {
            solid_mesh: ChunkMeshRaw::new(group_name(false, chunk_pos), Vec::new(), Vec::new(), chunk_pos),
            transparent_mesh: ChunkMeshRaw::new(group_name(true, chunk_pos), Vec::new(), Vec::new(), chunk_pos),
        }
    }

    /// Turns the greedy mesher's quads over the padded grid into vertex groups: each quad
    /// shows the light of its voxel's face and the texture for that face's slot; quads of
    /// transparent voxels go to the translucent group when transparency is on, all others
    /// to the solid group. Quads over voxels without face light are skipped.
    pub fn from_quads(chunk_pos: Vec3i, voxels: &Vec<Voxel>, quads: &Vec<Quad>, transparency: bool) -> (r: MeshBuffer)
        requires
            chunk_pos.x != 0 && chunk_pos.y != 0 && chunk_pos.z != 0,
            chunk_pos.x > i32::MIN && chunk_pos.y > i32::MIN && chunk_pos.z > i32::MIN,
            voxels@.len() == MESH_GRID_VOLUME,
            quads@.len() < 0x0100_0000,
            forall|i: int| 0 <= i < quads@.len() ==> quad_ok(#[trigger] quads@[i]),
        ensures
            group_ok(r.solid_mesh, false),
            group_ok(r.transparent_mesh, true),
            r.solid_mesh.vertices@.len() + r.transparent_mesh.vertices@.len() <= 4 * quads@.len(),
            !transparency ==> r.transparent_mesh.vertices@.len() == 0,
            r.solid_mesh.vertices@.len() == 4 * routed_count(voxels@, quads@, transparency, false, quads@.len() as int),
            r.transparent_mesh.vertices@.len() == 4 * routed_count(voxels@, quads@, transparency, true, quads@.len() as int),
            forall|i: int| 0 <= i < quads@.len() && routed(voxels@, quads@[i], transparency, false)
                ==> #[trigger] quad_emitted(r.solid_mesh, voxels@, quads@, transparency, false, i),
            forall|i: int| 0 <= i < quads@.len() && routed(voxels@, quads@[i], transparency, true)
                ==> #[trigger] quad_emitted(r.transparent_mesh, voxels@, quads@, transparency, true, i),
    {
        let mut solid_vertices: Vec<BlockVertex> = Vec::new();
        let mut solid_indices: Vec<u32> = Vec::new();
        let mut transparent_vertices: Vec<BlockVertex> = Vec::new();
        let mut transparent_indices: Vec<u32> = Vec::new();
        let mut i: usize = 0;
        while i < quads.len()
            invariant
                i <= quads@.len(),
                quads@.len() < 0x0100_0000,
                voxels@.len() == MESH_GRID_VOLUME,
                forall|j: int| 0 <= j < quads@.len() ==> quad_ok(#[trigger] quads@[j]),
                solid_vertices@.len() + transparent_vertices@.len() <= 4 * i,
                solid_vertices@.len() % 4 == 0,
                solid_indices@.len() * 2 == solid_vertices@.len() * 3,
                forall|j: int| 0 <= j < solid_indices@.len() ==> (#[trigger] solid_indices@[j]) < solid_vertices@.len(),
                forall|j: int| 0 <= j < solid_vertices@.len() ==> (#[trigger] solid_vertices@[j]).transparency == 0u8,
                transparent_vertices@.len() % 4 == 0,
                transparent_indices@.len() * 2 == transparent_vertices@.len() * 3,
                forall|j: int| 0 <= j < transparent_indices@.len() ==> (#[trigger] transparent_indices@[j]) < transparent_vertices@.len(),
                forall|j: int| 0 <= j < transparent_vertices@.len() ==> (#[trigger] transparent_vertices@[j]).transparency == 1u8,
                !transparency ==> transparent_vertices@.len() == 0,
                solid_vertices@.len() == 4 * routed_count(voxels@, quads@, transparency, false, i as int),
                transparent_vertices@.len() == 4 * routed_count(voxels@, quads@, transparency, true, i as int),
                forall|j: int| 0 <= j < i && routed(voxels@, quads@[j], transparency, false)
                    ==> #[trigger] emitted_parts(solid_vertices@, solid_indices@, voxels@, quads@, transparency, false, j),
                forall|j: int| 0 <= j < i && routed(voxels@, quads@[j], transparency, true)
                    ==> #[trigger] emitted_parts(transparent_vertices@, transparent_indices@, voxels@, quads@, transparency, true, j),
            decreases quads@.len() - i,
        {
            let quad = quads[i];
            let ghost sv = solid_vertices@;
            let ghost si = solid_indices@;
            let ghost tv = transparent_vertices@;
            let ghost ti = transparent_indices@;
            assert(quad_ok(quad));
            let m = quad.minimum;
            let vi = (m.x as usize) + 34 * (m.y as usize) + 1156 * (m.z as usize);
            let voxel = voxels[vi];
            match voxel.face_lighting {
                Some(lighting) => {
                    let color = lighting[quad.face.as_index()];
                    let texture = voxel.face_texture(quad.face);
                    assert(color == lighting@[face_index(quad.face)]);
                    assert(texture == face_texture_of(quad_voxel(voxels@, quad).texture, quad.face));
                    if transparency && voxel.is_transparent {
                        push_quad(&mut transparent_vertices, &mut transparent_indices, &quad, color, texture, true);
                        assert(transparent_vertices@.subrange(0, tv.len() as int) =~= tv);
                        assert(transparent_indices@.subrange(0, ti.len() as int) =~= ti);
                    } else {
                        push_quad(&mut solid_vertices, &mut solid_indices, &quad, color, texture, false);
                        assert(solid_vertices@.subrange(0, sv.len() as int) =~= sv);
                        assert(solid_indices@.subrange(0, si.len() as int) =~= si);
                    }
                },
                None => {},
            }
            proof {
                assert(solid_vertices@.subrange(0, sv.len() as int) == sv);
                assert(solid_indices@.subrange(0, si.len() as int) == si);
                assert(transparent_vertices@.subrange(0, tv.len() as int) == tv);
                assert(transparent_indices@.subrange(0, ti.len() as int) == ti);
                assert(quad == quads@[i as int]);
                assert(voxel == quad_voxel(voxels@, quad));
                assert forall|j: int| 0 <= j < i + 1 && routed(voxels@, quads@[j], transparency, false)
                    implies #[trigger] emitted_parts(solid_vertices@, solid_indices@, voxels@, quads@, transparency, false, j) by {
                    let r = routed_count(voxels@, quads@, transparency, false, j);
                    let q = quads@[j];
                    let light = quad_voxel(voxels@, q).face_lighting.unwrap()@[face_index(q.face)];
                    let tex = face_texture_of(quad_voxel(voxels@, q).texture, q.face);
                    if j < i {
                        assert(emitted_parts(sv, si, voxels@, quads@, transparency, false, j));
                        lemma_routed_count_le(voxels@, quads@, transparency, false, j + 1, i as int);
                        lemma_routed_count_le(voxels@, quads@, transparency, false, 0, j);
                        assert(routed_count(voxels@, quads@, transparency, false, j + 1) == r + 1);
                        assert(sv.len() == 4 * routed_count(voxels@, quads@, transparency, false, i as int));
                        assert(r + 1 <= routed_count(voxels@, quads@, transparency, false, i as int));
                        assert forall|c: int| 0 <= c < 4 implies #[trigger] vertex_ok(solid_vertices@[4 * r + c], q, c, light, tex, false) by {
                            assert(vertex_ok(sv[4 * r + c], q, c, light, tex, false));
                            assert(0 <= 4 * r + c < sv.len());
                            assert(solid_vertices@.subrange(0, sv.len() as int)[4 * r + c] == sv[4 * r + c]);
                            assert(solid_vertices@[4 * r + c] == sv[4 * r + c]);
                        }
                        assert forall|jj: int| 0 <= jj < 6 implies #[trigger] solid_indices@[6 * r + jj] == 4 * r + q.indices@[jj] by {
                            assert(si[6 * r + jj] == 4 * r + q.indices@[jj]);
                            assert(solid_indices@.subrange(0, si.len() as int)[6 * r + jj] == si[6 * r + jj]);
                        }
                    } else {
                        assert(r == sv.len() / 4);
                        assert forall|c: int| 0 <= c < 4 implies #[trigger] vertex_ok(solid_vertices@[4 * r + c], q, c, light, tex, false) by {
                            assert(4 * r + c == sv.len() + c);
                        }
                        assert forall|jj: int| 0 <= jj < 6 implies #[trigger] solid_indices@[6 * r + jj] == 4 * r + q.indices@[jj] by {
                            assert(6 * r + jj == si.len() + jj);
                        }
                    }
                }
                assert forall|j: int| 0 <= j < i + 1 && routed(voxels@, quads@[j], transparency, true)
                    implies #[trigger] emitted_parts(transparent_vertices@, transparent_indices@, voxels@, quads@, transparency, true, j) by {
                    let r = routed_count(voxels@, quads@, transparency, true, j);
                    let q = quads@[j];
                    let light = quad_voxel(voxels@, q).face_lighting.unwrap()@[face_index(q.face)];
                    let tex = face_texture_of(quad_voxel(voxels@, q).texture, q.face);
                    if j < i {
                        assert(emitted_parts(tv, ti, voxels@, quads@, transparency, true, j));
                        lemma_routed_count_le(voxels@, quads@, transparency, true, j + 1, i as int);
                        lemma_routed_count_le(voxels@, quads@, transparency, true, 0, j);
                        assert(routed_count(voxels@, quads@, transparency, true, j + 1) == r + 1);
                        assert forall|c: int| 0 <= c < 4 implies #[trigger] vertex_ok(transparent_vertices@[4 * r + c], q, c, light, tex, true) by {
                            assert(vertex_ok(tv[4 * r + c], q, c, light, tex, true));
                            assert(0 <= 4 * r + c < tv.len());
                            assert(transparent_vertices@.subrange(0, tv.len() as int)[4 * r + c] == tv[4 * r + c]);
                            assert(transparent_vertices@[4 * r + c] == tv[4 * r + c]);
                        }
                        assert forall|jj: int| 0 <= jj < 6 implies #[trigger] transparent_indices@[6 * r + jj] == 4 * r + q.indices@[jj] by {
                            assert(ti[6 * r + jj] == 4 * r + q.indices@[jj]);
                            assert(transparent_indices@.subrange(0, ti.len() as int)[6 * r + jj] == ti[6 * r + jj]);
                        }
                    } else {
                        assert(r == tv.len() / 4);
                        assert forall|c: int| 0 <= c < 4 implies #[trigger] vertex_ok(transparent_vertices@[4 * r + c], q, c, light, tex, true) by {
                            assert(4 * r + c == tv.len() + c);
                        }
                        assert forall|jj: int| 0 <= jj < 6 implies #[trigger] transparent_indices@[6 * r + jj] == 4 * r + q.indices@[jj] by {
                            assert(6 * r + jj == ti.len() + jj);
                        }
                    }
                }
            }
            i = i + 1;
        }
        MeshBuffer {
            solid_mesh: ChunkMeshRaw::new(group_name(false, chunk_pos), solid_vertices, solid_indices, chunk_pos),
            transparent_mesh: ChunkMeshRaw::new(group_name(true, chunk_pos), transparent_vertices, transparent_indices, chunk_pos),
        }
    }
}

/// Whether a chunk needs meshing at all: its own buffer (index 0) holds a rendered block.
pub fn needs_meshing(surrounding_blocks: &Vec<Arc<BlockBuffer>>) -> (r: bool)
    requires
        surrounding_blocks@.len() == 7,
        forall|i: int| 0 <= i < 7 ==> (#[trigger] surrounding_blocks@[i]).wf(),
    ensures
        r == exists|i: int| 0 <= i < 32768 && is_rendered(#[trigger] surrounding_blocks@[0].cells()[i]),
{
    let center: &BlockBuffer = &surrounding_blocks[0];
    center.contains_rendered_blocks()
}


#[verifier::external_type_specification]
#[verifier::external_body]
pub struct ExBlockMeshVisibility(block_mesh::VoxelVisibility);

/// A meshing cell as block-mesh's greedy mesher sees it.
#[derive(Clone, Copy, PartialEq, Eq)]
pub struct GridVoxel(pub Voxel);

impl block_mesh::Voxel for GridVoxel {
    #[verifier::external_body]
    fn get_visibility(&self) -> block_mesh::VoxelVisibility {
        match self.0.visibility() {
            VisibilityClass::Empty => block_mesh::VoxelVisibility::Empty,
            VisibilityClass::Translucent => block_mesh::VoxelVisibility::Translucent,
            VisibilityClass::Opaque => block_mesh::VoxelVisibility::Opaque,
        }
    }
}

impl block_mesh::MergeVoxel for GridVoxel {
    type MergeValue = Voxel;

    #[verifier::external_body]
    fn merge_value(&self) -> Voxel {
        self.0
    }
}

/// One quad as the greedy mesher reports it: the index of its face in
/// `RIGHT_HANDED_Y_UP_CONFIG.faces`, its minimum cell, its four corners and its six
/// triangle indices relative to its first corner.
#[derive(Clone, Copy, Debug)]
pub struct RawQuad {
    pub group: usize,
    pub minimum: [u32; 3],
    pub corners: [[u32; 3]; 4],
    pub indices: [u32; 6],
}

/// The quads that block-mesh's greedy mesher gives for a padded grid.
pub uninterp spec fn greedy_of(voxels: Seq<Voxel>) -> Seq<RawQuad>;

/// Relies on `block_mesh::greedy_quads` over the padded grid (bounds `[0; 3]` to `[33; 3]`,
/// `RIGHT_HANDED_Y_UP_CONFIG`) and on `OrientedBlockFace::quad_corners` and
/// `quad_mesh_indices`: the quads depend on the voxels alone.
#[verifier::external_body]
fn greedy_quads_of(voxels: &Vec<Voxel>) -> (r: Vec<RawQuad>)
    requires
        voxels@.len() == MESH_GRID_VOLUME,
    ensures
        r@ == greedy_of(voxels@),
{
    let grid: Vec<GridVoxel> = voxels.iter().map(|v| GridVoxel(*v)).collect();
    let mut buf = GreedyQuadsBuffer::new(grid.len());
    let faces = RIGHT_HANDED_Y_UP_CONFIG.faces;
    greedy_quads(&grid, &ConstShape3u32::<34, 34, 34> {}, [0; 3], [33; 3], &faces, &mut buf);
    let mut out = Vec::new();
    for (g, face) in faces.iter().enumerate() {
        for q in buf.quads.groups[g].iter() {
            let corners = face.quad_corners(q).map(|p| [p.x, p.y, p.z]);
            out.push(RawQuad { group: g, minimum: q.minimum, corners, indices: face.quad_mesh_indices(0) });
        }
    }
    out
}

/// The face of each entry of `RIGHT_HANDED_Y_UP_CONFIG.faces`: -X, -Y, -Z, +X, +Y, +Z.
pub open spec fn group_face(g: int) -> FaceDirection {
    if g == 0 {
        FaceDirection::West
    } else if g == 1 {
        FaceDirection::Bottom
    } else if g == 2 {
        FaceDirection::North
    } else if g == 3 {
        FaceDirection::East
    } else if g == 4 {
        FaceDirection::Top
    } else {
        FaceDirection::South
    }
}

/// A reported quad lies in the padded grid and names one of the six faces.
pub open spec fn raw_ok(q: RawQuad) -> bool {
    &&& q.group < 6
    &&& forall|a: int| 0 <= a < 3 ==> #[trigger] q.minimum@[a] < 34
    &&& forall|c: int, a: int| 0 <= c < 4 && 0 <= a < 3 ==> #[trigger] q.corners@[c]@[a] <= 34
    &&& forall|j: int| 0 <= j < 6 ==> #[trigger] q.indices@[j] < 4
}

pub open spec fn corner_of(p: [u32; 3]) -> Vec3i {
    Vec3i { x: p@[0] as i32, y: p@[1] as i32, z: p@[2] as i32 }
}

/// The quad that a reported quad stands for.
pub open spec fn quad_of_raw(q: RawQuad) -> Quad {
    Quad {
        face: group_face(q.group as int),
        minimum: corner_of(q.minimum),
        corners: [corner_of(q.corners@[0]), corner_of(q.corners@[1]), corner_of(q.corners@[2]), corner_of(q.corners@[3])],
        indices: q.indices,
    }
}

/// The padded grid that `build_voxels` gives.
pub open spec fn voxel_grid(surr: Seq<Arc<BlockBuffer>>, lights: Seq<Arc<LightBuffer>>) -> Seq<Voxel> {
    Seq::new(MESH_GRID_VOLUME as nat, |i: int| voxel_at(surr, lights, mesh_cell(i)))
}

/// What `from_quads` promises of a mesh for the given grid and quads.
pub open spec fn mesh_of(r: MeshBuffer, voxels: Seq<Voxel>, quads: Seq<Quad>, transparency: bool) -> bool {
    &&& group_ok(r.solid_mesh, false)
    &&& group_ok(r.transparent_mesh, true)
    &&& r.solid_mesh.vertices@.len() == 4 * routed_count(voxels, quads, transparency, false, quads.len() as int)
    &&& r.transparent_mesh.vertices@.len() == 4 * routed_count(voxels, quads, transparency, true, quads.len() as int)
    &&& forall|i: int| 0 <= i < quads.len() && routed(voxels, quads[i], transparency, false)
        ==> #[trigger] quad_emitted(r.solid_mesh, voxels, quads, transparency, false, i)
    &&& forall|i: int| 0 <= i < quads.len() && routed(voxels, quads[i], transparency, true)
        ==> #[trigger] quad_emitted(r.transparent_mesh, voxels, quads, transparency, true, i)
}

fn corner_from(p: [u32; 3]) -> (r: Vec3i)
    requires
        p@[0] <= 34 && p@[1] <= 34 && p@[2] <= 34,
    ensures
        r == corner_of(p),
{
    Vec3i { x: p[0] as i32, y: p[1] as i32, z: p[2] as i32 }
}

fn face_from_group(g: usize) -> (r: FaceDirection)
    ensures
        r == group_face(g as int),
{
    if g == 0 {
        FaceDirection::West
    } else if g == 1 {
        FaceDirection::Bottom
    } else if g == 2 {
        FaceDirection::North
    } else if g == 3 {
        FaceDirection::East
    } else if g == 4 {
        FaceDirection::Top
    } else {
        FaceDirection::South
    }
}

/// Meshes a chunk from its own and its six face neighbours' blocks and light (centre, up,
/// down, west, east, north, south): nothing when the chunk holds no rendered block;
/// otherwise the greedy mesher's quads over the padded grid, turned into vertex groups
/// as `from_quads` does. Quads the mesher could not have produced (outside the grid) leave
/// both groups empty.
pub fn generate_mesh(
    chunk_pos: Vec3i,
    surrounding_blocks: &Vec<Arc<BlockBuffer>>,
    surrounding_lights: &Vec<Arc<LightBuffer>>,
    transparency: bool,
) -> (r: MeshBuffer)
    requires
        neighbourhood_wf(surrounding_blocks@, surrounding_lights@),
        chunk_pos.x != 0 && chunk_pos.y != 0 && chunk_pos.z != 0,
        chunk_pos.x > i32::MIN && chunk_pos.y > i32::MIN && chunk_pos.z > i32::MIN,
    ensures
        !(exists|i: int| 0 <= i < 32768 && is_rendered(#[trigger] surrounding_blocks@[0].cells()[i]))
            || !(forall|i: int| 0 <= i < greedy_of(voxel_grid(surrounding_blocks@, surrounding_lights@)).len()
                ==> raw_ok(#[trigger] greedy_of(voxel_grid(surrounding_blocks@, surrounding_lights@))[i]))
            || greedy_of(voxel_grid(surrounding_blocks@, surrounding_lights@)).len() >= 0x0100_0000
            ==> r.solid_mesh.vertices@.len() == 0 && r.solid_mesh.indices@.len() == 0
                && r.transparent_mesh.vertices@.len() == 0 && r.transparent_mesh.indices@.len() == 0,
        (exists|i: int| 0 <= i < 32768 && is_rendered(#[trigger] surrounding_blocks@[0].cells()[i]))
            && (forall|i: int| 0 <= i < greedy_of(voxel_grid(surrounding_blocks@, surrounding_lights@)).len()
                ==> raw_ok(#[trigger] greedy_of(voxel_grid(surrounding_blocks@, surrounding_lights@))[i]))
            && greedy_of(voxel_grid(surrounding_blocks@, surrounding_lights@)).len() < 0x0100_0000
            ==> mesh_of(r, voxel_grid(surrounding_blocks@, surrounding_lights@),
                greedy_of(voxel_grid(surrounding_blocks@, surrounding_lights@)).map_values(|q: RawQuad| quad_of_raw(q)), transparency),
{
    if !needs_meshing(surrounding_blocks) {
        return MeshBuffer::empty(chunk_pos);
    }
    let voxels = build_voxels(surrounding_blocks, surrounding_lights);
    proof {
        assert(voxels@ =~= voxel_grid(surrounding_blocks@, surrounding_lights@));
    }
    let raw = greedy_quads_of(&voxels);
    if raw.len() >= 0x0100_0000 {
        return MeshBuffer::empty(chunk_pos);
    }
    let ghost expected = raw@.map_values(|q: RawQuad| quad_of_raw(q));
    let mut quads: Vec<Quad> = Vec::new();
    let mut i: usize = 0;
    while i < raw.len()
        invariant
            i <= raw@.len(),
            raw@.len() < 0x0100_0000,
            expected == raw@.map_values(|q: RawQuad| quad_of_raw(q)),
            quads@ == expected.subrange(0, i as int),
            forall|j: int| 0 <= j < i ==> raw_ok(#[trigger] raw@[j]),
            raw@ == greedy_of(voxel_grid(surrounding_blocks@, surrounding_lights@)),
            voxels@ == voxel_grid(surrounding_blocks@, surrounding_lights@),
            chunk_pos.x != 0 && chunk_pos.y != 0 && chunk_pos.z != 0,
            chunk_pos.x > i32::MIN && chunk_pos.y > i32::MIN && chunk_pos.z > i32::MIN,
        decreases raw@.len() - i,
    {
        let q = raw[i];
        let ok = q.group < 6 && q.minimum[0] < 34 && q.minimum[1] < 34 && q.minimum[2] < 34
            && q.corners[0][0] <= 34 && q.corners[0][1] <= 34 && q.corners[0][2] <= 34
            && q.corners[1][0] <= 34 && q.corners[1][1] <= 34 && q.corners[1][2] <= 34
            && q.corners[2][0] <= 34 && q.corners[2][1] <= 34 && q.corners[2][2] <= 34
            && q.corners[3][0] <= 34 && q.corners[3][1] <= 34 && q.corners[3][2] <= 34
            && q.indices[0] < 4 && q.indices[1] < 4 && q.indices[2] < 4 && q.indices[3] < 4
            && q.indices[4] < 4 && q.indices[5] < 4;
        if !ok {
            proof {
                assert(!raw_ok(raw@[i as int]));
            }
            return MeshBuffer::empty(chunk_pos);
        }
        proof {
            assert forall|a: int| 0 <= a < 3 implies #[trigger] q.minimum@[a] < 34 by {}
            assert forall|c: int, a: int| 0 <= c < 4 && 0 <= a < 3 implies #[trigger] q.corners@[c]@[a] <= 34 by {}
            assert forall|j: int| 0 <= j < 6 implies #[trigger] q.indices@[j] < 4 by {}
            assert(raw_ok(q));
        }
        let quad = Quad {
            face: face_from_group(q.group),
            minimum: corner_from(q.minimum),
            corners: [corner_from(q.corners[0]), corner_from(q.corners[1]), corner_from(q.corners[2]), corner_from(q.corners[3])],
            indices: q.indices,
        };
        proof {
            assert(quad.corners@ =~= quad_of_raw(q).corners@);
            assert(quad == quad_of_raw(q));
        }
        quads.push(quad);
        proof {
            assert(quads@ =~= expected.subrange(0, i + 1));
        }
        i = i + 1;
    }
    proof {
        assert(quads@ =~= expected);
        assert forall|j: int| 0 <= j < quads@.len() implies quad_ok(#[trigger] quads@[j]) by {
            let q = raw@[j];
            assert(raw_ok(q));
            assert(quads@[j] == quad_of_raw(q));
            assert(q.corners@[0]@[0] <= 34);
        }
    }
    MeshBuffer::from_quads(chunk_pos, &voxels, &quads, transparency)
}

} // verus!
