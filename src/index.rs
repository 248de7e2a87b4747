use vstd::prelude::*;

verus! {

/// Edge length of a chunk, in blocks.
pub const CHUNK_SIZE: u32 = 32;

/// Edge length of the padded grid used for meshing (one extra layer on each side).
pub const CHUNK_SIZE_MESHING: u32 = CHUNK_SIZE + 2;

/// Number of cells in one chunk.
pub const CHUNK_VOLUME: usize = 32768;

/// A vector of three signed integers.
#[derive(Clone, Copy, Debug, PartialEq, Eq, Hash, Structural)]
pub struct Vec3i {
    pub x: i32,
    pub y: i32,
    pub z: i32,
}

/// A vector of two signed integers (a column is `(x, z)` stored as `(x, y)`).
#[derive(Clone, Copy, Debug, PartialEq, Eq, Hash, Structural)]
pub struct Vec2i {
    pub x: i32,
    pub y: i32,
}

impl Vec3i {
    pub fn new(x: i32, y: i32, z: i32) -> (r: Vec3i)
        ensures
            r == (Vec3i { x, y, z }),
    {
        Vec3i { x, y, z }
    }
}

impl Vec2i {
    pub fn new(x: i32, y: i32) -> (r: Vec2i)
        ensures
            r == (Vec2i { x, y }),
    {
        Vec2i { x, y }
    }
}

/// Whether every component lies in `[0, CHUNK_SIZE)`.
pub open spec fn in_chunk(p: Vec3i) -> bool {
    0 <= p.x < 32 && 0 <= p.y < 32 && 0 <= p.z < 32
}

/// Whether every component lies in `[-1, 1]`.
pub open spec fn is_unit_offset(p: Vec3i) -> bool {
    -1 <= p.x <= 1 && -1 <= p.y <= 1 && -1 <= p.z <= 1
}

/// The centre or one of the six face offsets.
pub open spec fn is_face_offset(p: Vec3i) -> bool {
    is_unit_offset(p) && abs(p.x as int) + abs(p.y as int) + abs(p.z as int) <= 1
}

pub open spec fn abs(v: int) -> int {
    if v < 0 { -v } else { v }
}

/// Linear index of an in-chunk cell: `x + 32 y + 1024 z`.
pub open spec fn linear_index(p: Vec3i) -> int {
    p.x + 32 * p.y + 1024 * p.z
}

/// Linear index of a column `(x, z)`: `z * 32 + x`.
pub open spec fn column_index(c: Vec2i) -> int {
    c.y * 32 + c.x
}

/// The cell that a linear in-chunk index stands for.
pub open spec fn cell_of_index(i: int) -> Vec3i {
    Vec3i { x: (i % 32) as i32, y: ((i / 32) % 32) as i32, z: (i / 1024) as i32 }
}

/// Linear index of an in-chunk cell.
pub fn linearize(p: &Vec3i) -> (r: usize)
    requires
        in_chunk(*p),
    ensures
        r as int == linear_index(*p),
        r < CHUNK_VOLUME,
{
    (p.x as usize) + 32 * (p.y as usize) + 1024 * (p.z as usize)
}

pub proof fn lemma_linear_index_bijective(p: Vec3i)
    requires
        in_chunk(p),
    ensures
        0 <= linear_index(p) < 32768,
        cell_of_index(linear_index(p)) == p,
{
    let i = linear_index(p);
    assert(i % 32 == p.x) by (nonlinear_arith)
        requires i == p.x + 32 * p.y + 1024 * p.z, 0 <= p.x < 32, 0 <= p.y < 32, 0 <= p.z < 32;
    assert((i / 32) % 32 == p.y) by (nonlinear_arith)
        requires i == p.x + 32 * p.y + 1024 * p.z, 0 <= p.x < 32, 0 <= p.y < 32, 0 <= p.z < 32;
    assert(i / 1024 == p.z) by (nonlinear_arith)
        requires i == p.x + 32 * p.y + 1024 * p.z, 0 <= p.x < 32, 0 <= p.y < 32, 0 <= p.z < 32;
}

pub proof fn lemma_index_cell_roundtrip(i: int)
    requires
        0 <= i < 32768,
    ensures
        in_chunk(cell_of_index(i)),
        linear_index(cell_of_index(i)) == i,
{
    assert(0 <= i % 32 < 32);
    assert(0 <= (i / 32) % 32 < 32);
    assert(0 <= i / 1024 < 32);
    assert(i == i % 32 + 32 * ((i / 32) % 32) + 1024 * (i / 1024)) by (nonlinear_arith)
        requires 0 <= i < 32768;
}

/// Index of a face-neighbour offset in a seven-element neighbourhood array:
/// centre, up, down, west, east, north, south.
pub open spec fn surrounding_index(p: Vec3i) -> int {
    if p.x == 0 && p.y == 0 && p.z == 0 {
        0
    } else if p.x == 0 && p.y == 1 && p.z == 0 {
        1
    } else if p.x == 0 && p.y == -1 && p.z == 0 {
        2
    } else if p.x == -1 && p.y == 0 && p.z == 0 {
        3
    } else if p.x == 1 && p.y == 0 && p.z == 0 {
        4
    } else if p.x == 0 && p.y == 0 && p.z == -1 {
        5
    } else {
        6
    }
}

pub open spec fn surrounding_offset(i: int) -> Vec3i {
    if i == 0 {
        Vec3i { x: 0, y: 0, z: 0 }
    } else if i == 1 {
        Vec3i { x: 0, y: 1, z: 0 }
    } else if i == 2 {
        Vec3i { x: 0, y: -1i32, z: 0 }
    } else if i == 3 {
        Vec3i { x: -1i32, y: 0, z: 0 }
    } else if i == 4 {
        Vec3i { x: 1, y: 0, z: 0 }
    } else if i == 5 {
        Vec3i { x: 0, y: 0, z: -1i32 }
    } else {
        Vec3i { x: 0, y: 0, z: 1 }
    }
}

pub fn index_from_relative_pos_surrounding(pos: &Vec3i) -> (r: u8)
    requires
        is_face_offset(*pos),
    ensures
        r as int == surrounding_index(*pos),
        r < 7,
        surrounding_offset(r as int) == *pos,
{
    if pos.x == 0 && pos.y == 0 && pos.z == 0 {
        0
    } else if pos.x == 0 && pos.y == 1 && pos.z == 0 {
        1
    } else if pos.x == 0 && pos.y == -1 && pos.z == 0 {
        2
    } else if pos.x == -1 && pos.y == 0 && pos.z == 0 {
        3
    } else if pos.x == 1 && pos.y == 0 && pos.z == 0 {
        4
    } else if pos.x == 0 && pos.y == 0 && pos.z == -1 {
        5
    } else {
        6
    }
}

pub fn relative_pos_surrounding_from_index(index: u8) -> (r: Vec3i)
    requires
        index < 7,
    ensures
        r == surrounding_offset(index as int),
        is_face_offset(r),
        surrounding_index(r) == index,
{
    if index == 0 {
        Vec3i::new(0, 0, 0)
    } else if index == 1 {
        Vec3i::new(0, 1, 0)
    } else if index == 2 {
        Vec3i::new(0, -1, 0)
    } else if index == 3 {
        Vec3i::new(-1, 0, 0)
    } else if index == 4 {
        Vec3i::new(1, 0, 0)
    } else if index == 5 {
        Vec3i::new(0, 0, -1)
    } else {
        Vec3i::new(0, 0, 1)
    }
}

/// Index of an offset in a 27-element cube neighbourhood array.
pub open spec fn cube_index(p: Vec3i) -> int {
    (p.z + 1) * 9 + (p.y + 1) * 3 + (p.x + 1)
}

pub open spec fn cube_offset(i: int) -> Vec3i {
    Vec3i { x: (i % 3 - 1) as i32, y: ((i / 3) % 3 - 1) as i32, z: (i / 9 - 1) as i32 }
}

pub fn index_from_relative_pos_surrounding_cubes(pos: &Vec3i) -> (r: u8)
    requires
        is_unit_offset(*pos),
    ensures
        r as int == cube_index(*pos),
        r < 27,
        cube_offset(r as int) == *pos,
{
    let r = ((pos.z + 1) * 9 + (pos.y + 1) * 3 + (pos.x + 1)) as u8;
    r
}

pub fn relative_pos_surrounding_cubes_from_index(index: u8) -> (r: Vec3i)
    requires
        index < 27,
    ensures
        r == cube_offset(index as int),
        is_unit_offset(r),
        cube_index(r) == index,
{
    let mut i = index as i32;
    let z = i / 9;
    i = i - z * 9;
    let y = i / 3;
    let x = i % 3;
    Vec3i::new(x - 1, y - 1, z - 1)
}

pub fn index_from_pos_2d(pos: &Vec2i) -> (r: u32)
    requires
        0 <= pos.x < 32,
        0 <= pos.y < 32,
    ensures
        r as int == column_index(*pos),
        r < 1024,
{
    (pos.y * 32 + pos.x) as u32
}

pub fn pos_from_index_2d(index: u32) -> (r: Vec2i)
    requires
        index < 1024,
    ensures
        0 <= r.x < 32,
        0 <= r.y < 32,
        column_index(r) == index,
{
    let x = index % CHUNK_SIZE;
    let y = (index - x) / CHUNK_SIZE;
    Vec2i::new(x as i32, y as i32)
}

} // verus!
