use vstd::prelude::*;
use crate::index::{Vec3i, in_chunk};

verus! {

/// A chunk coordinate has no zero component.
pub open spec fn valid_chunk_pos(c: Vec3i) -> bool {
    c.x != 0 && c.y != 0 && c.z != 0
}

/// Moves a non-zero coordinate `num2` steps, skipping over zero: `-1 + 1 == 1`,
/// `-1 + 2 == 2`, `1 - 2 == -2`.
pub open spec fn add_skipping_zero(num1: int, num2: int) -> int {
    chunk_of_rank(chunk_rank(num1) + num2)
}

/// Consecutive integer that a non-zero chunk coordinate stands for: `-1 -> 0`, `1 -> 1`.
pub open spec fn chunk_rank(c: int) -> int {
    if c > 0 { c } else { c + 1 }
}

/// Inverse of `chunk_rank`.
pub open spec fn chunk_of_rank(r: int) -> int {
    if r > 0 { r } else { r - 1 }
}

/// Absolute block coordinate along one axis.
pub open spec fn axis_abs(c: int, o: int) -> int {
    (chunk_rank(c) - 1) * 32 + o
}

/// One axis of a normalised position: `(chunk, offset)` with the offset in `[0, 32)`.
pub open spec fn normalized_axis(c: int, o: int) -> (int, int) {
    let k = chunk_rank(c) * 32 + o;
    (chunk_of_rank(k / 32), k % 32)
}

pub open spec fn small(v: int) -> bool {
    -0x4000_0000 <= v <= 0x4000_0000
}

/// A position whose components are small enough that normalising cannot overflow.
pub open spec fn pos_bounded(p: Pos) -> bool {
    &&& small(p.chunk_pos.x as int) && small(p.chunk_pos.y as int) && small(p.chunk_pos.z as int)
    &&& small(p.in_chunk_pos.x as int) && small(p.in_chunk_pos.y as int) && small(p.in_chunk_pos.z as int)
}

/// A block position: a chunk coordinate and a block offset inside (or, before
/// normalisation, around) that chunk.
#[derive(Clone, Copy, Debug, PartialEq, Eq, Structural)]
pub struct Pos {
    pub chunk_pos: Vec3i,
    pub in_chunk_pos: Vec3i,
}

/// The position that normalising `p` gives.
pub open spec fn normalized(p: Pos) -> Pos {
    let (cx, ox) = normalized_axis(p.chunk_pos.x as int, p.in_chunk_pos.x as int);
    let (cy, oy) = normalized_axis(p.chunk_pos.y as int, p.in_chunk_pos.y as int);
    let (cz, oz) = normalized_axis(p.chunk_pos.z as int, p.in_chunk_pos.z as int);
    Pos {
        chunk_pos: Vec3i { x: cx as i32, y: cy as i32, z: cz as i32 },
        in_chunk_pos: Vec3i { x: ox as i32, y: oy as i32, z: oz as i32 },
    }
}

pub open spec fn abs_of(p: Pos) -> (int, int, int) {
    (
        axis_abs(p.chunk_pos.x as int, p.in_chunk_pos.x as int),
        axis_abs(p.chunk_pos.y as int, p.in_chunk_pos.y as int),
        axis_abs(p.chunk_pos.z as int, p.in_chunk_pos.z as int),
    )
}

proof fn lemma_normalized_axis(c: int, o: int)
    requires
        c != 0,
        -0x4400_0000 <= c <= 0x4400_0000,
        small(o),
    ensures
        normalized_axis(c, o).0 != 0,
        0 <= normalized_axis(c, o).1 < 32,
        -0x4800_0000 <= normalized_axis(c, o).0 <= 0x4800_0000,
        small(c) ==> -0x4400_0000 <= normalized_axis(c, o).0 <= 0x4400_0000,
        axis_abs(normalized_axis(c, o).0, normalized_axis(c, o).1) == axis_abs(c, o),
        0 <= o < 32 ==> normalized_axis(c, o) == (c, o),
{
    let k = chunk_rank(c) * 32 + o;
    vstd::arithmetic::div_mod::lemma_fundamental_div_mod(k, 32);
    let q = k / 32;
    assert(chunk_rank(chunk_of_rank(q)) == q);
    if 0 <= o < 32 {
        vstd::arithmetic::div_mod::lemma_fundamental_div_mod_converse(k, 32, chunk_rank(c), o);
    }
}

/// Normalising yields an in-chunk offset, a valid chunk coordinate, keeps the absolute
/// position, and normalising again changes nothing.
pub proof fn lemma_normalize_idempotent(p: Pos)
    requires
        valid_chunk_pos(p.chunk_pos),
        pos_bounded(p),
    ensures
        in_chunk(normalized(p).in_chunk_pos),
        valid_chunk_pos(normalized(p).chunk_pos),
        abs_of(normalized(p)) == abs_of(p),
        normalized(normalized(p)) == normalized(p),
{
    lemma_normalized_axis(p.chunk_pos.x as int, p.in_chunk_pos.x as int);
    lemma_normalized_axis(p.chunk_pos.y as int, p.in_chunk_pos.y as int);
    lemma_normalized_axis(p.chunk_pos.z as int, p.in_chunk_pos.z as int);
    let n = normalized(p);
    lemma_normalized_axis(n.chunk_pos.x as int, n.in_chunk_pos.x as int);
    lemma_normalized_axis(n.chunk_pos.y as int, n.in_chunk_pos.y as int);
    lemma_normalized_axis(n.chunk_pos.z as int, n.in_chunk_pos.z as int);
}

/// Incrementing a non-zero chunk coordinate by any delta never gives zero, and a unit
/// step moves the coordinate's rank by exactly that step.
pub proof fn lemma_increment_never_zero(c: int, delta: int)
    requires
        c != 0,
    ensures
        add_skipping_zero(c, delta) != 0,
        chunk_rank(add_skipping_zero(c, delta)) == chunk_rank(c) + delta,
{
}

/// Adds `num2` to a non-zero coordinate, skipping zero.
pub fn add_to_non_zero_i32(num1: i32, num2: i32) -> (r: i32)
    requires
        num1 != 0,
        i32::MIN <= add_skipping_zero(num1 as int, num2 as int) <= i32::MAX,
    ensures
        r as int == add_skipping_zero(num1 as int, num2 as int),
        r != 0,
{
    let sum = num1 as i64 + num2 as i64;
    let result = if num1 > 0 && sum <= 0 {
        sum - 1
    } else if num1 < 0 && sum >= 0 {
        sum + 1
    } else {
        sum
    };
    result as i32
}

/// Component-wise `add_to_non_zero_i32`.
pub fn add_non_zero_i32_vector3(vec1: Vec3i, vec2: Vec3i) -> (r: Vec3i)
    requires
        valid_chunk_pos(vec1),
        i32::MIN <= add_skipping_zero(vec1.x as int, vec2.x as int) <= i32::MAX,
        i32::MIN <= add_skipping_zero(vec1.y as int, vec2.y as int) <= i32::MAX,
        i32::MIN <= add_skipping_zero(vec1.z as int, vec2.z as int) <= i32::MAX,
    ensures
        valid_chunk_pos(r),
        r.x as int == add_skipping_zero(vec1.x as int, vec2.x as int),
        r.y as int == add_skipping_zero(vec1.y as int, vec2.y as int),
        r.z as int == add_skipping_zero(vec1.z as int, vec2.z as int),
{
    Vec3i {
        x: add_to_non_zero_i32(vec1.x, vec2.x),
        y: add_to_non_zero_i32(vec1.y, vec2.y),
        z: add_to_non_zero_i32(vec1.z, vec2.z),
    }
}

/// Moves whole chunk widths from the offset into the chunk coordinate along one axis.
fn normalize_axis(c: i32, o: i32) -> (r: (i32, i32))
    requires
        c != 0,
        small(c as int),
        small(o as int),
    ensures
        r.0 as int == normalized_axis(c as int, o as int).0,
        r.1 as int == normalized_axis(c as int, o as int).1,
{
    let mut chunk = c;
    let mut offset = o;
    let ghost k = chunk_rank(c as int) * 32 + o;
    while offset < 0
        invariant
            chunk != 0,
            k == chunk_rank(c as int) * 32 + o,
            chunk_rank(chunk as int) * 32 + offset == k,
            chunk_rank(c as int) - 0x0200_0002 <= chunk_rank(chunk as int) <= chunk_rank(c as int),
            o <= offset,
            offset < 32 || offset == o,
            small(c as int),
            small(o as int),
        decreases 32 - offset,
    {
        let ghost r0 = chunk_rank(chunk as int);
        offset = offset + 32;
        chunk = add_to_non_zero_i32(chunk, -1);
        assert(chunk_rank(chunk as int) == r0 - 1);
    }
    while offset >= 32
        invariant
            chunk != 0,
            k == chunk_rank(c as int) * 32 + o,
            chunk_rank(chunk as int) * 32 + offset == k,
            chunk_rank(c as int) - 0x0200_0002 <= chunk_rank(chunk as int) <= chunk_rank(c as int) + 0x0200_0002,
            0 <= offset,
            offset <= o || offset < 32,
            small(c as int),
            small(o as int),
        decreases offset,
    {
        let ghost r0 = chunk_rank(chunk as int);
        offset = offset - 32;
        chunk = add_to_non_zero_i32(chunk, 1);
        assert(chunk_rank(chunk as int) == r0 + 1);
    }
    proof {
        vstd::arithmetic::div_mod::lemma_fundamental_div_mod_converse(k, 32, chunk_rank(chunk as int), offset as int);
    }
    (chunk, offset)
}

impl Pos {
    pub fn new(chunk_pos: Vec3i, in_chunk_pos: Vec3i) -> (r: Pos)
        ensures
            r == (Pos { chunk_pos, in_chunk_pos }),
    {
        Pos { chunk_pos, in_chunk_pos }
    }

    /// Normalises the position: the offset is wrapped into `[0, CHUNK_SIZE)` and the
    /// chunk coordinate moved accordingly, skipping zero.
    pub fn check_in_chunk_overflow(&mut self)
        requires
            valid_chunk_pos(old(self).chunk_pos),
            pos_bounded(*old(self)),
        ensures
            *final(self) == normalized(*old(self)),
            in_chunk(final(self).in_chunk_pos),
            valid_chunk_pos(final(self).chunk_pos),
            abs_of(*final(self)) == abs_of(*old(self)),
    {
        proof {
            lemma_normalize_idempotent(*self);
        }
        let (cx, ox) = normalize_axis(self.chunk_pos.x, self.in_chunk_pos.x);
        let (cy, oy) = normalize_axis(self.chunk_pos.y, self.in_chunk_pos.y);
        let (cz, oz) = normalize_axis(self.chunk_pos.z, self.in_chunk_pos.z);
        self.chunk_pos = Vec3i { x: cx, y: cy, z: cz };
        self.in_chunk_pos = Vec3i { x: ox, y: oy, z: oz };
    }

    pub fn chunk_pos(&self) -> (r: Vec3i)
        ensures
            r == self.chunk_pos,
    {
        self.chunk_pos
    }

    pub fn in_chunk_pos_i32(&self) -> (r: Vec3i)
        ensures
            r == self.in_chunk_pos,
    {
        self.in_chunk_pos
    }

    /// Absolute block coordinates of the position.
    pub fn abs_pos(&self) -> (r: (i64, i64, i64))
        requires
            pos_bounded(*self),
        ensures
            (r.0 as int, r.1 as int, r.2 as int) == abs_of(*self),
    {
        let x = (if self.chunk_pos.x > 0 { self.chunk_pos.x as i64 } else { self.chunk_pos.x as i64 + 1 } - 1) * 32
            + self.in_chunk_pos.x as i64;
        let y = (if self.chunk_pos.y > 0 { self.chunk_pos.y as i64 } else { self.chunk_pos.y as i64 + 1 } - 1) * 32
            + self.in_chunk_pos.y as i64;
        let z = (if self.chunk_pos.z > 0 { self.chunk_pos.z as i64 } else { self.chunk_pos.z as i64 + 1 } - 1) * 32
            + self.in_chunk_pos.z as i64;
        (x, y, z)
    }
}

} // verus!
