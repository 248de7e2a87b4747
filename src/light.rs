use vstd::prelude::*;
use std::sync::Arc;
use rle_vec::RleVec;
use crate::index::{Vec3i, in_chunk, linear_index, linearize, abs, cube_offset, relative_pos_surrounding_cubes_from_index,
    lemma_index_cell_roundtrip, cell_of_index};
use crate::face::{FaceDirection, face_of_index, step};
use crate::block::{BlockBuffer, Block, is_opaque, is_sunlit};
use crate::light_cache::{surrounding_wf, rel_block, block_in_surrounding};
use crate::chunk::chunk_offset_of;
use crate::index::cube_index;
use crate::rle::{light_cells, lights_from_vec, light_at, set_light_cell};

verus! {

/// Largest light intensity.
pub const MAX_LIGHT_VAL: u8 = 15;

/// Light emitted by a block: enabled colour channels and a strength.
#[derive(Clone, Copy, Debug, PartialEq, Eq, Hash, Structural)]
pub struct LightSource {
    pub red: bool,
    pub green: bool,
    pub blue: bool,
    pub strength: u8,
}

/// Intensities of the four light channels of a cell.
#[derive(Clone, Copy, Debug, PartialEq, Eq, Hash, Structural)]
pub struct LightVal {
    pub red: u8,
    pub green: u8,
    pub blue: u8,
    pub sun: u8,
}

pub open spec fn channel(on: bool, strength: u8) -> u8 {
    if on { strength } else { 0 }
}

/// The light value that a source radiates on its own faces.
pub open spec fn source_light(s: LightSource) -> LightVal {
    LightVal {
        red: channel(s.red, s.strength),
        green: channel(s.green, s.strength),
        blue: channel(s.blue, s.strength),
        sun: 0,
    }
}

pub open spec fn dark() -> LightVal {
    LightVal { red: 0, green: 0, blue: 0, sun: 0 }
}

impl LightSource {
    pub fn new(red: bool, green: bool, blue: bool, strength: u8) -> (r: LightSource)
        requires
            strength <= MAX_LIGHT_VAL,
            red || green || blue,
        ensures
            r == (LightSource { red, green, blue, strength }),
    {
        LightSource { red, green, blue, strength }
    }

    /// A source is valid when at least one channel is enabled.
    pub fn is_valid(&self) -> (r: bool)
        ensures
            r == (self.red || self.green || self.blue),
    {
        self.red || self.green || self.blue
    }

    /// `[red, green, blue, sun]` radiated by the source.
    pub fn light_raw(&self) -> (r: [u8; 4])
        ensures
            r@ == seq![channel(self.red, self.strength), channel(self.green, self.strength), channel(self.blue, self.strength), 0u8],
    {
        [
            if self.red { self.strength } else { 0 },
            if self.green { self.strength } else { 0 },
            if self.blue { self.strength } else { 0 },
            0,
        ]
    }

    /// The source's light as a cell value.
    pub fn to_light_val(&self) -> (r: LightVal)
        ensures
            r == source_light(*self),
    {
        LightVal::new(
            if self.red { self.strength } else { 0 },
            if self.green { self.strength } else { 0 },
            if self.blue { self.strength } else { 0 },
            0,
        )
    }
}

impl Default for LightSource {
    /// White light at full strength.
    fn default() -> (r: LightSource)
        ensures
            r == (LightSource { red: true, green: true, blue: true, strength: 15 }),
    {
        LightSource::new(true, true, true, MAX_LIGHT_VAL)
    }
}

impl LightVal {
    pub fn new(red: u8, green: u8, blue: u8, sun: u8) -> (r: LightVal)
        ensures
            r == (LightVal { red, green, blue, sun }),
    {
        LightVal { red, green, blue, sun }
    }

    /// `[red, green, blue, sun]`.
    pub fn light_raw(&self) -> (r: [u8; 4])
        ensures
            r@ == seq![self.red, self.green, self.blue, self.sun],
    {
        [self.red, self.green, self.blue, self.sun]
    }
}

impl Default for LightVal {
    fn default() -> (r: LightVal)
        ensures
            r == dark(),
    {
        LightVal::new(0, 0, 0, 0)
    }
}

impl From<LightSource> for LightVal {
    fn from(value: LightSource) -> (r: LightVal) {
        value.to_light_val()
    }
}

impl vstd::std_specs::convert::FromSpecImpl<LightSource> for LightVal {
    open spec fn obeys_from_spec() -> bool {
        true
    }

    open spec fn from_spec(v: LightSource) -> LightVal {
        source_light(v)
    }
}


/// Manhattan distance between two positions.
pub open spec fn dist(a: Vec3i, b: Vec3i) -> int {
    abs(a.x - b.x) + abs(a.y - b.y) + abs(a.z - b.z)
}

pub open spec fn max(a: int, b: int) -> int {
    if a >= b { a } else { b }
}

/// A channel that a spread may raise (to at most `cap`) or, when `on` is false, must keep.
pub open spec fn chan_ok(on: bool, o: u8, n: u8, surr: Seq<Arc<BlockBuffer>>, sun: bool, src: Vec3i, q: Vec3i, strength: int) -> bool {
    if on {
        o <= n && (n == o || (n <= strength && reaches(surr, sun, src, q, (strength - n) as nat)))
    } else {
        n == o
    }
}

/// How a cell may change under one spread from `src`: an enabled channel may only rise,
/// and only to `strength - k` where the light enters the cell within `k` hops; other
/// channels are kept.
pub open spec fn val_ok(o: LightVal, n: LightVal, red: bool, green: bool, blue: bool, sun: bool,
    surr: Seq<Arc<BlockBuffer>>, src: Vec3i, q: Vec3i, strength: int) -> bool {
    chan_ok(red, o.red, n.red, surr, sun, src, q, strength) && chan_ok(green, o.green, n.green, surr, sun, src, q, strength)
        && chan_ok(blue, o.blue, n.blue, surr, sun, src, q, strength) && chan_ok(sun, o.sun, n.sun, surr, sun, src, q, strength)
}

/// Whether a block stops a spread: opaque blocks always, sunlit blocks for sunlight
/// (they already hold full sunlight).
pub open spec fn stops(sunlight: bool, b: Block) -> bool {
    is_opaque(b) || (sunlight && is_sunlit(b))
}

/// What one flood fill from `src` may do to a light grid: every in-chunk cell rises by at
/// most to `strength - dist(src, q)` on the enabled channels, other channels are kept, and
/// cells that stop the light (other than the source itself) are untouched.
pub open spec fn spread_ok(
    old: Seq<LightVal>,
    new: Seq<LightVal>,
    surr: Seq<Arc<BlockBuffer>>,
    src: Vec3i,
    red: bool,
    green: bool,
    blue: bool,
    sun: bool,
    strength: int,
) -> bool {
    &&& new.len() == old.len()
    &&& forall|q: Vec3i| in_chunk(q) ==> val_ok(
        #[trigger] old[linear_index(q)],
        new[linear_index(q)],
        red,
        green,
        blue,
        sun,
        surr, src, q, strength,
    )
    &&& forall|q: Vec3i| in_chunk(q) && q != src && stops(sun, rel_block(surr, q)) ==>
        #[trigger] new[linear_index(q)] == old[linear_index(q)]
}

/// Seeds closer than `MAX_LIGHT_VAL` to the chunk along every axis take part in propagation.
pub open spec fn in_reach(p: Vec3i) -> bool {
    -15 < p.x < 46 && -15 < p.y < 46 && -15 < p.z < 46
}

/// Every channel of every in-chunk cell is at most `MAX_LIGHT_VAL`.
pub open spec fn bounded_light(cells: Seq<LightVal>) -> bool {
    forall|q: Vec3i| in_chunk(q) ==> {
        let v = #[trigger] cells[linear_index(q)];
        v.red <= 15 && v.green <= 15 && v.blue <= 15 && v.sun <= 15
    }
}

/// Every sunlit cell of the centre chunk has full sunlight.
pub open spec fn sun_full(cells: Seq<LightVal>, surr: Seq<Arc<BlockBuffer>>) -> bool {
    forall|q: Vec3i| in_chunk(q) && is_sunlit(rel_block(surr, q)) ==> (#[trigger] cells[linear_index(q)]).sun == 15
}

proof fn lemma_spread_keeps_bounds(
    old: Seq<LightVal>,
    new: Seq<LightVal>,
    surr: Seq<Arc<BlockBuffer>>,
    src: Vec3i,
    red: bool,
    green: bool,
    blue: bool,
    sun: bool,
    strength: int,
)
    requires
        strength <= 15,
        spread_ok(old, new, surr, src, red, green, blue, sun, strength),
        bounded_light(old),
        sun_full(old, surr),
    ensures
        bounded_light(new),
        sun_full(new, surr),
{
    assert forall|q: Vec3i| in_chunk(q) implies {
        let v = #[trigger] new[linear_index(q)];
        v.red <= 15 && v.green <= 15 && v.blue <= 15 && v.sun <= 15
    } by {
        assert(val_ok(old[linear_index(q)], new[linear_index(q)], red, green, blue, sun, surr, src, q, strength));
    }
    assert forall|q: Vec3i| in_chunk(q) && is_sunlit(rel_block(surr, q)) implies (#[trigger] new[linear_index(q)]).sun == 15 by {
        assert(val_ok(old[linear_index(q)], new[linear_index(q)], red, green, blue, sun, surr, src, q, strength));
        assert(old[linear_index(q)].sun == 15);
    }
}

/// Two cells at Manhattan distance one.
pub open spec fn adjacent(a: Vec3i, b: Vec3i) -> bool {
    dist(a, b) == 1
}

/// A chain of face-adjacent cells from `src` whose cells after the first all let light through.
pub open spec fn is_path(surr: Seq<Arc<BlockBuffer>>, sun: bool, src: Vec3i, p: Seq<Vec3i>) -> bool {
    &&& p.len() >= 1
    &&& p[0] == src
    &&& forall|i: int| 0 < i < p.len() ==> adjacent(p[i - 1], #[trigger] p[i]) && !stops(sun, rel_block(surr, p[i]))
}

/// Whether light spreading from `src` enters cell `c` within `k` face-to-face hops, every
/// cell after the source (`c` included) letting it through.
pub open spec fn reaches(surr: Seq<Arc<BlockBuffer>>, sun: bool, src: Vec3i, c: Vec3i, k: nat) -> bool {
    exists|p: Seq<Vec3i>| #[trigger] is_path(surr, sun, src, p) && p.len() <= k + 1 && p.last() == c
}

/// Light from `src` can enter `c` within `k + 1` hops once `c` lets it through.
pub open spec fn near_reach(surr: Seq<Arc<BlockBuffer>>, sun: bool, src: Vec3i, c: Vec3i, k: nat) -> bool {
    exists|n: Vec3i| adjacent(n, c) && #[trigger] reaches(surr, sun, src, n, k)
}

proof fn lemma_reaches_self(surr: Seq<Arc<BlockBuffer>>, sun: bool, src: Vec3i)
    ensures
        reaches(surr, sun, src, src, 0),
{
    let p = seq![src];
    assert(is_path(surr, sun, src, p));
}

proof fn lemma_reaches_step(surr: Seq<Arc<BlockBuffer>>, sun: bool, src: Vec3i, c: Vec3i, k: nat)
    requires
        near_reach(surr, sun, src, c, k),
        !stops(sun, rel_block(surr, c)),
    ensures
        reaches(surr, sun, src, c, k + 1),
{
    let n = choose|n: Vec3i| adjacent(n, c) && #[trigger] reaches(surr, sun, src, n, k);
    let p = choose|p: Seq<Vec3i>| #[trigger] is_path(surr, sun, src, p) && p.len() <= k + 1 && p.last() == n;
    let p2 = p.push(c);
    assert(is_path(surr, sun, src, p2)) by {
        assert forall|i: int| 0 < i < p2.len() implies adjacent(p2[i - 1], #[trigger] p2[i]) && !stops(sun, rel_block(surr, p2[i])) by {
            if i < p.len() {
                assert(p2[i] == p[i] && p2[i - 1] == p[i - 1]);
            } else {
                assert(p2[i - 1] == n);
            }
        }
    }
    assert(p2.last() == c);
}

proof fn lemma_reaches_zero(surr: Seq<Arc<BlockBuffer>>, sun: bool, src: Vec3i, c: Vec3i)
    requires
        reaches(surr, sun, src, c, 0),
    ensures
        c == src,
{
    let p = choose|p: Seq<Vec3i>| #[trigger] is_path(surr, sun, src, p) && p.len() <= 1 && p.last() == c;
}

/// The last hop of a way into `c`.
proof fn lemma_reaches_back(surr: Seq<Arc<BlockBuffer>>, sun: bool, src: Vec3i, c: Vec3i, k: nat)
    requires
        reaches(surr, sun, src, c, k),
        c != src,
    ensures
        k > 0,
        !stops(sun, rel_block(surr, c)),
        exists|n: Vec3i| adjacent(n, c) && #[trigger] reaches(surr, sun, src, n, (k - 1) as nat),
{
    let p = choose|p: Seq<Vec3i>| #[trigger] is_path(surr, sun, src, p) && p.len() <= k + 1 && p.last() == c;
    assert(p.len() >= 2);
    let q = p.drop_last();
    assert(is_path(surr, sun, src, q)) by {
        assert forall|i: int| 0 < i < q.len() implies adjacent(q[i - 1], #[trigger] q[i]) && !stops(sun, rel_block(surr, q[i])) by {
            assert(q[i] == p[i] && q[i - 1] == p[i - 1]);
        }
    }
    let n = q.last();
    assert(p[p.len() - 1] == c);
    assert(adjacent(p[p.len() - 2], p[p.len() - 1]));
    assert(reaches(surr, sun, src, n, (k - 1) as nat));
}

/// The enabled channels of `v` are at least `m`.
pub open spec fn lit_at_least(v: LightVal, red: bool, green: bool, blue: bool, sun: bool, m: int) -> bool {
    (red ==> v.red >= m) && (green ==> v.green >= m) && (blue ==> v.blue >= m) && (sun ==> v.sun >= m)
}

/// The enabled channels did not go down from `a` to `b`.
pub open spec fn raised_from(a: LightVal, b: LightVal, red: bool, green: bool, blue: bool, sun: bool) -> bool {
    (red ==> b.red >= a.red) && (green ==> b.green >= a.green) && (blue ==> b.blue >= a.blue) && (sun ==> b.sun >= a.sun)
}

/// Decay by exactly one per hop: the source holds at least `strength`, and every in-chunk
/// cell that the light enters within `k` hops (`k` below the strength) holds at least
/// `strength - k` on the enabled channels.
pub open spec fn spread_reaches(
    new: Seq<LightVal>,
    surr: Seq<Arc<BlockBuffer>>,
    src: Vec3i,
    red: bool,
    green: bool,
    blue: bool,
    sun: bool,
    strength: int,
) -> bool {
    &&& forall|q: Vec3i, k: nat| in_chunk(q) && q != src && k < strength && #[trigger] reaches(surr, sun, src, q, k)
        ==> lit_at_least(new[linear_index(q)], red, green, blue, sun, strength - k)
    &&& in_chunk(src) ==> lit_at_least(new[linear_index(src)], red, green, blue, sun, strength)
}

pub open spec fn in_box(src: Vec3i, c: Vec3i) -> bool {
    abs(c.x - src.x) <= 14 && abs(c.y - src.y) <= 14 && abs(c.z - src.z) <= 14
}

pub open spec fn box_index(src: Vec3i, c: Vec3i) -> int {
    (c.x - src.x + 14) + 29 * (c.y - src.y + 14) + 841 * (c.z - src.z + 14)
}

/// Whether the flood fill has dealt with `c`: the source, or a cell marked in `processed`.
pub open spec fn handled(processed: Seq<bool>, src: Vec3i, c: Vec3i) -> bool {
    c == src || (in_box(src, c) && processed[box_index(src, c)])
}

pub open spec fn in_frontier(items: Seq<(Vec3i, u8)>, c: Vec3i) -> bool {
    exists|j: int| 0 <= j < items.len() && (#[trigger] items[j]).0 == c
}

proof fn lemma_box_injective(src: Vec3i, a: Vec3i, b: Vec3i)
    requires
        in_box(src, a),
        in_box(src, b),
        box_index(src, a) == box_index(src, b),
    ensures
        a == b,
{
}

proof fn lemma_adjacent_face(a: Vec3i, c: Vec3i)
    requires
        adjacent(a, c),
        -100 < a.x < 100 && -100 < a.y < 100 && -100 < a.z < 100,
    ensures
        exists|j: int| 0 <= j < 6 && c == step(a, face_of_index(j)),
{
    if c.y == a.y + 1 {
        assert(c == step(a, face_of_index(0)));
    } else if c.y == a.y - 1 {
        assert(c == step(a, face_of_index(1)));
    } else if c.x == a.x - 1 {
        assert(c == step(a, face_of_index(2)));
    } else if c.x == a.x + 1 {
        assert(c == step(a, face_of_index(3)));
    } else if c.z == a.z - 1 {
        assert(c == step(a, face_of_index(4)));
    } else {
        assert(c == step(a, face_of_index(5)));
    }
}

/// A cell other than the source that light enters lets light through.
proof fn lemma_reaches_passes(surr: Seq<Arc<BlockBuffer>>, sun: bool, src: Vec3i, c: Vec3i, k: nat)
    requires
        reaches(surr, sun, src, c, k),
        c != src,
    ensures
        !stops(sun, rel_block(surr, c)),
{
    lemma_reaches_back(surr, sun, src, c, k);
}

proof fn lemma_reaches_monotone(surr: Seq<Arc<BlockBuffer>>, sun: bool, src: Vec3i, c: Vec3i, k: nat, k2: nat)
    requires
        reaches(surr, sun, src, c, k),
        k <= k2,
    ensures
        reaches(surr, sun, src, c, k2),
{
    let p = choose|p: Seq<Vec3i>| #[trigger] is_path(surr, sun, src, p) && p.len() <= k + 1 && p.last() == c;
    assert(is_path(surr, sun, src, p) && p.len() <= k2 + 1 && p.last() == c);
}

/// When every cell entered within `t` hops is handled and handling is closed under
/// stepping from a cell that lets light through, every cell entered at all is handled.
proof fn lemma_closure(surr: Seq<Arc<BlockBuffer>>, sun: bool, src: Vec3i, processed: Seq<bool>, t: nat)
    requires
        forall|c: Vec3i| #[trigger] reaches(surr, sun, src, c, t) ==> handled(processed, src, c),
        forall|n: Vec3i, c: Vec3i| #[trigger] handled(processed, src, n) && (n == src || !stops(sun, rel_block(surr, n)))
            && #[trigger] adjacent(n, c) ==> handled(processed, src, c),
    ensures
        forall|c: Vec3i, k: nat| #[trigger] reaches(surr, sun, src, c, k) ==> handled(processed, src, c),
{
    assert forall|c: Vec3i, k: nat| #[trigger] reaches(surr, sun, src, c, k) implies handled(processed, src, c) by {
        lemma_closure_at(surr, sun, src, processed, t, c, k);
    }
}

proof fn lemma_closure_at(surr: Seq<Arc<BlockBuffer>>, sun: bool, src: Vec3i, processed: Seq<bool>, t: nat, c: Vec3i, k: nat)
    requires
        forall|c: Vec3i| #[trigger] reaches(surr, sun, src, c, t) ==> handled(processed, src, c),
        forall|n: Vec3i, c: Vec3i| #[trigger] handled(processed, src, n) && (n == src || !stops(sun, rel_block(surr, n)))
            && #[trigger] adjacent(n, c) ==> handled(processed, src, c),
        reaches(surr, sun, src, c, k),
    ensures
        handled(processed, src, c),
    decreases k,
{
    if k <= t {
        lemma_reaches_monotone(surr, sun, src, c, k, t);
    } else if c != src {
        lemma_reaches_back(surr, sun, src, c, k);
        let n = choose|n: Vec3i| adjacent(n, c) && #[trigger] reaches(surr, sun, src, n, (k - 1) as nat);
        lemma_closure_at(surr, sun, src, processed, t, n, (k - 1) as nat);
        if n != src {
            lemma_reaches_passes(surr, sun, src, n, (k - 1) as nat);
        }
    }
}

/// What holds while one level of the flood fill is being processed: `marks0` and `c0` are the
/// marks and light at the start of the level, `cur` its strength.
pub open spec fn level_ok(
    orig: Seq<LightVal>,
    cells: Seq<LightVal>,
    surr: Seq<Arc<BlockBuffer>>,
    src: Vec3i,
    red: bool,
    green: bool,
    blue: bool,
    sun: bool,
    s: int,
    cur: int,
    marks0: Seq<bool>,
    c0: Seq<LightVal>,
    processed: Seq<bool>,
    next: Seq<(Vec3i, u8)>,
) -> bool {
    &&& cells.len() == 32768
    &&& processed.len() == 24389
    &&& spread_ok(orig, cells, surr, src, red, green, blue, sun, s)
    &&& forall|q: Vec3i| in_chunk(q) ==> #[trigger] raised_from(c0[linear_index(q)], cells[linear_index(q)], red, green, blue, sun)
    &&& forall|c: Vec3i| #[trigger] handled(marks0, src, c) ==> handled(processed, src, c)
    &&& forall|c: Vec3i| #[trigger] handled(processed, src, c) && c != src && !stops(sun, rel_block(surr, c)) && in_chunk(c)
        ==> lit_at_least(cells[linear_index(c)], red, green, blue, sun, cur)
    &&& forall|n: Vec3i, c: Vec3i| #[trigger] handled(processed, src, n) && !handled(marks0, src, n)
        && !stops(sun, rel_block(surr, n)) && #[trigger] adjacent(n, c) && cur > 1 ==> in_frontier(next, c)
    &&& forall|c: Vec3i| #[trigger] handled(processed, src, c) ==> dist(src, c) + cur <= s
    &&& next.len() > 0 ==> cur >= 2
    &&& forall|j: int| 0 <= j < next.len() ==> (#[trigger] next[j]).1 == cur - 1 && next[j].1 + dist(src, next[j].0) <= s
        && near_reach(surr, sun, src, next[j].0, (s - cur) as nat)
}

#[verifier::rlimit(100)]
#[verifier::spinoff_prover]
proof fn lemma_next_level_a(
    orig: Seq<LightVal>,
    cells: Seq<LightVal>,
    surr: Seq<Arc<BlockBuffer>>,
    src: Vec3i,
    red: bool,
    green: bool,
    blue: bool,
    sun: bool,
    s: int,
    cur: int,
    marks0: Seq<bool>,
    c0: Seq<LightVal>,
    processed: Seq<bool>,
    items: Seq<(Vec3i, u8)>,
    next: Seq<(Vec3i, u8)>,
)
    requires
        1 <= cur < s,
        forall|j: int| 0 <= j < items.len() ==> handled(processed, src, (#[trigger] items[j]).0),
        forall|c: Vec3i, k: nat| k + cur < s && #[trigger] reaches(surr, sun, src, c, k) ==> handled(marks0, src, c),
        forall|c: Vec3i| #[trigger] reaches(surr, sun, src, c, (s - cur) as nat) && !handled(marks0, src, c)
            ==> in_frontier(items, c),
        handled(marks0, src, src),
        forall|c: Vec3i| #[trigger] handled(marks0, src, c) ==> handled(processed, src, c),
    ensures
        forall|c: Vec3i, k: nat| k + (cur - 1) < s && #[trigger] reaches(surr, sun, src, c, k) ==> handled(processed, src, c),
{
    let t = s - cur;
    assert forall|c: Vec3i| in_frontier(items, c) implies #[trigger] handled(processed, src, c) by {
        let j = choose|j: int| 0 <= j < items.len() && (#[trigger] items[j]).0 == c;
        assert(handled(processed, src, items[j].0));
    }
    assert forall|c: Vec3i, k: nat| k + (cur - 1) < s && #[trigger] reaches(surr, sun, src, c, k)
        implies handled(processed, src, c) by {
        if k + cur < s {
            assert(handled(marks0, src, c));
        } else {
            assert(k == t);
            assert(reaches(surr, sun, src, c, (s - cur) as nat));
            if !handled(marks0, src, c) {
                assert(in_frontier(items, c));
            }
        }
    }
}

#[verifier::rlimit(100)]
#[verifier::spinoff_prover]
proof fn lemma_next_level_a2(
    orig: Seq<LightVal>,
    cells: Seq<LightVal>,
    surr: Seq<Arc<BlockBuffer>>,
    src: Vec3i,
    red: bool,
    green: bool,
    blue: bool,
    sun: bool,
    s: int,
    cur: int,
    marks0: Seq<bool>,
    c0: Seq<LightVal>,
    processed: Seq<bool>,
    items: Seq<(Vec3i, u8)>,
    next: Seq<(Vec3i, u8)>,
)
    requires
        forall|c: Vec3i, k: nat| k + (cur - 1) < s && #[trigger] reaches(surr, sun, src, c, k) ==> handled(processed, src, c),
        1 <= cur < s,
        level_ok(orig, cells, surr, src, red, green, blue, sun, s, cur, marks0, c0, processed, next),
        forall|j: int| 0 <= j < items.len() ==> handled(processed, src, (#[trigger] items[j]).0),
        forall|c: Vec3i, k: nat| k + cur < s && #[trigger] reaches(surr, sun, src, c, k) ==> handled(marks0, src, c),
        forall|c: Vec3i, k: nat| k + cur < s && #[trigger] reaches(surr, sun, src, c, k) && c != src && in_chunk(c)
            ==> lit_at_least(c0[linear_index(c)], red, green, blue, sun, s - k),
        forall|c: Vec3i| #[trigger] reaches(surr, sun, src, c, (s - cur) as nat) && !handled(marks0, src, c)
            ==> in_frontier(items, c),
        handled(marks0, src, src),
    ensures
        forall|c: Vec3i, k: nat| k + (cur - 1) < s && #[trigger] reaches(surr, sun, src, c, k) && c != src && in_chunk(c)
            ==> lit_at_least(cells[linear_index(c)], red, green, blue, sun, s - k),
{
    assert forall|c: Vec3i, k: nat| k + (cur - 1) < s && #[trigger] reaches(surr, sun, src, c, k) && c != src && in_chunk(c)
        implies lit_at_least(cells[linear_index(c)], red, green, blue, sun, s - k) by {
        if k + cur < s {
            assert(lit_at_least(c0[linear_index(c)], red, green, blue, sun, s - k));
            assert(raised_from(c0[linear_index(c)], cells[linear_index(c)], red, green, blue, sun));
        } else {
            assert(handled(processed, src, c));
            lemma_reaches_passes(surr, sun, src, c, k);
        }
    }
}

#[verifier::rlimit(100)]
#[verifier::spinoff_prover]
proof fn lemma_next_level_b(
    orig: Seq<LightVal>,
    cells: Seq<LightVal>,
    surr: Seq<Arc<BlockBuffer>>,
    src: Vec3i,
    red: bool,
    green: bool,
    blue: bool,
    sun: bool,
    s: int,
    cur: int,
    marks0: Seq<bool>,
    c0: Seq<LightVal>,
    processed: Seq<bool>,
    items: Seq<(Vec3i, u8)>,
    next: Seq<(Vec3i, u8)>,
)
    requires
        1 <= cur < s,
        level_ok(orig, cells, surr, src, red, green, blue, sun, s, cur, marks0, c0, processed, next),
        forall|j: int| 0 <= j < items.len() ==> handled(processed, src, (#[trigger] items[j]).0),
        forall|c: Vec3i, k: nat| k + cur < s && #[trigger] reaches(surr, sun, src, c, k) ==> handled(marks0, src, c),
        forall|c: Vec3i, k: nat| k + cur < s && #[trigger] reaches(surr, sun, src, c, k) && c != src && in_chunk(c)
            ==> lit_at_least(c0[linear_index(c)], red, green, blue, sun, s - k),
        forall|c: Vec3i| #[trigger] reaches(surr, sun, src, c, (s - cur) as nat) && !handled(marks0, src, c)
            ==> in_frontier(items, c),
        forall|n: Vec3i, c: Vec3i| #[trigger] handled(marks0, src, n) && (n == src || !stops(sun, rel_block(surr, n)))
            && #[trigger] adjacent(n, c) ==> handled(marks0, src, c) || in_frontier(items, c),
        handled(marks0, src, src),
        forall|c: Vec3i, k: nat| k + (cur - 1) < s && #[trigger] reaches(surr, sun, src, c, k) ==> handled(processed, src, c),
    ensures
        cur - 1 >= 1 ==> forall|c: Vec3i| #[trigger] reaches(surr, sun, src, c, (s - (cur - 1)) as nat) && !handled(processed, src, c)
            ==> in_frontier(next, c),
        cur - 1 >= 1 ==> forall|n: Vec3i, c: Vec3i| #[trigger] handled(processed, src, n) && (n == src || !stops(sun, rel_block(surr, n)))
            && #[trigger] adjacent(n, c) ==> handled(processed, src, c) || in_frontier(next, c),
{
    let t = s - cur;
    assert forall|c: Vec3i| in_frontier(items, c) implies #[trigger] handled(processed, src, c) by {
        let j = choose|j: int| 0 <= j < items.len() && (#[trigger] items[j]).0 == c;
        assert(handled(processed, src, items[j].0));
    }
    if cur - 1 >= 1 {
        assert forall|n: Vec3i, c: Vec3i| #[trigger] handled(processed, src, n) && (n == src || !stops(sun, rel_block(surr, n)))
            && #[trigger] adjacent(n, c) implies handled(processed, src, c) || in_frontier(next, c) by {
            if handled(marks0, src, n) {
                if !handled(marks0, src, c) {
                    assert(in_frontier(items, c));
                }
            } else {
                assert(n != src);
            }
        }
        assert forall|c: Vec3i| #[trigger] reaches(surr, sun, src, c, (s - (cur - 1)) as nat) && !handled(processed, src, c)
            implies in_frontier(next, c) by {
            assert(c != src);
            lemma_reaches_back(surr, sun, src, c, (s - (cur - 1)) as nat);
            let n = choose|n: Vec3i| adjacent(n, c) && #[trigger] reaches(surr, sun, src, n, t as nat);
            assert(handled(processed, src, n));
            if n != src {
                lemma_reaches_passes(surr, sun, src, n, t as nat);
            }
            assert(handled(processed, src, n) && (n == src || !stops(sun, rel_block(surr, n))) && adjacent(n, c));
        }
    }
}

/// Where a seed at in-chunk position `p` of buffer `c` of a neighbourhood lies relative to
/// the centre chunk.
pub open spec fn seed_origin(c: int, p: Vec3i) -> Vec3i {
    let o = cube_offset(c);
    Vec3i { x: (p.x + o.x * 32) as i32, y: (p.y + o.y * 32) as i32, z: (p.z + o.z * 32) as i32 }
}

/// Number of cached seeds of buffer `c`: sunlight seeds when `pass == 0`, light sources otherwise.
pub open spec fn seed_count(surr: Seq<Arc<BlockBuffer>>, pass: int, c: int) -> int {
    if pass == 0 {
        surr[c].sunlight_cache().unwrap().positions().len() as int
    } else {
        surr[c].light_cache().unwrap().positions().len() as int
    }
}

/// The seed at index `k` of that cache has been spread into `cells` (decay of one per hop
/// from it), when it lies within reach; emitters are spread with their own channels and
/// strength.
pub open spec fn seed_spread(cells: Seq<LightVal>, surr: Seq<Arc<BlockBuffer>>, pass: int, c: int, k: int) -> bool {
    if pass == 0 {
        let p = surr[c].sunlight_cache().unwrap().positions()[k];
        in_reach(seed_origin(c, p)) ==> spread_reaches(cells, surr, seed_origin(c, p), false, false, false, true, 15)
    } else {
        let p = surr[c].light_cache().unwrap().positions()[k];
        match surr[c].block(p).light_source {
            Some(l) => l.strength <= 15 && l.strength > 1 && in_reach(seed_origin(c, p)) ==> spread_reaches(cells, surr,
                seed_origin(c, p), l.red, l.green, l.blue, false, l.strength as int),
            None => true,
        }
    }
}

/// Every seed before `(pass, c, k)` in fill order has been spread into `cells`.
pub open spec fn seeds_spread_upto(cells: Seq<LightVal>, surr: Seq<Arc<BlockBuffer>>, pass: int, c: int, k: int) -> bool {
    forall|pass2: int, c2: int, k2: int| 0 <= pass2 <= 1 && 0 <= c2 < 27 && 0 <= k2 < seed_count(surr, pass2, c2)
        && (pass2 < pass || (pass2 == pass && (c2 < c || (c2 == c && k2 < k)))) ==> #[trigger] seed_spread(cells, surr, pass2, c2, k2)
}

/// Position of seed `k` of buffer `c`'s cache for `pass` (sunlight seeds when 0).
pub open spec fn seed_pos(surr: Seq<Arc<BlockBuffer>>, pass: int, c: int, k: int) -> Vec3i {
    if pass == 0 {
        surr[c].sunlight_cache().unwrap().positions()[k]
    } else {
        surr[c].light_cache().unwrap().positions()[k]
    }
}

/// Channel `ch` of a light value: red, green, blue, sun.
pub open spec fn chan(v: LightVal, ch: int) -> int {
    if ch == 0 { v.red as int } else if ch == 1 { v.green as int } else if ch == 2 { v.blue as int } else { v.sun as int }
}

/// Seed `k` of buffer `c` for `pass` can account for value `v` on channel `ch` at `q`: it is
/// within reach, spreads that channel, and `v` is at most its strength less the distance.
pub open spec fn seed_gives(surr: Seq<Arc<BlockBuffer>>, pass: int, c: int, k: int, ch: int, q: Vec3i, v: int) -> bool {
    let o = seed_origin(c, seed_pos(surr, pass, c, k));
    if pass == 0 {
        ch == 3 && in_reach(o) && v <= 15 && reaches(surr, true, o, q, (15 - v) as nat)
    } else {
        match surr[c].block(seed_pos(surr, pass, c, k)).light_source {
            Some(l) => l.strength <= 15 && l.strength > 1 && in_reach(o)
                && ((ch == 0 && l.red) || (ch == 1 && l.green) || (ch == 2 && l.blue))
                && v <= l.strength && reaches(surr, false, o, q, (l.strength - v) as nat),
            None => false,
        }
    }
}

/// Seed `(pass2, c2, k2)` comes before `(pass, c, k)` in fill order.
pub open spec fn seed_before(pass2: int, c2: int, k2: int, pass: int, c: int, k: int) -> bool {
    pass2 < pass || (pass2 == pass && (c2 < c || (c2 == c && k2 < k)))
}

pub open spec fn is_seed(surr: Seq<Arc<BlockBuffer>>, pass: int, c: int, k: int) -> bool {
    0 <= pass <= 1 && 0 <= c < 27 && 0 <= k < seed_count(surr, pass, c)
}

/// Every lit channel of every in-chunk cell is accounted for by a seed spread before
/// `(pass, c, k)`, or (sun) by the cell being sunlit.
pub open spec fn explained_upto(cells: Seq<LightVal>, surr: Seq<Arc<BlockBuffer>>, pass: int, c: int, k: int) -> bool {
    forall|q: Vec3i, ch: int| in_chunk(q) && 0 <= ch < 4 ==> #[trigger] explained_at(cells, surr, pass, c, k, q, ch)
}

pub open spec fn explained_at(cells: Seq<LightVal>, surr: Seq<Arc<BlockBuffer>>, pass: int, c: int, k: int, q: Vec3i, ch: int) -> bool {
    chan(cells[linear_index(q)], ch) == 0 || (ch == 3 && is_sunlit(rel_block(surr, q)))
        || exists|pass2: int, c2: int, k2: int| is_seed(surr, pass2, c2, k2) && seed_before(pass2, c2, k2, pass, c, k)
            && #[trigger] seed_gives(surr, pass2, c2, k2, ch, q, chan(cells[linear_index(q)], ch))
}

/// No seed of the neighbourhood lies at `q`.
pub open spec fn no_seed_at(surr: Seq<Arc<BlockBuffer>>, q: Vec3i) -> bool {
    forall|pass2: int, c2: int, k2: int| #[trigger] is_seed(surr, pass2, c2, k2) ==> seed_origin(c2, seed_pos(surr, pass2, c2, k2)) != q
}

/// Opaque in-chunk cells that hold no seed are dark.
pub open spec fn opaque_dark(cells: Seq<LightVal>, surr: Seq<Arc<BlockBuffer>>) -> bool {
    forall|q: Vec3i| in_chunk(q) && is_opaque(rel_block(surr, q)) && no_seed_at(surr, q) ==> #[trigger] cells[linear_index(q)] == dark()
}

proof fn lemma_explained_grow(cells: Seq<LightVal>, surr: Seq<Arc<BlockBuffer>>, pass: int, c: int, k: int, pass_n: int, c_n: int, k_n: int)
    requires
        explained_upto(cells, surr, pass, c, k),
        forall|pass2: int, c2: int, k2: int| seed_before(pass2, c2, k2, pass, c, k) ==> seed_before(pass2, c2, k2, pass_n, c_n, k_n),
    ensures
        explained_upto(cells, surr, pass_n, c_n, k_n),
{
    assert forall|q: Vec3i, ch: int| in_chunk(q) && 0 <= ch < 4 implies #[trigger] explained_at(cells, surr, pass_n, c_n, k_n, q, ch) by {
        assert(explained_at(cells, surr, pass, c, k, q, ch));
        let v = chan(cells[linear_index(q)], ch);
        if !(v == 0 || (ch == 3 && is_sunlit(rel_block(surr, q)))) {
            let (pass2, c2, k2) = choose|pass2: int, c2: int, k2: int| is_seed(surr, pass2, c2, k2) && seed_before(pass2, c2, k2, pass, c, k)
                && #[trigger] seed_gives(surr, pass2, c2, k2, ch, q, v);
            assert(seed_before(pass2, c2, k2, pass_n, c_n, k_n));
        }
    }
}

/// One spread from seed `(pass, c, k)` keeps every lit channel accounted for.
proof fn lemma_explained_step(
    old: Seq<LightVal>,
    new: Seq<LightVal>,
    surr: Seq<Arc<BlockBuffer>>,
    pass: int,
    c: int,
    k: int,
    red: bool,
    green: bool,
    blue: bool,
    sun: bool,
    strength: int,
)
    requires
        is_seed(surr, pass, c, k),
        spread_ok(old, new, surr, seed_origin(c, seed_pos(surr, pass, c, k)), red, green, blue, sun, strength),
        explained_upto(old, surr, pass, c, k),
        forall|ch: int, q: Vec3i, v: int| 0 <= ch < 4 && (if ch == 0 { red } else if ch == 1 { green } else if ch == 2 { blue } else { sun })
            && v <= strength && reaches(surr, sun, seed_origin(c, seed_pos(surr, pass, c, k)), q, (strength - v) as nat)
            ==> #[trigger] seed_gives(surr, pass, c, k, ch, q, v),
    ensures
        explained_upto(new, surr, pass, c, k + 1),
{
    let o = seed_origin(c, seed_pos(surr, pass, c, k));
    assert forall|q: Vec3i, ch: int| in_chunk(q) && 0 <= ch < 4 implies #[trigger] explained_at(new, surr, pass, c, k + 1, q, ch) by {
        assert(explained_at(old, surr, pass, c, k, q, ch));
        assert(val_ok(old[linear_index(q)], new[linear_index(q)], red, green, blue, sun, surr, o, q, strength));
        let v = chan(new[linear_index(q)], ch);
        let v0 = chan(old[linear_index(q)], ch);
        if v == v0 {
            if !(v == 0 || (ch == 3 && is_sunlit(rel_block(surr, q)))) {
                let (pass2, c2, k2) = choose|pass2: int, c2: int, k2: int| is_seed(surr, pass2, c2, k2) && seed_before(pass2, c2, k2, pass, c, k)
                    && #[trigger] seed_gives(surr, pass2, c2, k2, ch, q, v0);
                assert(seed_before(pass2, c2, k2, pass, c, k + 1));
            }
        } else {
            assert(seed_gives(surr, pass, c, k, ch, q, v));
            assert(seed_before(pass, c, k, pass, c, k + 1));
        }
    }
}

proof fn lemma_opaque_dark_step(
    old: Seq<LightVal>,
    new: Seq<LightVal>,
    surr: Seq<Arc<BlockBuffer>>,
    pass: int,
    c: int,
    k: int,
    red: bool,
    green: bool,
    blue: bool,
    sun: bool,
    strength: int,
)
    requires
        is_seed(surr, pass, c, k),
        spread_ok(old, new, surr, seed_origin(c, seed_pos(surr, pass, c, k)), red, green, blue, sun, strength),
        opaque_dark(old, surr),
    ensures
        opaque_dark(new, surr),
{
    assert forall|q: Vec3i| in_chunk(q) && is_opaque(rel_block(surr, q)) && no_seed_at(surr, q) implies #[trigger] new[linear_index(q)] == dark() by {
        assert(seed_origin(c, seed_pos(surr, pass, c, k)) != q);
        assert(old[linear_index(q)] == dark());
    }
}

proof fn lemma_reaches_persist(
    old: Seq<LightVal>,
    new: Seq<LightVal>,
    surr: Seq<Arc<BlockBuffer>>,
    src: Vec3i,
    red: bool,
    green: bool,
    blue: bool,
    sun: bool,
    strength: int,
    src2: Vec3i,
    red2: bool,
    green2: bool,
    blue2: bool,
    sun2: bool,
    strength2: int,
)
    requires
        spread_ok(old, new, surr, src, red, green, blue, sun, strength),
        spread_reaches(old, surr, src2, red2, green2, blue2, sun2, strength2),
    ensures
        spread_reaches(new, surr, src2, red2, green2, blue2, sun2, strength2),
{
    assert forall|q: Vec3i, k: nat| in_chunk(q) && q != src2 && k < strength2 && #[trigger] reaches(surr, sun2, src2, q, k)
        implies lit_at_least(new[linear_index(q)], red2, green2, blue2, sun2, strength2 - k) by {
        assert(val_ok(old[linear_index(q)], new[linear_index(q)], red, green, blue, sun, surr, src, q, strength));
    }
    if in_chunk(src2) {
        assert(val_ok(old[linear_index(src2)], new[linear_index(src2)], red, green, blue, sun, surr, src, src2, strength));
    }
}

proof fn lemma_seeds_persist(
    old: Seq<LightVal>,
    new: Seq<LightVal>,
    surr: Seq<Arc<BlockBuffer>>,
    src: Vec3i,
    red: bool,
    green: bool,
    blue: bool,
    sun: bool,
    strength: int,
    pass: int,
    c: int,
    k: int,
)
    requires
        spread_ok(old, new, surr, src, red, green, blue, sun, strength),
        seeds_spread_upto(old, surr, pass, c, k),
    ensures
        seeds_spread_upto(new, surr, pass, c, k),
{
    assert forall|pass2: int, c2: int, k2: int| 0 <= pass2 <= 1 && 0 <= c2 < 27 && 0 <= k2 < seed_count(surr, pass2, c2)
        && (pass2 < pass || (pass2 == pass && (c2 < c || (c2 == c && k2 < k)))) implies #[trigger] seed_spread(new, surr, pass2, c2, k2) by {
        assert(seed_spread(old, surr, pass2, c2, k2));
        if pass2 == 0 {
            let p = surr[c2].sunlight_cache().unwrap().positions()[k2];
            if in_reach(seed_origin(c2, p)) {
                lemma_reaches_persist(old, new, surr, src, red, green, blue, sun, strength, seed_origin(c2, p),
                    false, false, false, true, 15);
            }
        } else {
            let p = surr[c2].light_cache().unwrap().positions()[k2];
            match surr[c2].block(p).light_source {
                Some(l) => {
                    if l.strength <= 15 && l.strength > 1 && in_reach(seed_origin(c2, p)) {
                        lemma_reaches_persist(old, new, surr, src, red, green, blue, sun, strength, seed_origin(c2, p),
                            l.red, l.green, l.blue, false, l.strength as int);
                    }
                },
                None => {},
            }
        }
    }
}

/// Per-chunk light intensities.
pub struct LightBuffer {
    buffer: RleVec<LightVal>,
}

/// Raises the enabled channels of `v` to at least `strength`.
fn raised(v: LightVal, red: bool, green: bool, blue: bool, sun: bool, strength: u8) -> (r: LightVal)
    ensures
        r.red == (if red && strength > v.red { strength } else { v.red }),
        r.green == (if green && strength > v.green { strength } else { v.green }),
        r.blue == (if blue && strength > v.blue { strength } else { v.blue }),
        r.sun == (if sun && strength > v.sun { strength } else { v.sun }),
{
    let mut out = v;
    if red && strength > out.red {
        out.red = strength;
    }
    if green && strength > out.green {
        out.green = strength;
    }
    if blue && strength > out.blue {
        out.blue = strength;
    }
    if sun && strength > out.sun {
        out.sun = strength;
    }
    out
}

fn iabs(v: i32) -> (r: i32)
    requires
        v > i32::MIN,
    ensures
        r as int == abs(v as int),
{
    if v < 0 { -v } else { v }
}

impl LightBuffer {
    /// The light values in linear cell order.
    pub closed spec fn cells(&self) -> Seq<LightVal> {
        light_cells(self.buffer)
    }

    pub open spec fn wf(&self) -> bool {
        self.cells().len() == 32768
    }

    pub open spec fn light(&self, p: Vec3i) -> LightVal {
        self.cells()[linear_index(p)]
    }

    /// A buffer with every cell dark.
    pub fn new_unlit() -> (r: LightBuffer)
        ensures
            r.wf(),
            forall|i: int| 0 <= i < 32768 ==> #[trigger] r.cells()[i] == dark(),
    {
        let mut v: Vec<LightVal> = Vec::new();
        let mut i: usize = 0;
        while i < 32768
            invariant
                i <= 32768,
                v@.len() == i,
                forall|j: int| 0 <= j < i ==> #[trigger] v@[j] == dark(),
            decreases 32768 - i,
        {
            v.push(LightVal::default());
            i = i + 1;
        }
        LightBuffer { buffer: lights_from_vec(v) }
    }

    /// The light value at an in-chunk position.
    pub fn get(&self, index: &Vec3i) -> (r: &LightVal)
        requires
            self.wf(),
            in_chunk(*index),
        ensures
            *r == self.light(*index),
    {
        light_at(&self.buffer, linearize(index))
    }

    /// Replaces the light value at an in-chunk position.
    pub fn set(&mut self, index: &Vec3i, val: LightVal)
        requires
            old(self).wf(),
            in_chunk(*index),
        ensures
            final(self).wf(),
            final(self).cells() == old(self).cells().update(linear_index(*index), val),
    {
        let i = linearize(index);
        set_light_cell(&mut self.buffer, i, val);
    }

    /// Flood fill from `src` (relative to this chunk): the source gets `strength`, every
    /// hop across a face costs one, cells that stop the light are not entered, and every
    /// in-chunk cell keeps the larger of its value and the arriving one per enabled channel.
    fn spread(
        &mut self,
        src: Vec3i,
        red: bool,
        green: bool,
        blue: bool,
        sun: bool,
        strength: u8,
        surrounding_blocks: &Vec<Arc<BlockBuffer>>,
    )
        requires
            old(self).wf(),
            surrounding_wf(surrounding_blocks@),
            1 <= strength <= 15,
            -15 < src.x < 46,
            -15 < src.y < 46,
            -15 < src.z < 46,
        ensures
            final(self).wf(),
            spread_ok(old(self).cells(), final(self).cells(), surrounding_blocks@, src, red, green, blue, sun, strength as int),
            spread_reaches(final(self).cells(), surrounding_blocks@, src, red, green, blue, sun, strength as int),
            in_chunk(src) ==> lit_at_least(final(self).cells()[linear_index(src)], red, green, blue, sun, strength as int),
    {
        let ghost surr = surrounding_blocks@;
        let ghost s = strength as int;
        proof { lemma_reaches_self(surr, sun, src); }
        if 0 <= src.x && src.x < 32 && 0 <= src.y && src.y < 32 && 0 <= src.z && src.z < 32 {
            let v = *self.get(&src);
            let nv = raised(v, red, green, blue, sun, strength);
            self.set(&src, nv);
        }
        proof {
            assert forall|q: Vec3i| in_chunk(q) && q != src implies
                #[trigger] self.cells()[linear_index(q)] == old(self).cells()[linear_index(q)] by {
                if in_chunk(src) && linear_index(q) == linear_index(src) {
                    crate::index::lemma_linear_index_bijective(q);
                    crate::index::lemma_linear_index_bijective(src);
                }
            }
        }
        let mut to_process: Vec<(Vec3i, u8)> = Vec::new();
        let mut cur: u8 = strength - 1;
        if cur >= 1 {
            let mut f: usize = 0;
            while f < 6
                invariant
                    f <= 6,
                    cur == strength - 1,
                    surr == surrounding_blocks@,
                    1 <= strength <= 15,
                    -15 < src.x < 46,
                    -15 < src.y < 46,
                    -15 < src.z < 46,
                    to_process@.len() == f,
                    forall|j: int| 0 <= j < f ==> (#[trigger] to_process@[j]).0 == step(src, face_of_index(j)),
                    forall|j: int| 0 <= j < to_process@.len() ==> (#[trigger] to_process@[j]).1 == cur
                        && to_process@[j].1 + dist(src, to_process@[j].0) <= strength
                        && near_reach(surr, sun, src, to_process@[j].0, (strength - cur - 1) as nat),
                decreases 6 - f,
            {
                let dir = FaceDirection::from_index(f).unwrap().as_dir();
                let nb = Vec3i { x: src.x + dir.x, y: src.y + dir.y, z: src.z + dir.z };
                proof {
                    lemma_reaches_self(surr, sun, src);
                    assert(adjacent(src, nb));
                    assert(near_reach(surr, sun, src, nb, 0));
                }
                to_process.push((nb, cur));
                f = f + 1;
            }
            proof {
                assert forall|c: Vec3i| adjacent(src, c) implies #[trigger] in_frontier(to_process@, c) by {
                    lemma_adjacent_face(src, c);
                    let j = choose|j: int| 0 <= j < 6 && c == step(src, face_of_index(j));
                    assert(to_process@[j].0 == c);
                }
            }
        }
        let mut processed: Vec<bool> = Vec::new();
        let mut b: usize = 0;
        while b < 24389
            invariant
                b <= 24389,
                processed@.len() == b,
                forall|j: int| 0 <= j < b ==> !(#[trigger] processed@[j]),
            decreases 24389 - b,
        {
            processed.push(false);
            b = b + 1;
        }
        proof {
            assert forall|c: Vec3i, k: nat| k + cur < s && #[trigger] reaches(surr, sun, src, c, k)
                implies handled(processed@, src, c) by {
                assert(k == 0);
                lemma_reaches_zero(surr, sun, src, c);
            }
            assert forall|c: Vec3i| #[trigger] handled(processed@, src, c) implies c == src by {
                if c != src {
                    assert(!processed@[box_index(src, c)]);
                }
            }
            if cur >= 1 {
                assert forall|c: Vec3i| #[trigger] reaches(surr, sun, src, c, (s - cur) as nat) && !handled(processed@, src, c)
                    implies in_frontier(to_process@, c) by {
                    assert(c != src);
                    lemma_reaches_back(surr, sun, src, c, 1);
                    let n = choose|n: Vec3i| adjacent(n, c) && #[trigger] reaches(surr, sun, src, n, 0nat);
                    lemma_reaches_zero(surr, sun, src, n);
                    assert(adjacent(src, c));
                }
            }
        }
        while to_process.len() > 0
            invariant
                self.wf(),
                surr == surrounding_blocks@,
                surrounding_wf(surr),
                s == strength as int,
                1 <= strength <= 15,
                -15 < src.x < 46,
                -15 < src.y < 46,
                -15 < src.z < 46,
                processed@.len() == 24389,
                cur < strength,
                to_process@.len() > 0 ==> cur >= 1,
                forall|j: int| 0 <= j < to_process@.len() ==> (#[trigger] to_process@[j]).1 == cur
                    && to_process@[j].1 + dist(src, to_process@[j].0) <= strength
                    && near_reach(surr, sun, src, to_process@[j].0, (strength - cur - 1) as nat),
                spread_ok(old(self).cells(), self.cells(), surr, src, red, green, blue, sun, s),
                in_chunk(src) ==> lit_at_least(self.cells()[linear_index(src)], red, green, blue, sun, s),
                forall|c: Vec3i, k: nat| k + cur < s && #[trigger] reaches(surr, sun, src, c, k) ==> handled(processed@, src, c),
                forall|c: Vec3i, k: nat| k + cur < s && #[trigger] reaches(surr, sun, src, c, k) && c != src && in_chunk(c)
                    ==> lit_at_least(self.cells()[linear_index(c)], red, green, blue, sun, s - k),
                cur >= 1 ==> forall|c: Vec3i| #[trigger] reaches(surr, sun, src, c, (s - cur) as nat) && !handled(processed@, src, c)
                    ==> in_frontier(to_process@, c),
                forall|c: Vec3i| #[trigger] handled(processed@, src, c) && c != src && !stops(sun, rel_block(surr, c)) && in_chunk(c)
                    ==> lit_at_least(self.cells()[linear_index(c)], red, green, blue, sun, cur + 1),
                cur >= 1 ==> forall|n: Vec3i, c: Vec3i| #[trigger] handled(processed@, src, n) && (n == src || !stops(sun, rel_block(surr, n)))
                    && #[trigger] adjacent(n, c) ==> handled(processed@, src, c) || in_frontier(to_process@, c),
                forall|c: Vec3i| #[trigger] handled(processed@, src, c) ==> dist(src, c) + cur + 1 <= s,
            decreases cur,
        {
            let ghost marks0 = processed@;
            let ghost c0 = self.cells();
            let ghost items = to_process@;
            let mut next: Vec<(Vec3i, u8)> = Vec::new();
            let mut k: usize = 0;
            proof {
                assert forall|c: Vec3i| #[trigger] handled(processed@, src, c) && c != src && !stops(sun, rel_block(surr, c)) && in_chunk(c)
                    implies lit_at_least(self.cells()[linear_index(c)], red, green, blue, sun, cur as int) by {
                    assert(lit_at_least(self.cells()[linear_index(c)], red, green, blue, sun, cur + 1));
                }
                assert forall|c: Vec3i| #[trigger] handled(processed@, src, c) implies dist(src, c) + cur <= s by {
                    assert(dist(src, c) + cur + 1 <= s);
                }
                assert forall|q: Vec3i| in_chunk(q) implies #[trigger] raised_from(c0[linear_index(q)], self.cells()[linear_index(q)], red, green, blue, sun) by {
                }
            }
            while k < to_process.len()
                invariant
                    k <= to_process@.len(),
                    to_process@ == items,
                    self.wf(),
                    surr == surrounding_blocks@,
                    surrounding_wf(surr),
                    s == strength as int,
                    1 <= strength <= 15,
                    -15 < src.x < 46,
                    -15 < src.y < 46,
                    -15 < src.z < 46,
                    cur >= 1,
                    cur < strength,
                    marks0.len() == 24389,
                    c0.len() == 32768,
                    forall|j: int| 0 <= j < items.len() ==> (#[trigger] items[j]).1 == cur
                        && items[j].1 + dist(src, items[j].0) <= strength
                        && near_reach(surr, sun, src, items[j].0, (strength - cur - 1) as nat),
                    level_ok(old(self).cells(), self.cells(), surr, src, red, green, blue, sun, s, cur as int, marks0, c0, processed@, next@),
                    forall|j: int| 0 <= j < k ==> handled(processed@, src, (#[trigger] items[j]).0),
                    forall|c: Vec3i| #[trigger] handled(marks0, src, c) ==> dist(src, c) + cur + 1 <= s,
                decreases to_process@.len() - k,
            {
                let (pos, level) = to_process[k];
                let ghost pre = processed@;
                self.visit(src, red, green, blue, sun, strength, surrounding_blocks, pos, level, &mut processed, &mut next,
                    Ghost(old(self).cells()), Ghost(marks0), Ghost(c0));
                proof {
                    assert forall|j: int| 0 <= j < k + 1 implies handled(processed@, src, (#[trigger] items[j]).0) by {
                        if j < k {
                            assert(handled(pre, src, items[j].0));
                        }
                    }
                }
                k = k + 1;
            }
            proof {
                lemma_next_level_a(old(self).cells(), self.cells(), surr, src, red, green, blue, sun, s, cur as int, marks0, c0,
                    processed@, items, next@);
                lemma_next_level_a2(old(self).cells(), self.cells(), surr, src, red, green, blue, sun, s, cur as int, marks0, c0,
                    processed@, items, next@);
                lemma_next_level_b(old(self).cells(), self.cells(), surr, src, red, green, blue, sun, s, cur as int, marks0, c0,
                    processed@, items, next@);
                if in_chunk(src) {
                    assert(raised_from(c0[linear_index(src)], self.cells()[linear_index(src)], red, green, blue, sun));
                }
            }
            to_process = next;
            cur = cur - 1;
        }
        proof {
            if cur >= 1 {
                lemma_closure(surr, sun, src, processed@, (s - cur) as nat);
            }
            assert forall|q: Vec3i, kk: nat| in_chunk(q) && q != src && kk < s && #[trigger] reaches(surr, sun, src, q, kk)
                implies lit_at_least(self.cells()[linear_index(q)], red, green, blue, sun, s - kk) by {
                if kk + cur >= s {
                    assert(handled(processed@, src, q));
                    lemma_reaches_passes(surr, sun, src, q, kk);
                }
            }
        }
    }

    /// Handles one item of the current level of a flood fill (see `spread`).
    #[verifier::rlimit(100)]
    fn visit(
        &mut self,
        src: Vec3i,
        red: bool,
        green: bool,
        blue: bool,
        sun: bool,
        strength: u8,
        surrounding_blocks: &Vec<Arc<BlockBuffer>>,
        pos: Vec3i,
        level: u8,
        processed: &mut Vec<bool>,
        next: &mut Vec<(Vec3i, u8)>,
        Ghost(orig): Ghost<Seq<LightVal>>,
        Ghost(marks0): Ghost<Seq<bool>>,
        Ghost(c0): Ghost<Seq<LightVal>>,
    )
        requires
            old(self).wf(),
            surrounding_wf(surrounding_blocks@),
            1 <= strength <= 15,
            -15 < src.x < 46,
            -15 < src.y < 46,
            -15 < src.z < 46,
            1 <= level < strength,
            level + dist(src, pos) <= strength,
            near_reach(surrounding_blocks@, sun, src, pos, (strength - level - 1) as nat),
            marks0.len() == 24389,
            c0.len() == 32768,
            handled(marks0, src, src),
            forall|c: Vec3i| #[trigger] handled(marks0, src, c) ==> dist(src, c) + level + 1 <= strength,
            level_ok(orig, old(self).cells(), surrounding_blocks@, src, red, green, blue, sun, strength as int, level as int,
                marks0, c0, old(processed)@, old(next)@),
        ensures
            final(self).wf(),
            level_ok(orig, final(self).cells(), surrounding_blocks@, src, red, green, blue, sun, strength as int, level as int,
                marks0, c0, final(processed)@, final(next)@),
            handled(final(processed)@, src, pos),
            forall|c: Vec3i| #[trigger] handled(old(processed)@, src, c) ==> handled(final(processed)@, src, c),
            forall|c: Vec3i| in_frontier(old(next)@, c) ==> #[trigger] in_frontier(final(next)@, c),
    {
        let ghost surr = surrounding_blocks@;
        let ghost s = strength as int;
        let ghost cur = level as int;
        let dx = pos.x - src.x;
        let dy = pos.y - src.y;
        let dz = pos.z - src.z;
        assert(abs(dx as int) <= 14 && abs(dy as int) <= 14 && abs(dz as int) <= 14);
        let bi = ((dx + 14) + 29 * (dy + 14) + 841 * (dz + 14)) as usize;
        assert(bi as int == box_index(src, pos));
        if processed[bi] {
            assert(handled(processed@, src, pos));
            return;
        }
        let ghost pre = processed@;
        let ghost pre_cells = self.cells();
        let ghost pre_next = next@;
        let block = block_in_surrounding(surrounding_blocks, pos);
        let blocked = block.is_opaque() || (sun && block.is_sunlit());
        if !blocked {
            proof {
                assert(block == rel_block(surr, pos));
                lemma_reaches_step(surr, sun, src, pos, (strength - level - 1) as nat);
            }
            if 0 <= pos.x && pos.x < 32 && 0 <= pos.y && pos.y < 32 && 0 <= pos.z && pos.z < 32 {
                let ghost before = self.cells();
                let v = *self.get(&pos);
                let nv = raised(v, red, green, blue, sun, level);
                self.set(&pos, nv);
                proof {
                    assert forall|q: Vec3i| in_chunk(q) && q != pos implies
                        #[trigger] self.cells()[linear_index(q)] == before[linear_index(q)] by {
                        if linear_index(q) == linear_index(pos) {
                            crate::index::lemma_linear_index_bijective(q);
                            crate::index::lemma_linear_index_bijective(pos);
                        }
                    }
                    assert(before[linear_index(pos)] == v);
                    assert(self.cells()[linear_index(pos)] == nv);
                    assert(val_ok(orig[linear_index(pos)], self.cells()[linear_index(pos)],
                        red, green, blue, sun, surr, src, pos, s));
                }
            }
            if level > 1 {
                let mut f: usize = 0;
                while f < 6
                    invariant
                        f <= 6,
                        level > 1,
                        level as int + dist(src, pos) <= strength,
                        1 <= strength <= 15,
                        -15 < src.x < 46,
                        -15 < src.y < 46,
                        -15 < src.z < 46,
                        abs(pos.x - src.x) <= 14,
                        abs(pos.y - src.y) <= 14,
                        abs(pos.z - src.z) <= 14,
                        next@.len() == pre_next.len() + f,
                        forall|j: int| 0 <= j < pre_next.len() ==> next@[j] == pre_next[j],
                        forall|j: int| 0 <= j < f ==> (#[trigger] next@[pre_next.len() + j]).0 == step(pos, face_of_index(j)),
                        forall|j: int| 0 <= j < next@.len() ==> (#[trigger] next@[j]).1 == level - 1
                            && next@[j].1 + dist(src, next@[j].0) <= strength
                            && near_reach(surr, sun, src, next@[j].0, (strength - level) as nat),
                        reaches(surr, sun, src, pos, (strength - level) as nat),
                        surr == surrounding_blocks@,
                    decreases 6 - f,
                {
                    let dir = FaceDirection::from_index(f).unwrap().as_dir();
                    let nb = Vec3i { x: pos.x + dir.x, y: pos.y + dir.y, z: pos.z + dir.z };
                    proof {
                        assert(adjacent(pos, nb));
                        assert(near_reach(surr, sun, src, nb, (strength - level) as nat));
                    }
                    next.push((nb, level - 1));
                    f = f + 1;
                }
                proof {
                    assert forall|c: Vec3i| adjacent(pos, c) implies #[trigger] in_frontier(next@, c) by {
                        lemma_adjacent_face(pos, c);
                        let j = choose|j: int| 0 <= j < 6 && c == step(pos, face_of_index(j));
                        assert(next@[pre_next.len() + j].0 == c);
                    }
                }
            }
        }
        processed.set(bi, true);
        proof {
            assert forall|c: Vec3i| #[trigger] handled(processed@, src, c) == (handled(pre, src, c) || c == pos) by {
                if c != src && in_box(src, c) && box_index(src, c) == box_index(src, pos) {
                    lemma_box_injective(src, c, pos);
                }
            }
            assert forall|c: Vec3i| in_frontier(pre_next, c) implies #[trigger] in_frontier(next@, c) by {
                let j = choose|j: int| 0 <= j < pre_next.len() && (#[trigger] pre_next[j]).0 == c;
                assert(next@[j] == pre_next[j]);
            }
            assert forall|q: Vec3i| in_chunk(q) implies #[trigger] raised_from(c0[linear_index(q)], self.cells()[linear_index(q)], red, green, blue, sun) by {
                assert(raised_from(c0[linear_index(q)], pre_cells[linear_index(q)], red, green, blue, sun));
                assert(raised_from(pre_cells[linear_index(q)], self.cells()[linear_index(q)], red, green, blue, sun));
            }
            assert forall|c: Vec3i| #[trigger] handled(processed@, src, c) && c != src && !stops(sun, rel_block(surr, c)) && in_chunk(c)
                implies lit_at_least(self.cells()[linear_index(c)], red, green, blue, sun, cur) by {
                if c != pos {
                    assert(handled(pre, src, c));
                    assert(lit_at_least(pre_cells[linear_index(c)], red, green, blue, sun, cur));
                    assert(raised_from(pre_cells[linear_index(c)], self.cells()[linear_index(c)], red, green, blue, sun));
                } else {
                    assert(block == rel_block(surr, pos));
                }
            }
            assert forall|n: Vec3i, c: Vec3i| #[trigger] handled(processed@, src, n) && !handled(marks0, src, n)
                && !stops(sun, rel_block(surr, n)) && #[trigger] adjacent(n, c) && cur > 1 implies in_frontier(next@, c) by {
                if n != pos {
                    assert(handled(pre, src, n));
                    assert(in_frontier(pre_next, c));
                } else {
                    assert(block == rel_block(surr, pos));
                }
            }
            assert forall|c: Vec3i| #[trigger] handled(processed@, src, c) implies dist(src, c) + cur <= s by {
                if c != pos {
                    assert(handled(pre, src, c));
                }
            }
        }
    }

    /// Spreads a coloured light source at `source_in_chunk_pos` (relative to this chunk).
    /// Sources more than `MAX_LIGHT_VAL` cells outside the chunk, of strength at most one, or
    /// with no channel, change nothing.
    pub fn spread_light_from_source(
        &mut self,
        source_in_chunk_pos: Vec3i,
        source_red: bool,
        source_green: bool,
        source_blue: bool,
        source_strength: u8,
        surrounding_blocks: &Vec<Arc<BlockBuffer>>,
    )
        requires
            old(self).wf(),
            surrounding_wf(surrounding_blocks@),
            source_strength <= MAX_LIGHT_VAL,
        ensures
            final(self).wf(),
            spread_ok(old(self).cells(), final(self).cells(), surrounding_blocks@, source_in_chunk_pos,
                source_red, source_green, source_blue, false, source_strength as int),
            !(in_reach(source_in_chunk_pos) && source_strength > 1 && (source_red || source_green || source_blue))
                ==> final(self).cells() == old(self).cells(),
            in_reach(source_in_chunk_pos) && source_strength > 1 ==> spread_reaches(final(self).cells(), surrounding_blocks@,
                source_in_chunk_pos, source_red, source_green, source_blue, false, source_strength as int),
            in_reach(source_in_chunk_pos) && source_strength > 1 && in_chunk(source_in_chunk_pos) ==> lit_at_least(
                final(self).cells()[linear_index(source_in_chunk_pos)], source_red, source_green, source_blue, false,
                source_strength as int),
    {
        let p = source_in_chunk_pos;
        if -15 < p.x && p.x < 46 && -15 < p.y && p.y < 46 && -15 < p.z && p.z < 46 {
            if source_strength > 1 && (source_red || source_blue || source_green) {
                self.spread(p, source_red, source_green, source_blue, false, source_strength, surrounding_blocks);
            }
        }
    }

    /// Spreads sunlight from a sunlight seed at `source_in_chunk_pos` (relative to this chunk),
    /// starting at full strength. Seeds more than `MAX_LIGHT_VAL` cells outside the chunk
    /// change nothing.
    pub fn spread_sunlight_from_source(&mut self, source_in_chunk_pos: Vec3i, surrounding_blocks: &Vec<Arc<BlockBuffer>>)
        requires
            old(self).wf(),
            surrounding_wf(surrounding_blocks@),
        ensures
            final(self).wf(),
            spread_ok(old(self).cells(), final(self).cells(), surrounding_blocks@, source_in_chunk_pos,
                false, false, false, true, 15),
            !in_reach(source_in_chunk_pos) ==> final(self).cells() == old(self).cells(),
            in_reach(source_in_chunk_pos) ==> spread_reaches(final(self).cells(), surrounding_blocks@, source_in_chunk_pos,
                false, false, false, true, 15),
    {
        let p = source_in_chunk_pos;
        if -15 < p.x && p.x < 46 && -15 < p.y && p.y < 46 && -15 < p.z && p.z < 46 {
            self.spread(p, false, false, false, true, MAX_LIGHT_VAL, surrounding_blocks);
        }
    }

    /// Gives every sunlit cell of the centre chunk full sunlight and no colour.
    pub fn handle_sunlight(&mut self, surrounding_blocks: &Vec<Arc<BlockBuffer>>)
        requires
            old(self).wf(),
            surrounding_wf(surrounding_blocks@),
        ensures
            final(self).wf(),
            forall|q: Vec3i| in_chunk(q) ==> #[trigger] final(self).cells()[linear_index(q)] == (if is_sunlit(rel_block(surrounding_blocks@, q)) {
                LightVal { red: 0, green: 0, blue: 0, sun: 15 }
            } else {
                old(self).cells()[linear_index(q)]
            }),
    {
        let ghost surr = surrounding_blocks@;
        let mut i: usize = 0;
        while i < 32768
            invariant
                i <= 32768,
                self.wf(),
                surr == surrounding_blocks@,
                surrounding_wf(surr),
                forall|q: Vec3i| in_chunk(q) ==> #[trigger] self.cells()[linear_index(q)] == (if linear_index(q) < i && is_sunlit(rel_block(surr, q)) {
                    LightVal { red: 0, green: 0, blue: 0, sun: 15 }
                } else {
                    old(self).cells()[linear_index(q)]
                }),
            decreases 32768 - i,
        {
            let q = Vec3i { x: (i % 32) as i32, y: ((i / 32) % 32) as i32, z: (i / 1024) as i32 };
            proof {
                lemma_index_cell_roundtrip(i as int);
                assert(q == cell_of_index(i as int));
            }
            let b = block_in_surrounding(surrounding_blocks, q);
            let ghost before = self.cells();
            if b.is_sunlit() {
                self.set(&q, LightVal::new(0, 0, 0, MAX_LIGHT_VAL));
            }
            proof {
                assert forall|q2: Vec3i| in_chunk(q2) implies #[trigger] self.cells()[linear_index(q2)] == (if linear_index(q2) < i + 1 && is_sunlit(rel_block(surr, q2)) {
                    LightVal { red: 0, green: 0, blue: 0, sun: 15 }
                } else {
                    old(self).cells()[linear_index(q2)]
                }) by {
                    crate::index::lemma_linear_index_bijective(q2);
                    assert(before[linear_index(q2)] == (if linear_index(q2) < i && is_sunlit(rel_block(surr, q2)) {
                        LightVal { red: 0, green: 0, blue: 0, sun: 15 }
                    } else {
                        old(self).cells()[linear_index(q2)]
                    }));
                }
            }
            i = i + 1;
        }
        proof {
            assert forall|q: Vec3i| in_chunk(q) implies linear_index(q) < 32768 by {
                crate::index::lemma_linear_index_bijective(q);
            }
        }
    }

    /// Computes the light of the centre chunk of a neighbourhood: full sunlight on sunlit
    /// cells, then a flood fill from every sunlight seed and every light source cached in
    /// the 27 buffers. Absent when any of the 27 buffers lacks its caches.
    pub fn new(surrounding_blocks: Vec<Arc<BlockBuffer>>) -> (r: Option<LightBuffer>)
        requires
            surrounding_wf(surrounding_blocks@),
        ensures
            r is None <==> exists|i: int| 0 <= i < 27 && (#[trigger] surrounding_blocks@[i].light_cache() is None
                || surrounding_blocks@[i].sunlight_cache() is None),
            r matches Some(l) ==> l.wf() && bounded_light(l.cells())
                && sun_full(l.cells(), surrounding_blocks@),
            r matches Some(l) ==> seeds_spread_upto(l.cells(), surrounding_blocks@, 2, 0, 0),
            r matches Some(l) ==> explained_upto(l.cells(), surrounding_blocks@, 2, 0, 0),
            r matches Some(l) ==> opaque_dark(l.cells(), surrounding_blocks@),
    {
        let surr = &surrounding_blocks;
        let mut i: usize = 0;
        while i < 27
            invariant
                i <= 27,
                surr@ == surrounding_blocks@,
                surrounding_wf(surr@),
                forall|j: int| 0 <= j < i ==> !(#[trigger] surr@[j].light_cache() is None || surr@[j].sunlight_cache() is None),
            decreases 27 - i,
        {
            let buffer: &BlockBuffer = &surr[i];
            if buffer.light_sources().is_none() || buffer.sunlight_sources().is_none() {
                return None;
            }
            i = i + 1;
        }
        let mut lights = LightBuffer::new_unlit();
        proof {
            assert forall|q: Vec3i| in_chunk(q) implies #[trigger] lights.cells()[linear_index(q)] == dark() by {
                crate::index::lemma_linear_index_bijective(q);
            }
        }
        let ghost unlit = lights.cells();
        lights.handle_sunlight(surr);
        proof {
            assert forall|q: Vec3i, ch: int| in_chunk(q) && 0 <= ch < 4 implies #[trigger] explained_at(lights.cells(), surr@, 0, 0, 0, q, ch) by {
                assert(unlit[linear_index(q)] == dark());
            }
            assert forall|q: Vec3i| in_chunk(q) && is_opaque(rel_block(surr@, q)) && no_seed_at(surr@, q) implies #[trigger] lights.cells()[linear_index(q)] == dark() by {
                assert(unlit[linear_index(q)] == dark());
            }
        }
        let mut sunlit_pass: usize = 0;
        while sunlit_pass < 2
            invariant
                sunlit_pass <= 2,
                surr@ == surrounding_blocks@,
                surrounding_wf(surr@),
                forall|j: int| 0 <= j < 27 ==> !(#[trigger] surr@[j].light_cache() is None || surr@[j].sunlight_cache() is None),
                lights.wf(),
                bounded_light(lights.cells()),
                sun_full(lights.cells(), surr@),
                seeds_spread_upto(lights.cells(), surr@, sunlit_pass as int, 0, 0),
                explained_upto(lights.cells(), surr@, sunlit_pass as int, 0, 0),
                opaque_dark(lights.cells(), surr@),
            decreases 2 - sunlit_pass,
        {
            let mut c: u8 = 0;
            while c < 27
                invariant
                    c <= 27,
                    sunlit_pass < 2,
                    surr@ == surrounding_blocks@,
                    surrounding_wf(surr@),
                    forall|j: int| 0 <= j < 27 ==> !(#[trigger] surr@[j].light_cache() is None || surr@[j].sunlight_cache() is None),
                    lights.wf(),
                    bounded_light(lights.cells()),
                    sun_full(lights.cells(), surr@),
                    seeds_spread_upto(lights.cells(), surr@, sunlit_pass as int, c as int, 0),
                    explained_upto(lights.cells(), surr@, sunlit_pass as int, c as int, 0),
                    opaque_dark(lights.cells(), surr@),
                decreases 27 - c,
            {
                let off = relative_pos_surrounding_cubes_from_index(c);
                let buffer: &BlockBuffer = &surr[c as usize];
                assert(buffer.wf());
                let cache_opt = if sunlit_pass == 0 { buffer.sunlight_sources() } else { buffer.light_sources() };
                match cache_opt {
                    Some(cache) => {
                        let positions = cache.cache();
                        let mut k: usize = 0;
                        while k < positions.len()
                            invariant
                                k <= positions@.len(),
                                positions@ == cache.positions(),
                                cache.wf(),
                                buffer.wf(),
                                crate::index::is_unit_offset(off),
                                surr@ == surrounding_blocks@,
                                surrounding_wf(surr@),
                                lights.wf(),
                                bounded_light(lights.cells()),
                                sun_full(lights.cells(), surr@),
                                sunlit_pass < 2,
                                c < 27,
                                off == cube_offset(c as int),
                                *buffer == *surr@[c as int],
                                sunlit_pass == 0 ==> Some(*cache) == surr@[c as int].sunlight_cache(),
                                sunlit_pass == 1 ==> Some(*cache) == surr@[c as int].light_cache(),
                                seeds_spread_upto(lights.cells(), surr@, sunlit_pass as int, c as int, k as int),
                                explained_upto(lights.cells(), surr@, sunlit_pass as int, c as int, k as int),
                                opaque_dark(lights.cells(), surr@),
                            decreases positions@.len() - k,
                        {
                            let pos = positions[k];
                            assert(in_chunk(cache.positions()[k as int]));
                            let rel = Vec3i { x: pos.x + off.x * 32, y: pos.y + off.y * 32, z: pos.z + off.z * 32 };
                            let ghost before = lights.cells();
                            assert(rel == seed_origin(c as int, cache.positions()[k as int]));
                            proof {
                                assert(is_seed(surr@, sunlit_pass as int, c as int, k as int));
                                assert(seed_pos(surr@, sunlit_pass as int, c as int, k as int) == pos);
                            }
                            if sunlit_pass == 0 {
                                lights.spread_sunlight_from_source(rel, surr);
                                proof {
                                    lemma_opaque_dark_step(before, lights.cells(), surr@, 0, c as int, k as int, false, false, false, true, 15);
                                    if in_reach(rel) {
                                        lemma_explained_step(before, lights.cells(), surr@, 0, c as int, k as int, false, false, false, true, 15);
                                    } else {
                                        lemma_explained_grow(lights.cells(), surr@, 0, c as int, k as int, 0, c as int, k + 1);
                                    }
                                    lemma_spread_keeps_bounds(before, lights.cells(), surr@, rel, false, false, false, true, 15);
                                    lemma_seeds_persist(before, lights.cells(), surr@, rel, false, false, false, true, 15,
                                        sunlit_pass as int, c as int, k as int);
                                    assert(seed_spread(lights.cells(), surr@, 0, c as int, k as int));
                                }
                            } else {
                                let block = *buffer.get(&pos);
                                match block.light_source {
                                    Some(source) => {
                                        if source.strength > MAX_LIGHT_VAL {
                                            proof { lemma_explained_grow(lights.cells(), surr@, 1, c as int, k as int, 1, c as int, k + 1); }
                                        } else {
                                            lights.spread_light_from_source(rel, source.red, source.green, source.blue,
                                                source.strength, surr);
                                            proof {
                                                assert(surr@[c as int].block(pos).light_source == Some(source));
                                                lemma_opaque_dark_step(before, lights.cells(), surr@, 1, c as int, k as int, source.red,
                                                    source.green, source.blue, false, source.strength as int);
                                                if in_reach(rel) && source.strength > 1 && (source.red || source.green || source.blue) {
                                                    lemma_explained_step(before, lights.cells(), surr@, 1, c as int, k as int, source.red,
                                                        source.green, source.blue, false, source.strength as int);
                                                } else {
                                                    lemma_explained_grow(lights.cells(), surr@, 1, c as int, k as int, 1, c as int, k + 1);
                                                }
                                                lemma_spread_keeps_bounds(before, lights.cells(), surr@, rel, source.red,
                                                    source.green, source.blue, false, source.strength as int);
                                                lemma_seeds_persist(before, lights.cells(), surr@, rel, source.red,
                                                    source.green, source.blue, false, source.strength as int,
                                                    sunlit_pass as int, c as int, k as int);
                                            }
                                        }
                                    },
                                    None => {
                                        proof { lemma_explained_grow(lights.cells(), surr@, 1, c as int, k as int, 1, c as int, k + 1); }
                                    },
                                }
                                assert(seed_spread(lights.cells(), surr@, 1, c as int, k as int));
                            }
                            proof {
                                assert forall|pass2: int, c2: int, k2: int| 0 <= pass2 <= 1 && 0 <= c2 < 27 && 0 <= k2 < seed_count(surr@, pass2, c2)
                                    && (pass2 < sunlit_pass || (pass2 == sunlit_pass && (c2 < c || (c2 == c && k2 < k + 1))))
                                    implies #[trigger] seed_spread(lights.cells(), surr@, pass2, c2, k2) by {
                                    if !(pass2 == sunlit_pass && c2 == c && k2 == k) {
                                        assert(pass2 < sunlit_pass || (pass2 == sunlit_pass && (c2 < c || (c2 == c && k2 < k))));
                                    }
                                }
                            }
                            k = k + 1;
                        }
                        proof {
                            lemma_explained_grow(lights.cells(), surr@, sunlit_pass as int, c as int, positions@.len() as int,
                                sunlit_pass as int, c + 1, 0);
                            assert(seed_count(surr@, sunlit_pass as int, c as int) == positions@.len());
                            assert forall|pass2: int, c2: int, k2: int| 0 <= pass2 <= 1 && 0 <= c2 < 27 && 0 <= k2 < seed_count(surr@, pass2, c2)
                                && (pass2 < sunlit_pass || (pass2 == sunlit_pass && (c2 < c + 1 || (c2 == c + 1 && k2 < 0))))
                                implies #[trigger] seed_spread(lights.cells(), surr@, pass2, c2, k2) by {
                                if pass2 == sunlit_pass && c2 == c {
                                    assert(k2 < positions@.len());
                                }
                            }
                        }
                    },
                    None => {},
                }
                c = c + 1;
            }
            proof {
                lemma_explained_grow(lights.cells(), surr@, sunlit_pass as int, 27, 0, sunlit_pass + 1, 0, 0);
                assert forall|pass2: int, c2: int, k2: int| 0 <= pass2 <= 1 && 0 <= c2 < 27 && 0 <= k2 < seed_count(surr@, pass2, c2)
                    && (pass2 < sunlit_pass + 1 || (pass2 == sunlit_pass + 1 && (c2 < 0 || (c2 == 0 && k2 < 0))))
                    implies #[trigger] seed_spread(lights.cells(), surr@, pass2, c2, k2) by {
                    if pass2 == sunlit_pass {
                        assert(pass2 == sunlit_pass && c2 < 27);
                    }
                }
            }
            sunlit_pass = sunlit_pass + 1;
        }
        Some(lights)
    }
}


/// Two neighbourhoods hold the same blocks, buffer by buffer.
pub open spec fn same_blocks(surr1: Seq<Arc<BlockBuffer>>, surr2: Seq<Arc<BlockBuffer>>) -> bool {
    surr1.len() == 27 && surr2.len() == 27 && forall|i: int| 0 <= i < 27 ==> (#[trigger] surr1[i]).cells() == surr2[i].cells()
}

/// Every seed of `surr1` is also a seed of `surr2`, at the same place.
pub open spec fn seeds_included(surr1: Seq<Arc<BlockBuffer>>, surr2: Seq<Arc<BlockBuffer>>) -> bool {
    forall|pass: int, c: int, k: int| #[trigger] is_seed(surr1, pass, c, k) ==> exists|k2: int| is_seed(surr2, pass, c, k2)
        && #[trigger] seed_pos(surr2, pass, c, k2) == seed_pos(surr1, pass, c, k)
}

proof fn lemma_same_blocks_reaches(surr1: Seq<Arc<BlockBuffer>>, surr2: Seq<Arc<BlockBuffer>>, sun: bool, src: Vec3i, q: Vec3i, k: nat)
    requires
        same_blocks(surr1, surr2),
        reaches(surr1, sun, src, q, k),
    ensures
        reaches(surr2, sun, src, q, k),
{
    assert forall|p: Vec3i| #[trigger] rel_block(surr1, p) == rel_block(surr2, p) by {
        assert(surr1[cube_index(chunk_offset_of(p))].cells() == surr2[cube_index(chunk_offset_of(p))].cells()) by {
            let i = cube_index(chunk_offset_of(p));
            assert(0 <= i < 27);
        }
    }
    let path = choose|path: Seq<Vec3i>| #[trigger] is_path(surr1, sun, src, path) && path.len() <= k + 1 && path.last() == q;
    assert(is_path(surr2, sun, src, path)) by {
        assert forall|i: int| 0 < i < path.len() implies adjacent(path[i - 1], #[trigger] path[i]) && !stops(sun, rel_block(surr2, path[i])) by {
            assert(rel_block(surr1, path[i]) == rel_block(surr2, path[i]));
        }
    }
}

/// Adding light sources never dims a cell: with the same blocks, a fill whose seeds include
/// all seeds of another gives every cell and channel at least the other's value.
pub proof fn lemma_more_sources_never_dim(
    l1: Seq<LightVal>,
    l2: Seq<LightVal>,
    surr1: Seq<Arc<BlockBuffer>>,
    surr2: Seq<Arc<BlockBuffer>>,
    q: Vec3i,
    ch: int,
)
    requires
        same_blocks(surr1, surr2),
        seeds_included(surr1, surr2),
        bounded_light(l1),
        explained_upto(l1, surr1, 2, 0, 0),
        seeds_spread_upto(l2, surr2, 2, 0, 0),
        sun_full(l2, surr2),
        in_chunk(q),
        0 <= ch < 4,
    ensures
        chan(l2[linear_index(q)], ch) >= chan(l1[linear_index(q)], ch),
{
    let v = chan(l1[linear_index(q)], ch);
    assert(explained_at(l1, surr1, 2, 0, 0, q, ch));
    if v == 0 {
    } else if ch == 3 && is_sunlit(rel_block(surr1, q)) {
        assert(rel_block(surr1, q) == rel_block(surr2, q)) by {
            let i = cube_index(chunk_offset_of(q));
            assert(0 <= i < 27);
            assert(surr1[i].cells() == surr2[i].cells());
        }
        assert(l2[linear_index(q)].sun == 15);
    } else {
        let (pass, c, k) = choose|pass: int, c: int, k: int| is_seed(surr1, pass, c, k) && seed_before(pass, c, k, 2, 0, 0)
            && #[trigger] seed_gives(surr1, pass, c, k, ch, q, v);
        let k2 = choose|k2: int| is_seed(surr2, pass, c, k2) && #[trigger] seed_pos(surr2, pass, c, k2) == seed_pos(surr1, pass, c, k);
        assert(seed_spread(l2, surr2, pass, c, k2));
        let p = seed_pos(surr1, pass, c, k);
        let o = seed_origin(c, p);
        assert(surr1[c].cells() == surr2[c].cells());
        assert(surr1[c].block(p) == surr2[c].block(p));
        if pass == 0 {
            lemma_same_blocks_reaches(surr1, surr2, true, o, q, (15 - v) as nat);
        } else {
            let l = surr1[c].block(p).light_source.unwrap();
            lemma_same_blocks_reaches(surr1, surr2, false, o, q, (l.strength - v) as nat);
        }
    }
}

} // verus!
