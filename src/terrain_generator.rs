use vstd::prelude::*;
use crate::index::{Vec3i, cell_of_index, lemma_index_cell_roundtrip};
use crate::block::{Block, BlockBuffer};
use crate::registry::{BlockManager, BlockError};
use crate::pos::{axis_abs, chunk_rank};
use crate::terrain::bounded_chunk_pos;

verus! {

/// Height of the sea surface.
pub const SEA_LEVEL: i64 = 0;

/// Number of layers of dirt (or sand) below the surface block.
pub const LEVELS_OF_DIRT: i64 = 5;

/// The kinds of block the generator places.
#[derive(Clone, Copy, Debug, PartialEq, Eq, Structural)]
pub enum TerrainKind {
    Air,
    Water,
    Sand,
    Grass,
    Dirt,
    Stone,
}

/// What stands at absolute height `y` in a column whose ground lies at `ground`: water up
/// to sea level and air above the ground; the surface block is grass, or sand under the
/// sea; then four more layers of dirt (sand under the sea); stone below.
pub open spec fn kind_at(y: int, ground: int) -> TerrainKind {
    if y > ground {
        if y <= 0 { TerrainKind::Water } else { TerrainKind::Air }
    } else if y == ground {
        if ground < 0 { TerrainKind::Sand } else { TerrainKind::Grass }
    } else if y > ground - 5 {
        if ground < 0 { TerrainKind::Sand } else { TerrainKind::Dirt }
    } else {
        TerrainKind::Stone
    }
}

/// The registry name of each kind.
pub fn kind_name(kind: TerrainKind) -> (r: &'static str) {
    match kind {
        TerrainKind::Air => "Air",
        TerrainKind::Water => "Water",
        TerrainKind::Sand => "Sand",
        TerrainKind::Grass => "Grass",
        TerrainKind::Dirt => "Dirt",
        TerrainKind::Stone => "Stone",
    }
}

/// Fills fresh chunks from a ground height per column.
pub struct TerrainGenerator {
    seed: u32,
    air: Block,
    water: Block,
    sand: Block,
    grass: Block,
    dirt: Block,
    stone: Block,
}

impl TerrainGenerator {
    pub closed spec fn seed_value(&self) -> u32 {
        self.seed
    }

    pub fn seed(&self) -> (r: u32)
        ensures
            r == self.seed_value(),
    {
        self.seed
    }

    /// The block placed for a kind (the registry's template, sunlit when transparent).
    pub closed spec fn block_of(&self, kind: TerrainKind) -> Block {
        match kind {
            TerrainKind::Air => self.air,
            TerrainKind::Water => self.water,
            TerrainKind::Sand => self.sand,
            TerrainKind::Grass => self.grass,
            TerrainKind::Dirt => self.dirt,
            TerrainKind::Stone => self.stone,
        }
    }

    /// A generator for `seed`; fails with `UnknownBlock` when the registry lacks one of
    /// Air, Water, Sand, Grass, Dirt or Stone.
    pub fn new(seed: u32, block_manager: &BlockManager) -> (r: Result<TerrainGenerator, BlockError>)
        requires
            block_manager.wf(),
        ensures
            r matches Ok(g) ==> g.seed_value() == seed,
            r matches Err(e) ==> e == BlockError::UnknownBlock,
    {
        let air = match block_manager.lookup(kind_name(TerrainKind::Air)) {
            Ok(b) => b,
            Err(e) => return Err(e),
        };
        let water = match block_manager.lookup(kind_name(TerrainKind::Water)) {
            Ok(b) => b,
            Err(e) => return Err(e),
        };
        let sand = match block_manager.lookup(kind_name(TerrainKind::Sand)) {
            Ok(b) => b,
            Err(e) => return Err(e),
        };
        let grass = match block_manager.lookup(kind_name(TerrainKind::Grass)) {
            Ok(b) => b,
            Err(e) => return Err(e),
        };
        let dirt = match block_manager.lookup(kind_name(TerrainKind::Dirt)) {
            Ok(b) => b,
            Err(e) => return Err(e),
        };
        let stone = match block_manager.lookup(kind_name(TerrainKind::Stone)) {
            Ok(b) => b,
            Err(e) => return Err(e),
        };
        Ok(TerrainGenerator {
            seed,
            air: sunlit_default(air),
            water: sunlit_default(water),
            sand: sunlit_default(sand),
            grass: sunlit_default(grass),
            dirt: sunlit_default(dirt),
            stone: sunlit_default(stone),
        })
    }

    /// The kind of block at absolute height `abs_y` over ground level `ground_y`.
    pub fn kind_of(abs_y: i64, ground_y: i64) -> (r: TerrainKind)
        requires
            -0x1_0000_0000_0000 < ground_y < 0x1_0000_0000_0000,
        ensures
            r == kind_at(abs_y as int, ground_y as int),
    {
        if abs_y > ground_y {
            if abs_y <= SEA_LEVEL { TerrainKind::Water } else { TerrainKind::Air }
        } else if abs_y == ground_y {
            if ground_y < SEA_LEVEL { TerrainKind::Sand } else { TerrainKind::Grass }
        } else if abs_y > ground_y - LEVELS_OF_DIRT {
            if ground_y < SEA_LEVEL { TerrainKind::Sand } else { TerrainKind::Dirt }
        } else {
            TerrainKind::Stone
        }
    }

    /// The block at absolute height `abs_y` over ground level `ground_y`.
    pub fn generate_block(&self, abs_y: i64, ground_y: i64) -> (r: Block)
        requires
            -0x1_0000_0000_0000 < ground_y < 0x1_0000_0000_0000,
        ensures
            r == self.block_of(kind_at(abs_y as int, ground_y as int)),
    {
        match TerrainGenerator::kind_of(abs_y, ground_y) {
            TerrainKind::Air => self.air,
            TerrainKind::Water => self.water,
            TerrainKind::Sand => self.sand,
            TerrainKind::Grass => self.grass,
            TerrainKind::Dirt => self.dirt,
            TerrainKind::Stone => self.stone,
        }
    }

    /// The blocks of the chunk at `chunk_pos`, given the ground level of each column
    /// (`ground_heights[z * 32 + x]`, absolute heights).
    pub fn generate_blocks(&self, chunk_pos: &Vec3i, ground_heights: &Vec<i32>) -> (r: BlockBuffer)
        requires
            bounded_chunk_pos(*chunk_pos),
            ground_heights@.len() == 1024,
        ensures
            r.wf(),
            forall|i: int| 0 <= i < 32768 ==> #[trigger] r.cells()[i] == self.block_of(kind_at(
                axis_abs(chunk_pos.y as int, cell_of_index(i).y as int),
                ground_heights@[cell_of_index(i).z * 32 + cell_of_index(i).x] as int,
            )),
    {
        let mut blocks: Vec<Block> = Vec::new();
        let base: i64 = (if chunk_pos.y > 0 { chunk_pos.y as i64 } else { chunk_pos.y as i64 + 1 } - 1) * 32;
        let mut i: usize = 0;
        while i < 32768
            invariant
                i <= 32768,
                ground_heights@.len() == 1024,
                bounded_chunk_pos(*chunk_pos),
                base == (chunk_rank(chunk_pos.y as int) - 1) * 32,
                blocks@.len() == i,
                forall|j: int| 0 <= j < i ==> #[trigger] blocks@[j] == self.block_of(kind_at(
                    axis_abs(chunk_pos.y as int, cell_of_index(j).y as int),
                    ground_heights@[cell_of_index(j).z * 32 + cell_of_index(j).x] as int,
                )),
            decreases 32768 - i,
        {
            proof { lemma_index_cell_roundtrip(i as int); }
            let x = i % 32;
            let y = (i / 32) % 32;
            let z = i / 1024;
            let ground = ground_heights[z * 32 + x] as i64;
            let b = self.generate_block(base + y as i64, ground);
            blocks.push(b);
            i = i + 1;
        }
        BlockBuffer::new(blocks)
    }
}

fn sunlit_default(b: Block) -> (r: Block)
    ensures
        r == (Block { sunlit: b.is_transparent, ..b }),
{
    let mut out = b;
    out.sunlit = b.is_transparent;
    out
}

} // verus!
