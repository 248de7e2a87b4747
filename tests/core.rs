use std::sync::Arc;

use rezcraft::block::{Block, BlockBuffer, BlockTexture, TextureID};
use rezcraft::chunk::{coordinate_in_surrounding_buffers, coordinate_in_surrounding_buffers_cube, Chunk};
use rezcraft::face::{FaceDirection, SideDirection};
use rezcraft::index::{
    index_from_pos_2d, index_from_relative_pos_surrounding, index_from_relative_pos_surrounding_cubes, linearize,
    pos_from_index_2d, relative_pos_surrounding_cubes_from_index, relative_pos_surrounding_from_index, Vec2i, Vec3i,
};
use rezcraft::light::{LightBuffer, LightSource, LightVal};
use rezcraft::light_cache::{LightPosCache, LightPosKind};
use rezcraft::mesh::MeshBuffer;
use rezcraft::pos::{add_non_zero_i32_vector3, add_to_non_zero_i32, Pos};

fn air() -> Block {
    Block { texture_id: None, is_transparent: true, is_solid: false, light_source: None, sunlit: false }
}

fn stone() -> Block {
    Block {
        texture_id: Some(BlockTexture::Single(TextureID(7))),
        is_transparent: false,
        is_solid: true,
        light_source: None,
        sunlit: false,
    }
}

fn lamp() -> Block {
    Block {
        texture_id: Some(BlockTexture::Single(TextureID(9))),
        is_transparent: false,
        is_solid: true,
        light_source: Some(LightSource::new(true, true, true, 15)),
        sunlit: false,
    }
}

fn idx(x: i32, y: i32, z: i32) -> usize {
    linearize(&Vec3i::new(x, y, z))
}

fn filled(b: Block) -> Vec<Block> {
    vec![b; 32768]
}

#[test]
fn add_to_non_zero_skips_zero() {
    assert_eq!(add_to_non_zero_i32(-1, 1), 1);
    assert_eq!(add_to_non_zero_i32(1, -1), -1);
    assert_eq!(add_to_non_zero_i32(5, 3), 8);
    assert_eq!(add_to_non_zero_i32(-3, 3), 1);
    assert_eq!(add_to_non_zero_i32(2, -2), -1);
    assert_eq!(add_to_non_zero_i32(-1, 2), 2);
    assert_eq!(add_to_non_zero_i32(3, -5), -3);
    let v = add_non_zero_i32_vector3(Vec3i::new(-1, 1, 4), Vec3i::new(1, -1, 0));
    assert_eq!(v, Vec3i::new(1, -1, 4));
}

#[test]
fn increment_never_yields_zero() {
    for c in [-3, -2, -1, 1, 2, 3] {
        for d in -4..=4 {
            assert_ne!(add_to_non_zero_i32(c, d), 0);
        }
    }
}

#[test]
fn normalize_wraps_offset_into_chunk() {
    let mut p = Pos::new(Vec3i::new(1, 1, 1), Vec3i::new(-1, 33, 70));
    p.check_in_chunk_overflow();
    assert_eq!(p.chunk_pos, Vec3i::new(-1, 2, 3));
    assert_eq!(p.in_chunk_pos, Vec3i::new(31, 1, 6));
    let before = p;
    p.check_in_chunk_overflow();
    assert_eq!(p, before);
    assert_eq!(p.abs_pos(), (-1, 33, 70));
}

#[test]
fn normalize_keeps_absolute_position() {
    let mut p = Pos::new(Vec3i::new(-2, 3, -1), Vec3i::new(-70, 5, 100));
    let abs = p.abs_pos();
    p.check_in_chunk_overflow();
    assert_eq!(p.abs_pos(), abs);
    for c in [p.in_chunk_pos.x, p.in_chunk_pos.y, p.in_chunk_pos.z] {
        assert!((0..32).contains(&c));
    }
    assert!(p.chunk_pos.x != 0 && p.chunk_pos.y != 0 && p.chunk_pos.z != 0);
}

#[test]
fn neighbourhood_indices() {
    for i in 0..7u8 {
        let p = relative_pos_surrounding_from_index(i);
        assert_eq!(index_from_relative_pos_surrounding(&p), i);
    }
    assert_eq!(relative_pos_surrounding_from_index(3), Vec3i::new(-1, 0, 0));
    for i in 0..27u8 {
        let p = relative_pos_surrounding_cubes_from_index(i);
        assert_eq!(index_from_relative_pos_surrounding_cubes(&p), i);
    }
    assert_eq!(index_from_relative_pos_surrounding_cubes(&Vec3i::new(0, 0, 0)), 13);
    assert_eq!(index_from_pos_2d(&Vec2i::new(3, 2)), 67);
    assert_eq!(pos_from_index_2d(67), Vec2i::new(3, 2));
    assert_eq!(linearize(&Vec3i::new(1, 2, 3)), 1 + 64 + 3072);
}

#[test]
fn face_directions() {
    assert_eq!(FaceDirection::from_index(4), Some(FaceDirection::North));
    assert_eq!(FaceDirection::from_index(6), None);
    assert_eq!(FaceDirection::South.as_index(), 5);
    assert_eq!(FaceDirection::from_dir(&Vec3i::new(0, -1, 0)), Some(FaceDirection::Bottom));
    assert_eq!(FaceDirection::from_dir(&Vec3i::new(1, 1, 0)), None);
    assert_eq!(FaceDirection::Bottom.brightness(), 3);
    assert_eq!(FaceDirection::North.brightness(), 2);
    assert_eq!(SideDirection::from(FaceDirection::West), SideDirection::Side);
    assert_eq!(FaceDirection::from(SideDirection::Side), FaceDirection::South);
}

#[test]
fn coordinates_in_surrounding_buffers() {
    let (c, p) = coordinate_in_surrounding_buffers_cube(Vec3i::new(-1, 32, 5));
    assert_eq!(c, Vec3i::new(-1, 1, 0));
    assert_eq!(p, Vec3i::new(31, 0, 5));
    assert_eq!(coordinate_in_surrounding_buffers(Vec3i::new(-1, 32, 5)), None);
    assert_eq!(
        coordinate_in_surrounding_buffers(Vec3i::new(-1, 3, 5)),
        Some((Vec3i::new(-1, 0, 0), Vec3i::new(31, 3, 5)))
    );
}

#[test]
fn light_values() {
    let s = LightSource::new(true, false, true, 12);
    assert!(s.is_valid());
    assert_eq!(s.light_raw(), [12, 0, 12, 0]);
    assert_eq!(LightVal::from(s), LightVal::new(12, 0, 12, 0));
    assert_eq!(LightVal::new(1, 2, 3, 4).light_raw(), [1, 2, 3, 4]);
    assert!(!LightSource { red: false, green: false, blue: false, strength: 3 }.is_valid());
}

#[test]
fn block_buffer_round_trip() {
    let mut blocks = filled(air());
    for i in (0..32768).step_by(7) {
        blocks[i] = stone();
    }
    let buffer = BlockBuffer::new(blocks.clone());
    assert_eq!(buffer.to_flat_array(), blocks);
}

#[test]
fn set_then_get_and_column_flag() {
    let mut buffer = BlockBuffer::new(filled(air()));
    assert!(!buffer.contains_rendered_blocks());
    assert!(!buffer.contains_collum_opaque_blocks(&Vec2i::new(4, 9)));
    buffer.set(&Vec3i::new(4, 20, 9), stone());
    assert_eq!(*buffer.get(&Vec3i::new(4, 20, 9)), stone());
    assert!(buffer.contains_collum_opaque_blocks(&Vec2i::new(4, 9)));
    assert!(!buffer.contains_collum_opaque_blocks(&Vec2i::new(9, 4)));
    assert!(buffer.contains_rendered_blocks());
    buffer.set(&Vec3i::new(4, 20, 9), air());
    assert!(!buffer.contains_collum_opaque_blocks(&Vec2i::new(4, 9)));
}

#[test]
fn sunlight_column() {
    let mut buffer = BlockBuffer::new(filled(air()));
    buffer.update_sunlight_in_collum(&Vec2i::new(3, 3), true);
    for y in 0..32 {
        assert!(buffer.get(&Vec3i::new(3, y, 3)).is_sunlit());
    }
    buffer.set(&Vec3i::new(3, 10, 3), stone());
    buffer.update_sunlight_in_collum(&Vec2i::new(3, 3), true);
    for y in 0..10 {
        assert!(!buffer.get(&Vec3i::new(3, y, 3)).is_sunlit());
    }
    for y in 11..32 {
        assert!(buffer.get(&Vec3i::new(3, y, 3)).is_sunlit());
    }
    assert!(!buffer.get(&Vec3i::new(3, 10, 3)).is_sunlit());
    buffer.update_sunlight_in_collum(&Vec2i::new(3, 3), false);
    assert!(!buffer.get(&Vec3i::new(3, 31, 3)).is_sunlit());
}

fn with_caches(blocks: Vec<Block>) -> BlockBuffer {
    let mut b = BlockBuffer::new(blocks);
    let same = vec![Arc::new(BlockBuffer::new(b.to_flat_array())); 27];
    let light = LightPosCache::new(LightPosKind::Light, &same);
    let sun = LightPosCache::new(LightPosKind::Sunlight, &same);
    b.set_light_source_caches(light, sun);
    b
}

fn sealed_cavity() -> Vec<Block> {
    let mut blocks = filled(stone());
    for x in 10..=12 {
        for y in 10..=12 {
            for z in 10..=12 {
                blocks[idx(x, y, z)] = air();
            }
        }
    }
    blocks[idx(11, 11, 11)] = lamp();
    // the opening and the cell behind it
    blocks[idx(13, 11, 11)] = air();
    blocks[idx(14, 11, 11)] = air();
    // a sealed pocket behind a wall
    blocks[idx(11, 11, 14)] = air();
    blocks
}

#[test]
fn light_decays_through_cavity_and_not_through_walls() {
    let centre = Arc::new(with_caches(sealed_cavity()));
    let outer = Arc::new(with_caches(filled(stone())));
    let mut surrounding = vec![outer; 27];
    surrounding[13] = centre;
    let lights = LightBuffer::new(surrounding).expect("all caches present");
    let at = |x, y, z| *lights.get(&Vec3i::new(x, y, z));
    assert_eq!(at(11, 11, 11).red, 15);
    assert_eq!(at(12, 11, 11), LightVal::new(14, 14, 14, 0));
    assert_eq!(at(12, 12, 11).green, 13);
    assert_eq!(at(12, 12, 12).blue, 12);
    assert_eq!(at(13, 11, 11).red, 13);
    assert_eq!(at(14, 11, 11).red, 12);
    assert_eq!(at(11, 11, 14), LightVal::new(0, 0, 0, 0));
    assert_eq!(at(11, 11, 13), LightVal::new(0, 0, 0, 0));
    assert_eq!(at(20, 20, 20), LightVal::new(0, 0, 0, 0));
}

#[test]
fn light_requires_every_cache() {
    let plain = Arc::new(BlockBuffer::new(filled(stone())));
    assert!(LightBuffer::new(vec![plain; 27]).is_none());
}

#[test]
fn light_source_cache_excludes_enclosed_emitters() {
    let mut blocks = filled(stone());
    blocks[idx(5, 5, 5)] = lamp();
    blocks[idx(20, 20, 20)] = lamp();
    blocks[idx(21, 20, 20)] = air();
    let buffer = Arc::new(BlockBuffer::new(blocks));
    let cache = LightPosCache::new(LightPosKind::Light, &vec![buffer; 27]);
    assert_eq!(cache.cache(), &vec![Vec3i::new(20, 20, 20)]);
}

#[test]
fn stale_mesh_response_is_dropped() {
    let mut chunk = Chunk::new(BlockBuffer::new(filled(air())));
    chunk.set_mesh_requested(true);
    assert!(chunk.mesh_requested());
    let old_state = chunk.state_hash();
    chunk.set_block(&Vec3i::new(1, 2, 3), stone());
    assert_ne!(chunk.state_hash(), old_state);
    assert!(!chunk.mesh_requested());
    assert!(!chunk.receive_mesh(old_state, MeshBuffer::empty(Vec3i::new(1, 1, 1))));
    assert!(chunk.mesh().is_none());
    chunk.set_mesh_requested(true);
    let state = chunk.state_hash();
    assert!(chunk.receive_mesh(state, MeshBuffer::empty(Vec3i::new(1, 1, 1))));
    assert!(chunk.mesh().is_some());
    assert!(chunk.mesh_up_to_date());
}

#[test]
fn cache_updates_follow_a_removed_emitter() {
    let mut blocks = filled(stone());
    blocks[idx(20, 20, 20)] = lamp();
    blocks[idx(21, 20, 20)] = air();
    let mut buffer = with_caches(blocks);
    assert_eq!(buffer.light_sources().as_ref().unwrap().cache(), &vec![Vec3i::new(20, 20, 20)]);
    buffer.set(&Vec3i::new(20, 20, 20), stone());
    let snapshot = vec![Arc::new(BlockBuffer::new(buffer.to_flat_array())); 27];
    buffer.do_cache_updates(&snapshot);
    assert!(buffer.light_sources().as_ref().unwrap().cache().is_empty());
    buffer.set(&Vec3i::new(20, 20, 20), lamp());
    let snapshot = vec![Arc::new(BlockBuffer::new(buffer.to_flat_array())); 27];
    buffer.do_cache_updates(&snapshot);
    assert_eq!(buffer.light_sources().as_ref().unwrap().cache(), &vec![Vec3i::new(20, 20, 20)]);
}

#[test]
fn sunlight_seed_at_shadow_border() {
    let mut blocks = filled(air());
    for i in 0..32768 {
        blocks[i].sunlit = true;
    }
    // a roof over (5, 10, 5) casts shade below it
    blocks[idx(5, 11, 5)] = stone();
    blocks[idx(5, 10, 5)].sunlit = false;
    let buffer = Arc::new(BlockBuffer::new(blocks));
    let cache = LightPosCache::new(LightPosKind::Sunlight, &vec![buffer; 27]);
    let seeds = cache.cache();
    assert!(seeds.contains(&Vec3i::new(4, 10, 5)));
    assert!(seeds.contains(&Vec3i::new(5, 10, 4)));
    // next to the shade but with no opaque block within one step
    assert!(!seeds.contains(&Vec3i::new(5, 9, 5)));
    assert!(!seeds.contains(&Vec3i::new(5, 10, 5)));
    assert!(!seeds.contains(&Vec3i::new(20, 20, 20)));
}

#[test]
fn block_flags_can_be_edited() {
    let mut b = stone();
    *b.is_transparent_mut() = true;
    assert!(b.is_transparent());
    assert!(!b.is_opaque());
    *b.is_solid_mut() = false;
    assert!(!b.is_solid());
    b.set_light_source(Some(LightSource::new(false, true, false, 4)));
    assert_eq!(b.light_source(), Some(LightSource { red: false, green: true, blue: false, strength: 4 }));
    b.set_sunlit(true);
    assert!(b.is_sunlit());
    b.set_texture_id(None);
    assert!(!b.is_rendered());
}
