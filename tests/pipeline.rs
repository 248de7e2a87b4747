use std::sync::Arc;

use rezcraft::block::{Block, BlockBuffer, BlockTexture, TextureID};
use rezcraft::index::Vec3i;
use rezcraft::light::LightBuffer;
use rezcraft::light_cache::{LightPosCache, LightPosKind};
use rezcraft::mesh::{generate_mesh, needs_meshing, MeshBuffer};
use rezcraft::pos::Pos;
use rezcraft::registry::{BlockDescriptor, BlockError, BlockManager};
use rezcraft::terrain::{Request, Response, Terrain};
use rezcraft::terrain_generator::{kind_name, TerrainGenerator, TerrainKind};

fn air() -> Block {
    Block { texture_id: None, is_transparent: true, is_solid: false, light_source: None, sunlit: false }
}

fn stone() -> Block {
    Block {
        texture_id: Some(BlockTexture::Single(TextureID(7))),
        is_transparent: false,
        is_solid: true,
        light_source: None,
        sunlit: false,
    }
}

fn flat_layer() -> Vec<Block> {
    let mut blocks = vec![air(); 32768];
    for x in 0..32 {
        for z in 0..32 {
            blocks[x + 1024 * z] = stone();
        }
    }
    blocks
}

#[test]
fn flat_world_mesh_has_one_top_face_per_column() {
    let layer = Arc::new(BlockBuffer::new(flat_layer()));
    let above = Arc::new(BlockBuffer::new(vec![air(); 32768]));
    let below = Arc::new(BlockBuffer::new(vec![stone(); 32768]));
    // centre, up, down, west, east, north, south
    let blocks = vec![layer.clone(), above, below, layer.clone(), layer.clone(), layer.clone(), layer];
    let dark = Arc::new(LightBuffer::new_unlit());
    let lights = vec![dark; 7];
    assert!(needs_meshing(&blocks));
    let mesh = generate_mesh(Vec3i::new(1, 1, 1), &blocks, &lights, true);
    assert!(!mesh.solid_mesh.vertices.is_empty());
    assert_eq!(mesh.transparent_mesh.vertices.len(), 0);
    assert_eq!(mesh.solid_mesh.indices.len() * 2, mesh.solid_mesh.vertices.len() * 3);
    let mut area = 0;
    for quad in mesh.solid_mesh.vertices.chunks(4) {
        let xs: Vec<i32> = quad.iter().map(|v| v.pos[0] as i32).collect();
        let zs: Vec<i32> = quad.iter().map(|v| v.pos[2] as i32).collect();
        let w = xs.iter().max().unwrap() - xs.iter().min().unwrap();
        let d = zs.iter().max().unwrap() - zs.iter().min().unwrap();
        area += (w * d) as usize;
    }
    assert_eq!(area, 32 * 32);
    for v in &mesh.solid_mesh.vertices {
        assert_eq!(v.pos[1], 1);
        assert_eq!(v.normal, [0, 1, 0, 0]);
        assert_eq!(v.brightness, 0);
        assert_eq!(v.texture, Some(TextureID(7)));
    }
    assert_eq!(mesh.solid_mesh.chunk_pos, Vec3i::new(1, 1, 1));
}

#[test]
fn empty_chunk_needs_no_mesh() {
    let above = Arc::new(BlockBuffer::new(vec![air(); 32768]));
    assert!(!needs_meshing(&vec![above; 7]));
    let mesh = MeshBuffer::empty(Vec3i::new(-1, 2, -3));
    assert_eq!(mesh.solid_mesh.chunk_pos, Vec3i::new(0, 2, -2));
}

fn serve(terrain: &mut Terrain) -> (usize, usize) {
    let mut responses = Vec::new();
    let mut meshes = 0;
    let mut handled = 0;
    for request in terrain.take_requests() {
        handled += 1;
        match request {
            Request::Blocks { pos } => responses.push(Response::Blocks { pos, blocks: BlockBuffer::new(vec![stone(); 32768]) }),
            Request::LightPosCache { pos, surrounding_blocks, for_state } => responses.push(Response::LightPosCache {
                pos,
                light_source_cache: LightPosCache::new(LightPosKind::Light, &surrounding_blocks),
                sunlight_source_cache: LightPosCache::new(LightPosKind::Sunlight, &surrounding_blocks),
                for_state,
            }),
            Request::Lights { pos, surrounding_blocks, for_state } => {
                responses.push(Response::Lights { pos, lights: LightBuffer::new(surrounding_blocks), for_state })
            }
            Request::Mesh { .. } => meshes += 1,
        }
    }
    terrain.update(responses);
    (meshes, handled)
}

#[test]
fn second_mesh_request_is_a_no_op_while_one_is_pending() {
    let mut terrain = Terrain::new(true);
    let centre = Vec3i::new(1, 1, 1);
    let mut meshes = 0;
    for _ in 0..3000 {
        terrain.request_chunk_mesh(&centre);
        let (m, _) = serve(&mut terrain);
        meshes += m;
        if meshes > 0 {
            break;
        }
    }
    assert_eq!(meshes, 1);
    terrain.request_chunk_mesh(&centre);
    terrain.request_chunk_mesh(&centre);
    let (m, handled) = serve(&mut terrain);
    assert_eq!(m, 0);
    assert_eq!(handled, 0);
}

#[test]
fn blocks_are_requested_once() {
    let mut terrain = Terrain::new(false);
    let p = Vec3i::new(2, -1, 3);
    terrain.request_chunk_blocks(&p);
    terrain.request_chunk_blocks(&p);
    let requests = terrain.take_requests();
    assert_eq!(requests.len(), 1);
    assert_eq!(terrain.loading_chunks(), 0);
    terrain.update(vec![Response::Blocks { pos: p, blocks: BlockBuffer::new(vec![stone(); 32768]) }]);
    assert!(terrain.contains_chunk(&p));
    terrain.request_chunk_blocks(&p);
    assert_eq!(terrain.take_requests().len(), 0);
    let pos = Pos::new(p, Vec3i::new(3, 4, 5));
    assert_eq!(terrain.get_block(&pos), Some(stone()));
    assert_eq!(terrain.get_light(&pos), None);
    terrain.set_block(&pos, air());
    let placed = terrain.get_block(&pos).unwrap();
    assert_eq!(placed.texture_id, None);
    assert!(placed.is_transparent);
    let evicted = terrain.purge(&Vec3i::new(100, 100, 100), 2, 2);
    assert_eq!(evicted.len(), 1);
    assert!(!terrain.contains_chunk(&p));
}

fn descriptor(name: &str, textures: &[&str], transparent: bool) -> BlockDescriptor {
    BlockDescriptor {
        name: name.to_string(),
        texture: textures.iter().map(|t| t.to_string()).collect(),
        is_transparent: transparent,
        is_solid: !transparent,
        is_lightsource: false,
    }
}

fn registry() -> BlockManager {
    BlockManager::new(
        vec![
            descriptor("Air", &[], true),
            descriptor("Water", &["water"], true),
            descriptor("Sand", &["sand"], false),
            descriptor("Grass", &["grass_top", "grass_side", "dirt"], false),
            descriptor("Dirt", &["dirt"], false),
            descriptor("Stone", &["stone"], false),
        ],
        vec!["stone".to_string(), "crosshair".to_string()],
    )
    .unwrap()
}

#[test]
fn registry_lists_and_lookups() {
    let m = registry();
    assert_eq!(m.all_block_names().len(), 6);
    assert_eq!(m.all_rendered_block_names().len(), 5);
    assert_eq!(m.all_texture_names().len(), 7);
    assert_eq!(m.all_block_names(), &vec!["Air", "Dirt", "Grass", "Sand", "Stone", "Water"].into_iter().map(String::from).collect::<Vec<_>>());
    assert_eq!(m.all_rendered_block_names(), &vec!["Dirt", "Grass", "Sand", "Stone", "Water"].into_iter().map(String::from).collect::<Vec<_>>());
    let textures = m.all_texture_names().clone();
    let mut sorted = textures.clone();
    sorted.sort();
    assert_eq!(textures, sorted);
    assert_eq!(m.lookup("Lava"), Err(BlockError::UnknownBlock));
    let grass = m.lookup("Grass").unwrap();
    assert!(grass.is_rendered());
    assert!(matches!(grass.texture_id, Some(BlockTexture::Sided(_, _, _))));
    let stone_id = TextureID::from_name("stone");
    assert_eq!(m.get_texture_name(&stone_id), Some(&"stone".to_string()));
    assert_ne!(TextureID::from_name("stone"), TextureID::from_name("dirt"));
    let bad = BlockManager::new(vec![descriptor("Odd", &["a", "b"], false)], vec![]);
    assert!(matches!(bad, Err(BlockError::InvalidTextureCount)));
    let water = Block::new_with_default("Water", &m);
    assert!(water.is_sunlit());
}

#[test]
fn generator_layers() {
    let m = registry();
    let g = TerrainGenerator::new(42, &m).unwrap();
    assert_eq!(TerrainGenerator::kind_of(3, 0), TerrainKind::Air);
    assert_eq!(TerrainGenerator::kind_of(-3, -5), TerrainKind::Water);
    assert_eq!(TerrainGenerator::kind_of(0, 0), TerrainKind::Grass);
    assert_eq!(TerrainGenerator::kind_of(-5, -5), TerrainKind::Sand);
    assert_eq!(TerrainGenerator::kind_of(-4, 0), TerrainKind::Dirt);
    assert_eq!(TerrainGenerator::kind_of(-5, 0), TerrainKind::Stone);
    assert_eq!(kind_name(TerrainKind::Stone), "Stone");
    let heights = vec![0; 1024];
    let above = g.generate_blocks(&Vec3i::new(1, 1, 1), &heights);
    assert_eq!(above.get(&Vec3i::new(0, 0, 0)).texture_id, Some(BlockTexture::Sided(
        TextureID::from_name("grass_top"),
        TextureID::from_name("grass_side"),
        TextureID::from_name("dirt"),
    )));
    assert_eq!(above.get(&Vec3i::new(0, 1, 0)).texture_id, None);
    let below = g.generate_blocks(&Vec3i::new(1, -1, 1), &heights);
    assert_eq!(below.get(&Vec3i::new(5, 31, 5)).texture_id, Some(BlockTexture::Single(TextureID::from_name("dirt"))));
    assert_eq!(below.get(&Vec3i::new(5, 0, 5)).texture_id, Some(BlockTexture::Single(TextureID::from_name("stone"))));
    assert_eq!(g.seed(), 42);
}
