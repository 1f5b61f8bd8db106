use phage::geom::HexGeom;
use phage::geom::V2;
use phage::terrain::TerrainType;
use phage::world::AreaSpec;
use phage::world::Biome;
use phage::world::FovStatus;

#[test]
fn terrain_names_round_trip() {
    let all = [
        TerrainType::Void,
        TerrainType::Floor,
        TerrainType::Chasm,
        TerrainType::Water,
        TerrainType::Shallows,
        TerrainType::Magma,
        TerrainType::Downstairs,
        TerrainType::Wall,
        TerrainType::Rock,
        TerrainType::Tree,
        TerrainType::Grass,
        TerrainType::Stalagmite,
        TerrainType::Portal,
        TerrainType::Door,
        TerrainType::OpenDoor,
        TerrainType::Window,
        TerrainType::Table,
        TerrainType::Fountain,
        TerrainType::Altar,
        TerrainType::Barrel,
        TerrainType::Grave,
        TerrainType::Stone,
        TerrainType::Menhir,
        TerrainType::DeadTree,
        TerrainType::TallGrass,
    ];
    for t in all {
        assert_eq!(TerrainType::from_name(t.name()), Some(t));
    }
    // The render variant shares its name with the primary grass terrain.
    assert_eq!(TerrainType::Grass2.name(), "grass");
    assert_eq!(TerrainType::from_name("grass"), Some(TerrainType::Grass));
}

#[test]
fn terrain_from_name_unknown() {
    assert_eq!(TerrainType::from_name("lava lamp"), None);
    assert_eq!(TerrainType::from_name(""), None);
    assert_eq!(TerrainType::from_name("Wall"), None);
}

#[test]
fn terrain_rules() {
    assert!(TerrainType::Wall.is_wall());
    assert!(TerrainType::Window.is_wall());
    assert!(!TerrainType::Tree.is_wall());

    assert!(TerrainType::TallGrass.blocks_sight());
    assert!(!TerrainType::Window.blocks_sight());
    assert!(!TerrainType::OpenDoor.blocks_sight());

    assert!(TerrainType::Menhir.blocks_shot());
    assert!(!TerrainType::TallGrass.blocks_shot());

    assert!(!TerrainType::Door.blocks_walk());
    assert!(TerrainType::Water.blocks_walk());
    assert!(TerrainType::Wall.blocks_walk());

    assert!(TerrainType::Downstairs.is_exit());
    assert!(!TerrainType::Portal.is_exit());

    assert!(TerrainType::Floor.valid_spawn_spot());
    assert!(!TerrainType::Downstairs.valid_spawn_spot());
    assert!(!TerrainType::Wall.valid_spawn_spot());

    assert!(TerrainType::Door.is_door());
    assert!(!TerrainType::OpenDoor.is_door());
    assert!(TerrainType::Magma.is_luminous());
    assert!(TerrainType::Chasm.is_hole());
    assert_eq!(TerrainType::Downstairs.name(), "stairs down");
}

#[test]
fn biome_and_area_spec() {
    assert_eq!(Biome::Overland.default_terrain(), TerrainType::Rock);
    assert_eq!(Biome::Anywhere.default_terrain(), TerrainType::Rock);

    let base3 = AreaSpec::new(Biome::Base, 3);
    assert!(AreaSpec::new(Biome::Base, 2).can_hatch_in(&base3));
    assert!(AreaSpec::new(Biome::Anywhere, 0).can_hatch_in(&base3));
    // Too deep for the environment.
    assert!(!AreaSpec::new(Biome::Base, 4).can_hatch_in(&base3));
    // Negative depth marks a thing that never hatches.
    assert!(!AreaSpec::new(Biome::Anywhere, -1).can_hatch_in(&base3));
    // Disjoint biomes.
    assert!(!AreaSpec::new(Biome::Overland, 1).can_hatch_in(&base3));
    // An anywhere environment accepts any biome.
    let anywhere = AreaSpec::new(Biome::Anywhere, 10);
    assert!(AreaSpec::new(Biome::Overland, 1).can_hatch_in(&anywhere));
}

#[test]
fn fov_status_values() {
    assert_ne!(FovStatus::Seen, FovStatus::Remembered);
    assert_eq!(FovStatus::Seen, FovStatus::Seen);
}

#[test]
fn hex_dist_metric() {
    assert_eq!(V2(0, 0).hex_dist(), 0);
    assert_eq!(V2(3, 3).hex_dist(), 3);
    assert_eq!(V2(-2, -5).hex_dist(), 5);
    assert_eq!(V2(3, -2).hex_dist(), 5);
    assert_eq!(V2(-1, 4).hex_dist(), 5);
    assert_eq!(V2(0, -4).hex_dist(), 4);
    assert_eq!(V2(7, 0).hex_dist(), 7);
}
