use covey_of_worlds::canvas::Rgba;
use covey_of_worlds::entity::{EntityAsset, EntityAssetError};
use covey_of_worlds::layer::{LayerAsset, LayerAssetError, LayerType};
use covey_of_worlds::ldtk;
use covey_of_worlds::level::{LevelAsset, LevelAssetError, NeighbourDirection, NeighbourError};
use covey_of_worlds::loader::{build_layer, build_level, ExternalLevel, ProjectAssetLoaderError};
use covey_of_worlds::project::ProjectSettings;
use covey_of_worlds::project_asset_loader::{build_project, external_level_paths};
use covey_of_worlds::traits::LdtkAsset;
use covey_of_worlds::util::{AnchorIntoError, ColorParseError};

fn tile(px: (i64, i64), src: (i64, i64), f: i64) -> ldtk::TileInstance {
    ldtk::TileInstance { f, px, src, t: 7 }
}

fn entity(iid: &str) -> ldtk::EntityInstance {
    ldtk::EntityInstance {
        grid: (1, 2),
        identifier: format!("Entity_{iid}"),
        pivot: vec![500, 1000],
        smart_color: "#ff8000".to_string(),
        tags: vec!["npc".to_string()],
        tile: Some(ldtk::TilesetRectangle { h: 16, tileset_uid: 3, w: 8, x: 32, y: 48 }),
        world_x: None,
        world_y: None,
        def_uid: 11,
        field_instances: vec![],
        height: 16,
        iid: iid.to_string(),
        px: (24, 40),
        width: 8,
    }
}

fn layer(iid: &str, kind: &str) -> ldtk::LayerInstance {
    ldtk::LayerInstance {
        c_hei: 4,
        c_wid: 6,
        grid_size: 16,
        identifier: format!("Layer_{iid}"),
        opacity: 1000,
        px_total_offset_x: 3,
        px_total_offset_y: 5,
        tileset_def_uid: None,
        tileset_rel_path: None,
        layer_instance_type: kind.to_string(),
        auto_layer_tiles: vec![],
        entity_instances: vec![],
        grid_tiles: vec![],
        iid: iid.to_string(),
        int_grid_csv: vec![0, 1, 0],
        layer_def_uid: 21,
        level_id: 31,
        override_tileset_uid: None,
        px_offset_x: 1,
        px_offset_y: 2,
        visible: true,
    }
}

fn level(iid: &str, layers: Option<Vec<ldtk::LayerInstance>>) -> ldtk::Level {
    ldtk::Level {
        bg_color: "#102030".to_string(),
        bg_pos: None,
        neighbours: vec![],
        bg_rel_path: None,
        external_rel_path: None,
        field_instances: vec![],
        identifier: format!("Level_{iid}"),
        iid: iid.to_string(),
        layer_instances: layers,
        px_hei: 64,
        px_wid: 96,
        uid: 1,
        world_depth: 2,
        world_x: 100,
        world_y: 200,
    }
}

fn defs() -> ldtk::Definitions {
    ldtk::Definitions { entities: vec![], enums: vec![], layers: vec![], tilesets: vec![] }
}

fn project(levels: Vec<ldtk::Level>, worlds: Vec<ldtk::World>) -> ldtk::LdtkJson {
    ldtk::LdtkJson {
        bg_color: "#000000".to_string(),
        defs: defs(),
        external_levels: false,
        iid: "project".to_string(),
        json_version: "1.5.3".to_string(),
        levels,
        worlds,
        default_level_height: Some(256),
        default_level_width: Some(256),
        world_grid_height: Some(16),
        world_grid_width: Some(16),
        world_layout: Some(ldtk::WorldLayout::GridVania),
    }
}

fn world(iid: &str, levels: Vec<ldtk::Level>) -> ldtk::World {
    ldtk::World {
        default_level_height: 256,
        default_level_width: 256,
        identifier: format!("World_{iid}"),
        iid: iid.to_string(),
        levels,
        world_grid_height: 8,
        world_grid_width: 9,
        world_layout: None,
    }
}

fn settings() -> ProjectSettings {
    ProjectSettings::default()
}

#[test]
fn default_settings() {
    let s = ProjectSettings::default();
    assert_eq!(s.level_separation, 10_000);
    assert_eq!(s.layer_separation, 100);
}

#[test]
fn layer_type_names() {
    assert_eq!(LayerType::new("IntGrid"), Ok(LayerType::IntGrid));
    assert_eq!(LayerType::new("Entities"), Ok(LayerType::Entities));
    assert_eq!(LayerType::new("Tiles"), Ok(LayerType::Tiles));
    assert_eq!(LayerType::new("AutoLayer"), Ok(LayerType::Autolayer));
    assert_eq!(
        LayerType::new("Autolayer"),
        Err(LayerAssetError::UnknownLayerType("Autolayer".to_string()))
    );
    assert_eq!(LayerType::new(""), Err(LayerAssetError::UnknownLayerType(String::new())));
}

#[test]
fn entity_is_read_with_its_y_turned_upwards() {
    let e = EntityAsset::new(&entity("e1"), "project".to_string()).unwrap();
    assert_eq!(e.iid, "e1");
    assert_eq!(e.iid(), "e1");
    assert_eq!(e.identifier, "Entity_e1");
    assert_eq!(e.grid, (1, 2));
    assert_eq!(e.location, (24, -40, 0));
    assert_eq!(e.size, (8, 16));
    assert_eq!((e.anchor.x, e.anchor.y), (0, -500));
    assert_eq!(e.smart_color, Rgba { r: 255, g: 128, b: 0, a: 255 });
    assert_eq!(e.tags, vec!["npc".to_string()]);
    let tile = e.tile.unwrap();
    assert_eq!(tile.location, (32, 48));
    assert_eq!(tile.size, (8, 16));
    assert_eq!(tile.tileset_uid, 3);
    assert_eq!(e.world_location, None);
    assert_eq!(e.def_uid, 11);
    assert_eq!(e.project_iid, "project");
}

#[test]
fn entity_world_coordinates_come_together() {
    let mut raw = entity("e1");
    raw.world_x = Some(5);
    raw.world_y = Some(-6);
    assert_eq!(
        EntityAsset::new(&raw, "p".to_string()).unwrap().world_location,
        Some((5, -6))
    );
    raw.world_y = None;
    assert_eq!(
        EntityAsset::new(&raw, "p".to_string()).err(),
        Some(EntityAssetError::WorldCoordMixedOption)
    );
    raw.world_x = None;
    raw.world_y = Some(1);
    assert_eq!(
        EntityAsset::new(&raw, "p".to_string()).err(),
        Some(EntityAssetError::WorldCoordMixedOption)
    );
}

#[test]
fn entity_faults_in_order() {
    let mut raw = entity("e1");
    raw.pivot = vec![500];
    raw.smart_color = "red".to_string();
    raw.world_x = Some(1);
    raw.px = (0, i64::MIN);
    assert_eq!(
        EntityAsset::new(&raw, "p".to_string()).err(),
        Some(EntityAssetError::AnchorIntoError(AnchorIntoError::NotAPair))
    );
    raw.pivot = vec![500, 1001];
    assert_eq!(
        EntityAsset::new(&raw, "p".to_string()).err(),
        Some(EntityAssetError::AnchorIntoError(AnchorIntoError::OutOfRange))
    );
    raw.pivot = vec![0, 0];
    assert_eq!(
        EntityAsset::new(&raw, "p".to_string()).err(),
        Some(EntityAssetError::ColorParseError(ColorParseError::BadLength))
    );
    raw.smart_color = "#00ff00".to_string();
    assert_eq!(
        EntityAsset::new(&raw, "p".to_string()).err(),
        Some(EntityAssetError::WorldCoordMixedOption)
    );
    raw.world_x = None;
    assert_eq!(
        EntityAsset::new(&raw, "p".to_string()).err(),
        Some(EntityAssetError::OutOfRange)
    );
    raw.px = (0, i64::MAX);
    let e = EntityAsset::new(&raw, "p".to_string()).unwrap();
    assert_eq!(e.location, (0, -i64::MAX, 0));
    assert_eq!((e.anchor.x, e.anchor.y), (-500, 500));
}

#[test]
fn layer_node_depth_and_offsets() {
    let raw = layer("l1", "Tiles");
    let l = LayerAsset::new(&raw, 3, LayerType::Tiles, vec![], vec![], 100, "p".to_string())
        .unwrap();
    assert_eq!(l.location, (1, -2, 500));
    assert_eq!(l.px_total_offset, (3, -5));
    assert_eq!(l.grid_size, (6, 4));
    assert_eq!(l.grid_cell_size, 16);
    assert_eq!(l.index, 3);
    assert_eq!(l.iid(), "l1");
    assert_eq!(l.int_grid_csv, vec![0, 1, 0]);
    assert!(l.children().is_empty());
    let l = LayerAsset::new(&raw, 0, LayerType::Tiles, vec![], vec![], -7, "p".to_string())
        .unwrap();
    assert_eq!(l.location.2, -14);
    assert_eq!(
        LayerAsset::new(&raw, 0, LayerType::Tiles, vec![], vec![], i64::MAX, "p".to_string())
            .err(),
        Some(LayerAssetError::OutOfRange)
    );
    assert_eq!(
        LayerAsset::new(&raw, usize::MAX, LayerType::Tiles, vec![], vec![], 1, "p".to_string())
            .err(),
        Some(LayerAssetError::OutOfRange)
    );
    assert_eq!(
        LayerAsset::new(&raw, usize::MAX, LayerType::Tiles, vec![], vec![], 0, "p".to_string())
            .unwrap()
            .location
            .2,
        0
    );
    let mut low = layer("l1", "Tiles");
    low.px_offset_y = i64::MIN;
    assert_eq!(
        LayerAsset::new(&low, 0, LayerType::Tiles, vec![], vec![], 1, "p".to_string()).err(),
        Some(LayerAssetError::OutOfRange)
    );
}

#[test]
fn layer_with_tiles_and_entities_is_refused_for_every_kind() {
    for kind in ["IntGrid", "AutoLayer", "Tiles", "Entities"] {
        for (auto, grid) in [(true, false), (false, true), (true, true)] {
            let mut raw = layer("l", kind);
            if auto {
                raw.auto_layer_tiles.push(tile((0, 0), (0, 0), 0));
            }
            if grid {
                raw.grid_tiles.push(tile((0, 0), (0, 0), 0));
            }
            raw.entity_instances.push(entity("e"));
            let want = match kind {
                "Entities" => ProjectAssetLoaderError::EntityLayerWithTiles,
                "Tiles" => ProjectAssetLoaderError::TilesWithAutoLayerOrEntities,
                _ => ProjectAssetLoaderError::IntGridWithEntitiesOrGridTiles,
            };
            assert_eq!(build_layer(&raw, 0, 100, &"p".to_string()).err(), Some(want));
        }
    }
}

#[test]
fn layer_contents_follow_the_kind() {
    let mut raw = layer("l", "IntGrid");
    raw.auto_layer_tiles = vec![tile((16, 0), (32, 48), 1), tile((0, 16), (0, 0), 2)];
    let doc = build_layer(&raw, 1, 100, &"p".to_string()).unwrap();
    assert_eq!(doc.asset.layer_type, LayerType::IntGrid);
    assert_eq!(doc.asset.tiles.len(), 2);
    let first = doc.asset.tiles[0];
    assert_eq!((first.px_x, first.px_y, first.src_x, first.src_y), (16, 0, 32, 48));
    assert_eq!((first.flip_x, first.flip_y, first.tile_id), (true, false, 7));
    let second = doc.asset.tiles[1];
    assert_eq!((second.flip_x, second.flip_y), (false, true));
    assert!(doc.entities.is_empty());
    assert_eq!(doc.asset.location.2, 300);

    raw.grid_tiles = vec![tile((0, 0), (0, 0), 3)];
    assert_eq!(
        build_layer(&raw, 1, 100, &"p".to_string()).err(),
        Some(ProjectAssetLoaderError::IntGridWithEntitiesOrGridTiles)
    );

    let mut raw = layer("l", "Tiles");
    raw.grid_tiles = vec![tile((0, 0), (0, 0), 3)];
    let doc = build_layer(&raw, 0, 100, &"p".to_string()).unwrap();
    assert_eq!((doc.asset.tiles[0].flip_x, doc.asset.tiles[0].flip_y), (true, true));
    raw.auto_layer_tiles = vec![tile((0, 0), (0, 0), 0)];
    assert_eq!(
        build_layer(&raw, 0, 100, &"p".to_string()).err(),
        Some(ProjectAssetLoaderError::TilesWithAutoLayerOrEntities)
    );

    let mut raw = layer("l", "Entities");
    raw.entity_instances = vec![entity("a"), entity("b")];
    let doc = build_layer(&raw, 0, 100, &"p".to_string()).unwrap();
    assert!(doc.asset.tiles.is_empty());
    assert_eq!(doc.asset.entity_iids, vec!["a".to_string(), "b".to_string()]);
    assert_eq!(doc.asset.children(), vec!["a".to_string(), "b".to_string()]);
    assert_eq!(doc.entities.len(), 2);
    assert_eq!(doc.entities[1].iid, "b");
    assert_eq!(doc.entities[1].project_iid, "p");

    raw.entity_instances[1].smart_color = "#12345".to_string();
    raw.entity_instances[0].world_x = Some(1);
    assert_eq!(
        build_layer(&raw, 0, 100, &"p".to_string()).err(),
        Some(ProjectAssetLoaderError::EntityAssetError(EntityAssetError::WorldCoordMixedOption))
    );

    let raw = layer("l", "Decoration");
    assert_eq!(
        build_layer(&raw, 0, 100, &"p".to_string()).err(),
        Some(ProjectAssetLoaderError::LayerTypeError(LayerAssetError::UnknownLayerType(
            "Decoration".to_string()
        )))
    );
}

#[test]
fn level_layers_come_from_the_back() {
    let raw = level(
        "lv",
        Some(vec![layer("front", "Tiles"), layer("middle", "Entities"), layer("back", "IntGrid")]),
    );
    let doc = build_level(&raw, false, &vec![], 10_000, 100, &"p".to_string()).unwrap();
    assert_eq!(
        doc.asset.layer_iids,
        vec!["back".to_string(), "middle".to_string(), "front".to_string()]
    );
    assert_eq!(doc.asset.children(), doc.asset.layer_iids);
    assert_eq!(doc.layers.len(), 3);
    assert_eq!(doc.layers[0].asset.iid, "back");
    assert_eq!(doc.layers[0].asset.index, 0);
    assert_eq!(doc.layers[0].asset.location.2, 200);
    assert_eq!(doc.layers[2].asset.iid, "front");
    assert_eq!(doc.layers[2].asset.index, 2);
    assert_eq!(doc.layers[2].asset.location.2, 400);
    assert_eq!(doc.asset.location, (100, -200, 20_000));
    assert_eq!(doc.asset.size, (96, 64));
    assert_eq!(doc.asset.bg_color, Rgba { r: 16, g: 32, b: 48, a: 255 });
    assert_eq!(doc.asset.iid(), "lv");
}

#[test]
fn level_layer_faults_are_found_from_the_back() {
    let mut front = layer("front", "Nothing");
    front.px_offset_y = i64::MIN;
    let mut back = layer("back", "Tiles");
    back.px_offset_y = i64::MIN;
    let raw = level("lv", Some(vec![front, back]));
    assert_eq!(
        build_level(&raw, false, &vec![], 10_000, 100, &"p".to_string()).err(),
        Some(ProjectAssetLoaderError::LayerTypeError(LayerAssetError::OutOfRange))
    );
}

#[test]
fn level_without_layers_is_refused() {
    let raw = level("lv", None);
    assert_eq!(
        build_level(&raw, false, &vec![], 10_000, 100, &"p".to_string()).err(),
        Some(ProjectAssetLoaderError::LayerInstancesIsNone)
    );
}

#[test]
fn external_levels_are_looked_up_by_path() {
    let mut stub = level("lv", Some(vec![layer("ignored", "Tiles")]));
    assert_eq!(
        build_level(&stub, true, &vec![], 10_000, 100, &"p".to_string()).err(),
        Some(ProjectAssetLoaderError::ExternalRelPathIsNone)
    );
    stub.external_rel_path = Some("levels/lv.ldtkl".to_string());
    assert_eq!(
        build_level(&stub, true, &vec![], 10_000, 100, &"p".to_string()).err(),
        Some(ProjectAssetLoaderError::ExternalLevelMissing)
    );
    let other = ExternalLevel {
        path: "levels/other.ldtkl".to_string(),
        level: level("other", Some(vec![layer("o", "Tiles")])),
    };
    let empty = ExternalLevel { path: "levels/lv.ldtkl".to_string(), level: level("lv", None) };
    let full = ExternalLevel {
        path: "levels/lv.ldtkl".to_string(),
        level: level("lv", Some(vec![layer("a", "Tiles"), layer("b", "Tiles")])),
    };
    let later = ExternalLevel {
        path: "levels/lv.ldtkl".to_string(),
        level: level("lv", Some(vec![layer("z", "Tiles")])),
    };
    assert_eq!(
        build_level(&stub, true, &vec![other, empty], 10_000, 100, &"p".to_string()).err(),
        Some(ProjectAssetLoaderError::LayerInstancesIsNone)
    );
    let doc = build_level(&stub, true, &vec![full, later], 10_000, 100, &"p".to_string()).unwrap();
    assert_eq!(doc.asset.layer_iids, vec!["b".to_string(), "a".to_string()]);
}

#[test]
fn level_background_comes_with_its_position() {
    let position = ldtk::LevelBackgroundPosition {
        crop_rect: (1_500, 2_000, 10_000, 20_999),
        scale: (500, 2_000),
        top_left_px: (-4, 6),
    };
    let mut raw = level("lv", Some(vec![]));
    raw.bg_pos = Some(position);
    assert_eq!(
        LevelAsset::new(&raw, "p".to_string(), 1, vec![]).err(),
        Some(LevelAssetError::BgPosWithBgRelPathNone)
    );
    raw.bg_pos = None;
    raw.bg_rel_path = Some("bg.png".to_string());
    assert_eq!(
        LevelAsset::new(&raw, "p".to_string(), 1, vec![]).err(),
        Some(LevelAssetError::BgPosNoneWithBgRelPath)
    );
    raw.bg_pos = Some(position);
    let l = LevelAsset::new(&raw, "p".to_string(), 1, vec![]).unwrap();
    let p = l.bg_pos.unwrap();
    assert_eq!((p.crop_x, p.crop_y, p.crop_width, p.crop_height), (1, 2, 10, 20));
    assert_eq!((p.scaled_width, p.scaled_height), (5, 41));
    assert_eq!((p.left, p.top), (-4, 6));
    assert_eq!(l.bg_rel_path, Some("bg.png".to_string()));
    raw.bg_pos = Some(ldtk::LevelBackgroundPosition { scale: (-1, 1000), ..position });
    assert_eq!(
        LevelAsset::new(&raw, "p".to_string(), 1, vec![]).err(),
        Some(LevelAssetError::BadBackgroundPosition)
    );
    raw.bg_pos =
        Some(ldtk::LevelBackgroundPosition { crop_rect: (-1, 0, 1000, 1000), ..position });
    assert_eq!(
        LevelAsset::new(&raw, "p".to_string(), 1, vec![]).err(),
        Some(LevelAssetError::BadBackgroundPosition)
    );
    raw.bg_pos = Some(ldtk::LevelBackgroundPosition {
        crop_rect: (0, 0, i64::MAX, 1000),
        scale: (1000, 1000),
        ..position
    });
    assert_eq!(
        LevelAsset::new(&raw, "p".to_string(), 1, vec![]).err(),
        Some(LevelAssetError::BadBackgroundPosition)
    );
}

#[test]
fn level_neighbours_and_depth() {
    let mut raw = level("lv", Some(vec![]));
    for dir in ["n", "s", "w", "e", "nw", "ne", "sw", "se", "<", ">", "o"] {
        raw.neighbours
            .push(ldtk::NeighbourLevel { dir: dir.to_string(), level_iid: format!("to_{dir}") });
    }
    let l = LevelAsset::new(&raw, "p".to_string(), -3, vec!["x".to_string()]).unwrap();
    let dirs: Vec<NeighbourDirection> = l.neighbours.iter().map(|n| n.dir).collect();
    assert_eq!(
        dirs,
        vec![
            NeighbourDirection::North,
            NeighbourDirection::South,
            NeighbourDirection::West,
            NeighbourDirection::East,
            NeighbourDirection::NorthWest,
            NeighbourDirection::NorthEast,
            NeighbourDirection::SouthWest,
            NeighbourDirection::SouthEast,
            NeighbourDirection::Below,
            NeighbourDirection::Above,
            NeighbourDirection::Overlap,
        ]
    );
    assert_eq!(l.neighbours[4].level_iid, "to_nw");
    assert_eq!(l.location.2, -6);
    assert_eq!(l.layer_iids, vec!["x".to_string()]);
    raw.neighbours.push(ldtk::NeighbourLevel { dir: "up".to_string(), level_iid: "u".to_string() });
    assert_eq!(
        LevelAsset::new(&raw, "p".to_string(), -3, vec![]).err(),
        Some(LevelAssetError::NeighbourError(NeighbourError::UnknownDirection))
    );
    raw.neighbours.clear();
    assert_eq!(
        LevelAsset::new(&raw, "p".to_string(), i64::MAX, vec![]).err(),
        Some(LevelAssetError::OutOfRange)
    );
    raw.world_y = i64::MIN;
    assert_eq!(
        LevelAsset::new(&raw, "p".to_string(), 1, vec![]).err(),
        Some(LevelAssetError::OutOfRange)
    );
    raw.bg_color = "#12345g".to_string();
    assert_eq!(
        LevelAsset::new(&raw, "p".to_string(), 1, vec![]).err(),
        Some(LevelAssetError::ColorParseError(ColorParseError::BadDigit(6)))
    );
}

#[test]
fn project_without_worlds_gets_one_called_world() {
    let raw = project(vec![level("a", Some(vec![])), level("b", Some(vec![]))], vec![]);
    let doc = build_project(raw, &vec![], &settings()).unwrap();
    assert_eq!(doc.asset.world_iids, vec!["project".to_string()]);
    assert_eq!(doc.asset.children(), vec!["project".to_string()]);
    assert_eq!(doc.asset.iid(), "project");
    assert_eq!(doc.asset.json_version, "1.5.3");
    assert_eq!(doc.asset.bg_color, Rgba { r: 0, g: 0, b: 0, a: 255 });
    assert!(!doc.asset.external_levels);
    assert_eq!(doc.worlds.len(), 1);
    let w = &doc.worlds[0];
    assert_eq!(w.asset.identifier, "World");
    assert_eq!(w.asset.iid, "project");
    assert_eq!(w.asset.iid(), "project");
    assert_eq!(w.asset.world_grid_size, (16, 16));
    assert_eq!(w.asset.world_layout, ldtk::WorldLayout::GridVania);
    assert_eq!(w.asset.level_iids, vec!["a".to_string(), "b".to_string()]);
    assert_eq!(w.asset.children(), vec!["a".to_string(), "b".to_string()]);
    assert_eq!(w.levels.len(), 2);
    assert_eq!(w.levels[1].asset.project_iid, "project");
}

#[test]
fn project_without_worlds_needs_every_size() {
    let missing = Some(ProjectAssetLoaderError::ValueMissingInSingleWorld);
    let mut raw = project(vec![], vec![]);
    raw.default_level_width = None;
    assert_eq!(build_project(raw, &vec![], &settings()).err(), missing);
    let mut raw = project(vec![], vec![]);
    raw.default_level_height = None;
    assert_eq!(build_project(raw, &vec![], &settings()).err(), missing);
    let mut raw = project(vec![], vec![]);
    raw.world_grid_width = None;
    assert_eq!(build_project(raw, &vec![], &settings()).err(), missing);
    let mut raw = project(vec![], vec![]);
    raw.world_grid_height = None;
    assert_eq!(build_project(raw, &vec![], &settings()).err(), missing);
    let mut raw = project(vec![level("bad", None)], vec![]);
    raw.default_level_width = None;
    raw.bg_color = "nothing".to_string();
    assert_eq!(build_project(raw, &vec![], &settings()).err(), missing);
}

#[test]
fn project_with_worlds_needs_no_sizes() {
    let mut raw = project(
        vec![level("stray", None)],
        vec![world("w1", vec![level("a", Some(vec![]))]), world("w2", vec![])],
    );
    raw.default_level_width = None;
    raw.world_grid_height = None;
    let doc = build_project(raw, &vec![], &settings()).unwrap();
    assert_eq!(doc.asset.world_iids, vec!["w1".to_string(), "w2".to_string()]);
    assert_eq!(doc.worlds[0].asset.identifier, "World_w1");
    assert_eq!(doc.worlds[0].asset.world_grid_size, (9, 8));
    assert_eq!(doc.worlds[0].asset.world_layout, ldtk::WorldLayout::Free);
    assert_eq!(doc.worlds[0].levels.len(), 1);
    assert!(doc.worlds[1].levels.is_empty());
}

#[test]
fn project_faults_in_order() {
    let mut raw = project(vec![], vec![world("w1", vec![level("a", None)])]);
    raw.bg_color = "bad".to_string();
    raw.defs.layers.push(ldtk::LayerDefinition {
        layer_definition_type: "Strange".to_string(),
        display_opacity: 1000,
        grid_size: 16,
        identifier: "L".to_string(),
        tileset_def_uid: None,
        uid: 1,
    });
    raw.defs.entities.push(ldtk::EntityDefinition {
        color: "#00000".to_string(),
        height: 1,
        identifier: "E".to_string(),
        nine_slice_borders: vec![],
        pivot_x: 0,
        pivot_y: 0,
        tile_rect: None,
        tile_render_mode: ldtk::TileRenderMode::Cover,
        tileset_id: None,
        ui_tile_rect: None,
        uid: 2,
        width: 1,
    });
    let run = |raw: &ldtk::LdtkJson| {
        build_project(copy_project(raw), &vec![], &ProjectSettings::default()).err()
    };
    assert_eq!(run(&raw), Some(ProjectAssetLoaderError::LayerInstancesIsNone));
    raw.worlds[0].levels[0].layer_instances = Some(vec![]);
    assert_eq!(
        run(&raw),
        Some(ProjectAssetLoaderError::LayerDefinitionFromError(
            covey_of_worlds::defs::LayerDefinitionFromError::UnknownLayerType(
                "Strange".to_string()
            )
        ))
    );
    raw.defs.layers[0].layer_definition_type = "Tiles".to_string();
    assert_eq!(
        run(&raw),
        Some(ProjectAssetLoaderError::EntityDefinitionFromError(
            covey_of_worlds::defs::EntityDefinitionFromError::ColorParseError(
                ColorParseError::BadLength
            )
        ))
    );
    raw.defs.entities[0].color = "#000000".to_string();
    raw.defs.entities[0].pivot_y = 2000;
    assert_eq!(
        run(&raw),
        Some(ProjectAssetLoaderError::EntityDefinitionFromError(
            covey_of_worlds::defs::EntityDefinitionFromError::AnchorIntoError(
                AnchorIntoError::OutOfRange
            )
        ))
    );
    raw.defs.entities[0].pivot_y = 1000;
    assert_eq!(
        run(&raw),
        Some(ProjectAssetLoaderError::ColorParseError(ColorParseError::BadLength))
    );
    raw.bg_color = "x000000".to_string();
    assert_eq!(
        run(&raw),
        Some(ProjectAssetLoaderError::ColorParseError(ColorParseError::MissingHash))
    );
    raw.bg_color = "#AbCdEf".to_string();
    let doc = build_project(copy_project(&raw), &vec![], &settings()).unwrap();
    assert_eq!(doc.asset.bg_color, Rgba { r: 0xab, g: 0xcd, b: 0xef, a: 255 });
    assert_eq!(doc.asset.layer_defs[&1].layer_type, LayerType::Tiles);
    assert_eq!(doc.asset.entity_defs[&2].anchor.y, -500);
}

fn copy_project(raw: &ldtk::LdtkJson) -> ldtk::LdtkJson {
    let mut out = project(vec![], vec![]);
    out.bg_color = raw.bg_color.clone();
    for w in &raw.worlds {
        let mut levels = vec![];
        for l in &w.levels {
            let mut copy = level(&l.iid, l.layer_instances.as_ref().map(|_| vec![]));
            copy.bg_rel_path = l.bg_rel_path.clone();
            copy.bg_pos = l.bg_pos;
            levels.push(copy);
        }
        out.worlds.push(world(&w.iid, levels));
    }
    for d in &raw.defs.layers {
        out.defs.layers.push(ldtk::LayerDefinition {
            layer_definition_type: d.layer_definition_type.clone(),
            display_opacity: d.display_opacity,
            grid_size: d.grid_size,
            identifier: d.identifier.clone(),
            tileset_def_uid: d.tileset_def_uid,
            uid: d.uid,
        });
    }
    for d in &raw.defs.entities {
        out.defs.entities.push(ldtk::EntityDefinition {
            color: d.color.clone(),
            height: d.height,
            identifier: d.identifier.clone(),
            nine_slice_borders: d.nine_slice_borders.clone(),
            pivot_x: d.pivot_x,
            pivot_y: d.pivot_y,
            tile_rect: d.tile_rect,
            tile_render_mode: d.tile_render_mode,
            tileset_id: d.tileset_id,
            ui_tile_rect: d.ui_tile_rect,
            uid: d.uid,
            width: d.width,
        });
    }
    out
}

fn tileset(uid: i64, identifier: &str, rel_path: Option<&str>) -> ldtk::TilesetDefinition {
    ldtk::TilesetDefinition {
        c_hei: 2,
        c_wid: 3,
        enum_tags: vec![ldtk::EnumTagValue {
            enum_value_id: "Solid".to_string(),
            tile_ids: vec![1, 2],
        }],
        identifier: identifier.to_string(),
        padding: 0,
        px_hei: 32,
        px_wid: 48,
        rel_path: rel_path.map(str::to_string),
        spacing: 1,
        tags: vec!["t".to_string()],
        tags_source_enum_uid: Some(5),
        tile_grid_size: 16,
        uid,
    }
}

#[test]
fn project_tables_keep_the_last_definition_and_paths_come_once() {
    let position = ldtk::LevelBackgroundPosition {
        crop_rect: (0, 0, 1000, 1000),
        scale: (1000, 1000),
        top_left_px: (0, 0),
    };
    let mut a = level("a", Some(vec![]));
    a.bg_rel_path = Some("sky.png".to_string());
    a.bg_pos = Some(position);
    let b = level("b", Some(vec![]));
    let mut c = level("c", Some(vec![]));
    c.bg_rel_path = Some("cave.png".to_string());
    c.bg_pos = Some(position);
    let mut d = level("d", Some(vec![]));
    d.bg_rel_path = Some("sky.png".to_string());
    d.bg_pos = Some(position);
    let mut raw = project(vec![], vec![world("w1", vec![a, b]), world("w2", vec![c, d])]);
    raw.defs.tilesets = vec![
        tileset(1, "first", Some("tiles.png")),
        tileset(2, "internal", None),
        tileset(1, "second", Some("other.png")),
        tileset(3, "third", Some("tiles.png")),
    ];
    raw.defs.enums = vec![ldtk::EnumDefinition {
        external_rel_path: None,
        icon_tileset_uid: Some(1),
        identifier: "Kind".to_string(),
        tags: vec![],
        uid: 9,
        values: vec![ldtk::EnumValueDefinition {
            color: 255,
            id: "Solid".to_string(),
            tile_rect: None,
        }],
    }];
    let doc = build_project(raw, &vec![], &settings()).unwrap();
    assert_eq!(doc.asset.background_assets, vec!["sky.png".to_string(), "cave.png".to_string()]);
    assert_eq!(doc.asset.tileset_assets, vec!["tiles.png".to_string(), "other.png".to_string()]);
    assert_eq!(doc.asset.tileset_defs.len(), 3);
    assert_eq!(doc.asset.tileset_defs[&1].identifier, "second");
    assert_eq!(doc.asset.tileset_defs[&1].rel_path, Some("other.png".to_string()));
    assert_eq!(doc.asset.tileset_defs[&2].rel_path, None);
    assert_eq!(doc.asset.tileset_defs[&3].grid_size, (3, 2));
    assert_eq!(doc.asset.tileset_defs[&3].size, (48, 32));
    assert_eq!(doc.asset.tileset_defs[&3].enum_tags[0].tile_ids, vec![1, 2]);
    assert_eq!(doc.asset.enum_defs[&9].values[0].id, "Solid");
    assert_eq!(doc.asset.enum_defs[&9].icon_tileset_uid, Some(1));
    assert!(doc.asset.layer_defs.is_empty());
    assert!(doc.asset.entity_defs.is_empty());
}

#[test]
fn external_level_files_are_asked_for_once() {
    let named = |iid: &str, path: Option<&str>| {
        let mut l = level(iid, None);
        l.external_rel_path = path.map(str::to_string);
        l
    };
    let mut raw = project(
        vec![named("stray", Some("stray.ldtkl"))],
        vec![
            world("w1", vec![named("a", Some("a.ldtkl")), named("b", None)]),
            world("w2", vec![named("c", Some("c.ldtkl")), named("d", Some("a.ldtkl"))]),
        ],
    );
    assert!(external_level_paths(&raw).is_empty());
    raw.external_levels = true;
    assert_eq!(external_level_paths(&raw), vec!["a.ldtkl".to_string(), "c.ldtkl".to_string()]);
    let mut single = project(
        vec![named("a", Some("one.ldtkl")), named("b", Some("two.ldtkl")), named("c", None)],
        vec![],
    );
    single.external_levels = true;
    assert_eq!(
        external_level_paths(&single),
        vec!["one.ldtkl".to_string(), "two.ldtkl".to_string()]
    );
}

#[test]
fn project_with_external_levels_is_built_from_their_files() {
    let mut stub = level("a", None);
    stub.external_rel_path = Some("a.ldtkl".to_string());
    let mut raw = project(vec![], vec![world("w1", vec![stub])]);
    raw.external_levels = true;
    let file = ExternalLevel {
        path: "a.ldtkl".to_string(),
        level: level("a", Some(vec![layer("only", "IntGrid")])),
    };
    let doc = build_project(raw, &vec![file], &settings()).unwrap();
    assert!(doc.asset.external_levels);
    assert_eq!(doc.worlds[0].levels[0].asset.layer_iids, vec!["only".to_string()]);
    assert_eq!(doc.worlds[0].levels[0].layers[0].asset.project_iid, "project");
}
