use covey_of_worlds::background::{LevelBackgroundError, LevelBackgroundPosition};
use covey_of_worlds::canvas::{Canvas, Rgba};
use covey_of_worlds::components::{Iid, Tiles, TilesetRectangle};
use covey_of_worlds::defs::{
    EntityDefinition, EntityDefinitionFromError, EnumDefinition, EnumTagValue,
    EnumValueDefinition, LayerDefinition, LayerDefinitionFromError, ReferenceToAnEntityInstance,
    TilesetDefinition,
};
use covey_of_worlds::entity::{EntityAsset, EntityAssetError};
use covey_of_worlds::facets::{
    entity_transform, iid_facet, layer_transform, level_transform, name_facet, origin_transform,
    project_name_facet, tiles_facet, tileset_rectangle_facet, transform_facet, FacetAction,
    Transform,
};
use covey_of_worlds::layer::{LayerAsset, LayerAssetError, LayerType};
use covey_of_worlds::ldtk;
use covey_of_worlds::level::{LevelAsset, LevelAssetError};
use covey_of_worlds::project::{table_of, ProjectAsset};
use covey_of_worlds::system_params::{
    LdtkProjectCommands, LdtkProjectCommandsEntityEx, LdtkProjectCommandsEx, ProjectEntity,
};
use covey_of_worlds::tiles::{BuildImageFromTilesError, TileInstance};
use covey_of_worlds::util::{
    anchor_from_ldtk, color_from_ldtk, Anchor, AnchorIntoError, ColorParseError,
};
use std::collections::HashMap;

fn tileset_def(uid: i64, rel_path: Option<&str>) -> TilesetDefinition {
    TilesetDefinition {
        grid_size: (2, 1),
        enum_tags: vec![],
        identifier: format!("Tileset{uid}"),
        padding: 0,
        size: (4, 2),
        rel_path: rel_path.map(str::to_string),
        spacing: 0,
        tags: vec![],
        tags_source_enum_uid: None,
        tile_grid_size: 2,
        uid,
    }
}

fn project(iid: &str) -> ProjectAsset {
    let mut tileset_defs = HashMap::new();
    tileset_defs.insert(1, tileset_def(1, Some("tiles.png")));
    tileset_defs.insert(2, tileset_def(2, None));
    tileset_defs.insert(3, tileset_def(3, Some("unknown.png")));
    ProjectAsset {
        bg_color: Rgba { r: 0, g: 0, b: 0, a: 255 },
        external_levels: false,
        iid: iid.to_string(),
        json_version: "1.5.3".to_string(),
        tileset_assets: vec!["tiles.png".to_string()],
        background_assets: vec!["sky.png".to_string()],
        layer_defs: HashMap::new(),
        entity_defs: HashMap::new(),
        tileset_defs,
        enum_defs: HashMap::new(),
        world_iids: vec![],
    }
}

fn entity(project_iid: &str) -> EntityAsset {
    EntityAsset {
        grid: (0, 0),
        identifier: "Player".to_string(),
        anchor: Anchor { x: -500, y: 500 },
        smart_color: Rgba { r: 1, g: 2, b: 3, a: 255 },
        tags: vec![],
        tile: Some(rect(1)),
        world_location: None,
        def_uid: 1,
        field_instances: vec![],
        size: (8, 8),
        iid: "entity-iid".to_string(),
        location: (5, -6, 0),
        project_iid: project_iid.to_string(),
    }
}

fn rect(tileset_uid: i64) -> TilesetRectangle {
    TilesetRectangle { location: (16, 32), size: (8, 4), tileset_uid }
}

fn layer(project_iid: &str, path: Option<&str>) -> LayerAsset {
    LayerAsset {
        grid_size: (2, 1),
        grid_cell_size: 2,
        identifier: "Ground".to_string(),
        opacity: 1000,
        px_total_offset: (0, 0),
        tileset_def_uid: Some(1),
        tileset_rel_path: path.map(str::to_string),
        layer_type: LayerType::Tiles,
        iid: "layer-iid".to_string(),
        int_grid_csv: vec![],
        tiles: vec![],
        layer_def_uid: 1,
        level_id: 1,
        override_tileset_uid: None,
        location: (1, -2, 300),
        visible: true,
        index: 1,
        entity_iids: vec![],
        project_iid: project_iid.to_string(),
    }
}

fn level(project_iid: &str) -> LevelAsset {
    LevelAsset {
        bg_color: Rgba { r: 255, g: 0, b: 0, a: 255 },
        bg_pos: None,
        neighbours: vec![],
        bg_rel_path: None,
        field_instances: vec![],
        identifier: "Level_0".to_string(),
        iid: "level-iid".to_string(),
        size: (4, 4),
        location: (10, -20, 30_000),
        project_iid: project_iid.to_string(),
        layer_iids: vec![],
    }
}

fn tile(px_x: i64, src_x: i64) -> TileInstance {
    TileInstance { px_x, px_y: 0, src_x, src_y: 0, flip_x: false, flip_y: false, tile_id: 0 }
}

fn tileset_image() -> Canvas {
    let mut bytes = Vec::new();
    for y in 0..2u8 {
        for x in 0..4u8 {
            bytes.extend_from_slice(&[x, y, 9, 255]);
        }
    }
    Canvas::from_bytes(4, 2, &bytes).unwrap()
}

#[test]
fn colours_are_read_from_hex() {
    assert_eq!(color_from_ldtk("#000000"), Ok(Rgba { r: 0, g: 0, b: 0, a: 255 }));
    assert_eq!(color_from_ldtk("#ffFF09"), Ok(Rgba { r: 255, g: 255, b: 9, a: 255 }));
    assert_eq!(color_from_ldtk("#1a2B3c"), Ok(Rgba { r: 0x1a, g: 0x2b, b: 0x3c, a: 255 }));
    assert_eq!(color_from_ldtk(""), Err(ColorParseError::BadLength));
    assert_eq!(color_from_ldtk("#fff"), Err(ColorParseError::BadLength));
    assert_eq!(color_from_ldtk("#ff00ff00"), Err(ColorParseError::BadLength));
    assert_eq!(color_from_ldtk("0ff00ff"), Err(ColorParseError::MissingHash));
    assert_eq!(color_from_ldtk("#g00000"), Err(ColorParseError::BadDigit(1)));
    assert_eq!(color_from_ldtk("#00 000"), Err(ColorParseError::BadDigit(3)));
    assert_eq!(color_from_ldtk("#00000/"), Err(ColorParseError::BadDigit(6)));
    assert_eq!(color_from_ldtk("#0g000x"), Err(ColorParseError::BadDigit(2)));
    assert_eq!(color_from_ldtk("#00000é"), Err(ColorParseError::BadDigit(6)));
    assert_eq!(color_from_ldtk("é000000"), Err(ColorParseError::MissingHash));
}

#[test]
fn pivots_become_anchors() {
    assert_eq!(anchor_from_ldtk(&vec![0, 0]), Ok(Anchor { x: -500, y: 500 }));
    assert_eq!(anchor_from_ldtk(&vec![500, 500]), Ok(Anchor { x: 0, y: 0 }));
    assert_eq!(anchor_from_ldtk(&vec![1000, 1000]), Ok(Anchor { x: 500, y: -500 }));
    assert_eq!(anchor_from_ldtk(&vec![250, 1000]), Ok(Anchor { x: -250, y: -500 }));
    assert_eq!(anchor_from_ldtk(&vec![]), Err(AnchorIntoError::NotAPair));
    assert_eq!(anchor_from_ldtk(&vec![1, 2, 3]), Err(AnchorIntoError::NotAPair));
    assert_eq!(anchor_from_ldtk(&vec![-1, 0]), Err(AnchorIntoError::OutOfRange));
    assert_eq!(anchor_from_ldtk(&vec![0, 1001]), Err(AnchorIntoError::OutOfRange));
}

#[test]
fn definitions_are_read() {
    let raw_rect = ldtk::TilesetRectangle { h: 4, tileset_uid: 5, w: 3, x: 1, y: 2 };
    let r = TilesetRectangle::new(&raw_rect);
    assert_eq!((r.location, r.size, r.tileset_uid), ((1, 2), (3, 4), 5));
    assert_eq!(TilesetRectangle::optional(&None), None);
    assert_eq!(TilesetRectangle::optional(&Some(raw_rect)), Some(r));

    let tag = EnumTagValue::new(&ldtk::EnumTagValue {
        enum_value_id: "Solid".to_string(),
        tile_ids: vec![3, 1],
    });
    assert_eq!((tag.enum_value_id.as_str(), tag.tile_ids), ("Solid", vec![3, 1]));

    let value = EnumValueDefinition::new(&ldtk::EnumValueDefinition {
        color: 77,
        id: "Water".to_string(),
        tile_rect: Some(raw_rect),
    });
    assert_eq!((value.color, value.id.as_str(), value.tile_rect), (77, "Water", Some(r)));

    let def = EnumDefinition::new(&ldtk::EnumDefinition {
        external_rel_path: Some("enums.cs".to_string()),
        icon_tileset_uid: None,
        identifier: "Kind".to_string(),
        tags: vec!["a".to_string(), "b".to_string()],
        uid: 4,
        values: vec![
            ldtk::EnumValueDefinition { color: 1, id: "One".to_string(), tile_rect: None },
            ldtk::EnumValueDefinition { color: 2, id: "Two".to_string(), tile_rect: None },
        ],
    });
    assert_eq!(def.external_rel_path, Some("enums.cs".to_string()));
    assert_eq!(def.tags, vec!["a".to_string(), "b".to_string()]);
    assert_eq!(def.uid, 4);
    assert_eq!(def.values.len(), 2);
    assert_eq!(def.values[1].id, "Two");

    let reference = ReferenceToAnEntityInstance::new(&ldtk::ReferenceToAnEntityInstance {
        entity_iid: "e".to_string(),
        layer_iid: "l".to_string(),
        level_iid: "v".to_string(),
        world_iid: "w".to_string(),
    });
    assert_eq!(
        (
            reference.entity_iid.as_str(),
            reference.layer_iid.as_str(),
            reference.level_iid.as_str(),
            reference.world_iid.as_str()
        ),
        ("e", "l", "v", "w")
    );
}

#[test]
fn entity_and_layer_definitions_are_checked() {
    let mut raw = ldtk::EntityDefinition {
        color: "#0a0b0c".to_string(),
        height: 12,
        identifier: "Chest".to_string(),
        nine_slice_borders: vec![1, 2, 3, 4],
        pivot_x: 500,
        pivot_y: 1000,
        tile_rect: None,
        tile_render_mode: ldtk::TileRenderMode::FitInside,
        tileset_id: Some(6),
        ui_tile_rect: None,
        uid: 8,
        width: 10,
    };
    let def = EntityDefinition::new(&raw).ok().unwrap();
    assert_eq!(def.color, Rgba { r: 10, g: 11, b: 12, a: 255 });
    assert_eq!(def.size, (10, 12));
    assert_eq!(def.anchor, Anchor { x: 0, y: -500 });
    assert_eq!(def.nine_slice_borders, vec![1, 2, 3, 4]);
    assert_eq!(def.tile_render_mode, ldtk::TileRenderMode::FitInside);
    assert_eq!((def.tileset_id, def.uid), (Some(6), 8));
    raw.pivot_x = -1;
    assert_eq!(
        EntityDefinition::new(&raw).err(),
        Some(EntityDefinitionFromError::AnchorIntoError(AnchorIntoError::OutOfRange))
    );
    raw.color = "#0a0b0".to_string();
    assert_eq!(
        EntityDefinition::new(&raw).err(),
        Some(EntityDefinitionFromError::ColorParseError(ColorParseError::BadLength))
    );

    let mut raw = ldtk::LayerDefinition {
        layer_definition_type: "AutoLayer".to_string(),
        display_opacity: 500,
        grid_size: 16,
        identifier: "Walls".to_string(),
        tileset_def_uid: Some(1),
        uid: 2,
    };
    let def = LayerDefinition::new(&raw).ok().unwrap();
    assert_eq!(def.layer_type, LayerType::Autolayer);
    assert_eq!((def.display_opacity, def.grid_size, def.uid), (500, 16, 2));
    raw.layer_definition_type = "autolayer".to_string();
    assert_eq!(
        LayerDefinition::new(&raw).err(),
        Some(LayerDefinitionFromError::UnknownLayerType("autolayer".to_string()))
    );
}

#[test]
fn table_keeps_the_last_value_under_a_number() {
    let table = table_of(&vec![1, 2, 1, 3], vec!["a", "b", "c", "d"]);
    assert_eq!(table.len(), 3);
    assert_eq!(table[&1], "c");
    assert_eq!(table[&2], "b");
    assert_eq!(table[&3], "d");
    assert!(table_of::<u8>(&vec![], vec![]).is_empty());
}

#[test]
fn projects_are_found_by_iid() {
    let owned = vec![project("p1"), project("p2"), project("p1")];
    let projects: Vec<&ProjectAsset> = owned.iter().collect();
    assert!(std::ptr::eq(projects.with_iid("p1").unwrap(), &owned[0]));
    assert!(std::ptr::eq(projects.with_iid("p2").unwrap(), &owned[1]));
    assert!(projects.with_iid("p3").is_none());
    assert!(Vec::<&ProjectAsset>::new().with_iid("p1").is_none());

    let commands = LdtkProjectCommands {
        project_assets: owned,
        query: vec![
            ProjectEntity { entity: 7, project: 1, iid: Iid("p2".to_string()) },
            ProjectEntity { entity: 8, project: 0, iid: Iid("p1".to_string()) },
            ProjectEntity { entity: 9, project: 2, iid: Iid("p1".to_string()) },
        ],
    };
    assert_eq!(commands.iter().len(), 3);
    assert!(std::ptr::eq(commands.iter()[2], &commands.project_assets[2]));
    assert!(std::ptr::eq(
        commands.iter().with_iid("p2").unwrap(),
        &commands.project_assets[1]
    ));
    let entities = commands.iter_entities();
    assert_eq!(entities.len(), 3);
    assert_eq!(entities[0].0, 7);
    assert!(std::ptr::eq(entities[0].1, &commands.project_assets[1]));
    assert_eq!(entities[2].2 .0, "p1");
    let found = entities.with_iid("p1").unwrap();
    assert_eq!(found.0, 8);
    assert!(std::ptr::eq(found.1, &commands.project_assets[0]));
    assert!(entities.with_iid("nobody").is_none());
}

#[test]
fn entity_tile_is_planned_from_its_tileset() {
    let owned = vec![project("other"), project("p")];
    let projects: Vec<&ProjectAsset> = owned.iter().collect();
    let e = entity("p");
    let plan = e.entity_tile_system(&projects, &rect(1)).ok().unwrap();
    assert_eq!(plan.custom_size, (8, 4));
    assert_eq!(plan.rect, ((16, 32), (24, 36)));
    assert_eq!(plan.anchor, Anchor { x: -500, y: 500 });
    assert_eq!(plan.texture, "tiles.png");
    assert_eq!(
        entity("nobody").entity_tile_system(&projects, &rect(1)).err(),
        Some(EntityAssetError::BadIid)
    );
    assert_eq!(
        e.entity_tile_system(&projects, &rect(9)).err(),
        Some(EntityAssetError::BadTilesetUid)
    );
    assert_eq!(
        e.entity_tile_system(&projects, &rect(2)).err(),
        Some(EntityAssetError::MissingTilesetPath)
    );
    assert_eq!(
        e.entity_tile_system(&projects, &rect(3)).err(),
        Some(EntityAssetError::BadTilesetPath)
    );
    let far = TilesetRectangle { location: (i64::MAX, 0), size: (1, 1), tileset_uid: 1 };
    assert_eq!(e.entity_tile_system(&projects, &far).err(), Some(EntityAssetError::OutOfRange));
}

#[test]
fn layer_image_is_painted_from_the_tile_list() {
    let owned = vec![project("p")];
    let projects: Vec<&ProjectAsset> = owned.iter().collect();
    let image = tileset_image();
    let tiles = Tiles { tiles: vec![tile(0, 2), tile(2, 0)] };
    let l = layer("p", Some("tiles.png"));
    let out = l.layer_tiles_system(&projects, Some(&image), &tiles).ok().unwrap().unwrap();
    assert_eq!((out.width(), out.height()), (4, 2));
    assert_eq!(out.get(0, 0), image.get(2, 0));
    assert_eq!(out.get(1, 1), image.get(3, 1));
    assert_eq!(out.get(2, 0), image.get(0, 0));
    assert_eq!(out.get(3, 1), image.get(1, 1));

    assert!(layer("p", None)
        .layer_tiles_system(&projects, Some(&image), &tiles)
        .ok()
        .unwrap()
        .is_none());
    assert_eq!(
        layer("q", None).layer_tiles_system(&projects, Some(&image), &tiles).err(),
        Some(LayerAssetError::BadIid)
    );
    assert_eq!(
        layer("p", Some("lost.png")).layer_tiles_system(&projects, Some(&image), &tiles).err(),
        Some(LayerAssetError::BadTilesetPath)
    );
    assert_eq!(
        l.layer_tiles_system(&projects, None, &tiles).err(),
        Some(LayerAssetError::BadTilesetHandle)
    );
    let mut huge = layer("p", Some("tiles.png"));
    huge.grid_size = (i64::MAX, 1);
    assert_eq!(
        huge.layer_tiles_system(&projects, Some(&image), &tiles).err(),
        Some(LayerAssetError::OutOfRange)
    );
    huge.grid_size = (-1, 1);
    assert_eq!(
        huge.layer_tiles_system(&projects, Some(&image), &tiles).err(),
        Some(LayerAssetError::OutOfRange)
    );
    huge.grid_size = (0x7fff_ffff, 0x7fff_ffff);
    assert_eq!(
        huge.layer_tiles_system(&projects, Some(&image), &Tiles { tiles: vec![] }).err(),
        Some(LayerAssetError::BuildImageFromTilesError(BuildImageFromTilesError::CanvasTooLarge))
    );
    let outside = Tiles { tiles: vec![tile(0, 0), tile(3, 0)] };
    assert_eq!(
        l.layer_tiles_system(&projects, Some(&image), &outside).err(),
        Some(LayerAssetError::BuildImageFromTilesError(
            BuildImageFromTilesError::TileOutOfBounds(1)
        ))
    );
}

#[test]
fn level_background_is_made_for_the_level() {
    let owned = vec![project("p")];
    let projects: Vec<&ProjectAsset> = owned.iter().collect();
    let plain = level("p");
    let out = plain.level_bg_system(&projects, None).ok().unwrap();
    assert_eq!((out.width(), out.height()), (4, 4));
    for y in 0..4 {
        for x in 0..4 {
            assert_eq!(out.get(x, y), Some(Rgba { r: 255, g: 0, b: 0, a: 255 }));
        }
    }
    assert_eq!(
        level("q").level_bg_system(&projects, None).err(),
        Some(LevelAssetError::BadProjectIid)
    );

    let position = LevelBackgroundPosition {
        crop_x: 0,
        crop_y: 0,
        crop_width: 2,
        crop_height: 2,
        scaled_width: 2,
        scaled_height: 2,
        left: 2,
        top: 0,
    };
    let sky = Canvas::filled(2, 2, Rgba { r: 0, g: 0, b: 200, a: 255 }).unwrap();
    let mut with_bg = level("p");
    with_bg.bg_pos = Some(position);
    assert_eq!(
        with_bg.level_bg_system(&projects, Some(&sky)).err(),
        Some(LevelAssetError::BgPosWithBgRelPathNone)
    );
    with_bg.bg_rel_path = Some("lost.png".to_string());
    assert_eq!(
        with_bg.level_bg_system(&projects, Some(&sky)).err(),
        Some(LevelAssetError::BgRelPathNotFound)
    );
    with_bg.bg_rel_path = Some("sky.png".to_string());
    assert_eq!(
        with_bg.level_bg_system(&projects, None).err(),
        Some(LevelAssetError::BadHandle)
    );
    let out = with_bg.level_bg_system(&projects, Some(&sky)).ok().unwrap();
    assert_eq!(out.get(2, 0), Some(Rgba { r: 0, g: 0, b: 200, a: 255 }));
    assert_eq!(out.get(3, 1), Some(Rgba { r: 0, g: 0, b: 200, a: 255 }));
    assert_eq!(out.get(1, 0), Some(Rgba { r: 255, g: 0, b: 0, a: 255 }));
    assert_eq!(out.get(2, 2), Some(Rgba { r: 255, g: 0, b: 0, a: 255 }));

    with_bg.bg_pos = None;
    assert_eq!(
        with_bg.level_bg_system(&projects, Some(&sky)).err(),
        Some(LevelAssetError::BgPosNoneWithBgRelPath)
    );
    let mut odd = level("p");
    odd.size = (-1, 4);
    assert_eq!(odd.level_bg_system(&projects, None).err(), Some(LevelAssetError::OutOfRange));
    odd.size = (0xffff_ffff, 0xffff_ffff);
    assert_eq!(
        odd.level_bg_system(&projects, None).err(),
        Some(LevelAssetError::BackgroundError(LevelBackgroundError::LevelTooLarge))
    );
}

fn inserted<T>(action: FacetAction<T>) -> T {
    match action {
        FacetAction::Insert(facet) => facet,
        _ => panic!("not an insert"),
    }
}

#[test]
fn facets_are_assigned() {
    let e = entity("p");
    assert_eq!(inserted(name_facet(&e.identifier)).0, "Player");
    assert_eq!(inserted(project_name_facet(&"ldtk/top_down.ldtk".to_string())).0, "ldtk/top_down.ldtk");
    assert_eq!(inserted(iid_facet(&e)).0, "entity-iid");
    assert_eq!(inserted(iid_facet(&layer("p", None))).0, "layer-iid");
    assert_eq!(inserted(iid_facet(&level("p"))).0, "level-iid");
    assert_eq!(inserted(iid_facet(&project("the-project"))).0, "the-project");

    assert_eq!(inserted(entity_transform(false, &e)), Transform { translation: (5, -6, 0) });
    assert!(matches!(
        entity_transform(true, &e),
        FacetAction::Mutate(Transform { translation: (5, -6, 0) })
    ));
    assert!(matches!(
        layer_transform(true, &layer("p", None)),
        FacetAction::Mutate(Transform { translation: (1, -2, 300) })
    ));
    assert!(matches!(
        level_transform(false, &level("p")),
        FacetAction::Insert(Transform { translation: (10, -20, 30_000) })
    ));
    assert!(matches!(
        origin_transform(true),
        FacetAction::Mutate(Transform { translation: (0, 0, 0) })
    ));
    assert!(matches!(
        transform_facet(false, (1, 2, 3)),
        FacetAction::Insert(Transform { translation: (1, 2, 3) })
    ));

    assert_eq!(inserted(tileset_rectangle_facet(&e)), rect(1));
    let mut bare = entity("p");
    bare.tile = None;
    assert!(matches!(tileset_rectangle_facet(&bare), FacetAction::Remove));

    let mut l = layer("p", None);
    assert!(matches!(tiles_facet(&l), FacetAction::Remove));
    l.tiles = vec![tile(0, 2), tile(2, 0)];
    assert_eq!(inserted(tiles_facet(&l)).tiles, vec![tile(0, 2), tile(2, 0)]);
}
