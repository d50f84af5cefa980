//! The records of a project file, as they are read. Quantities that the
//! file gives as fractions are held in thousandths.

use vstd::prelude::*;

verus! {

/// How the levels of a world are laid out.
#[derive(Clone, Copy, Debug, PartialEq, Eq, Structural)]
pub enum WorldLayout {
    Free,
    GridVania,
    LinearHorizontal,
    LinearVertical,
}

/// A rectangle of a tileset.
#[derive(Clone, Copy, Debug, PartialEq, Eq, Structural)]
pub struct TilesetRectangle {
    pub h: i64,
    pub tileset_uid: i64,
    pub w: i64,
    pub x: i64,
    pub y: i64,
}

/// One tile of a layer.
#[derive(Clone, Copy, Debug, PartialEq, Eq)]
pub struct TileInstance {
    /// Flip bits: 1 mirrors left to right, 2 mirrors top to bottom.
    pub f: i64,
    /// Where the tile goes, in pixels of the layer.
    pub px: (i64, i64),
    /// Where the tile comes from, in pixels of the tileset.
    pub src: (i64, i64),
    /// The tile's number in its tileset.
    pub t: i64,
}

/// The value of a custom field of a level or an entity.
pub struct FieldInstance {
    pub identifier: String,
    pub field_instance_type: String,
    /// The value, as the text of the file spells it.
    pub value: String,
    pub def_uid: i64,
    pub tile: Option<TilesetRectangle>,
}

/// One entity of an entity layer.
pub struct EntityInstance {
    pub grid: (i64, i64),
    pub identifier: String,
    /// The pivot, in thousandths of the entity's size.
    pub pivot: Vec<i64>,
    pub smart_color: String,
    pub tags: Vec<String>,
    pub tile: Option<TilesetRectangle>,
    pub world_x: Option<i64>,
    pub world_y: Option<i64>,
    pub def_uid: i64,
    pub field_instances: Vec<FieldInstance>,
    pub height: i64,
    pub iid: String,
    pub px: (i64, i64),
    pub width: i64,
}

/// One layer of a level.
pub struct LayerInstance {
    pub c_hei: i64,
    pub c_wid: i64,
    pub grid_size: i64,
    pub identifier: String,
    /// The opacity, in thousandths.
    pub opacity: i64,
    pub px_total_offset_x: i64,
    pub px_total_offset_y: i64,
    pub tileset_def_uid: Option<i64>,
    pub tileset_rel_path: Option<String>,
    pub layer_instance_type: String,
    pub auto_layer_tiles: Vec<TileInstance>,
    pub entity_instances: Vec<EntityInstance>,
    pub grid_tiles: Vec<TileInstance>,
    pub iid: String,
    pub int_grid_csv: Vec<i64>,
    pub layer_def_uid: i64,
    pub level_id: i64,
    pub override_tileset_uid: Option<i64>,
    pub px_offset_x: i64,
    pub px_offset_y: i64,
    pub visible: bool,
}

/// How the background image of a level is cut and placed.
#[derive(Clone, Copy, Debug, PartialEq, Eq)]
pub struct LevelBackgroundPosition {
    /// Left, top, width and height of the part shown, in thousandths of a
    /// pixel of the image.
    pub crop_rect: (i64, i64, i64, i64),
    /// Horizontal and vertical scale, in thousandths.
    pub scale: (i64, i64),
    /// Where the scaled part goes, in pixels of the level.
    pub top_left_px: (i64, i64),
}

/// A level next to a level.
pub struct NeighbourLevel {
    pub dir: String,
    pub level_iid: String,
}

/// One level of a world.
pub struct Level {
    pub bg_color: String,
    pub bg_pos: Option<LevelBackgroundPosition>,
    pub neighbours: Vec<NeighbourLevel>,
    pub bg_rel_path: Option<String>,
    pub external_rel_path: Option<String>,
    pub field_instances: Vec<FieldInstance>,
    pub identifier: String,
    pub iid: String,
    pub layer_instances: Option<Vec<LayerInstance>>,
    pub px_hei: i64,
    pub px_wid: i64,
    pub uid: i64,
    pub world_depth: i64,
    pub world_x: i64,
    pub world_y: i64,
}

/// One world of a project.
pub struct World {
    pub default_level_height: i64,
    pub default_level_width: i64,
    pub identifier: String,
    pub iid: String,
    pub levels: Vec<Level>,
    pub world_grid_height: i64,
    pub world_grid_width: i64,
    pub world_layout: Option<WorldLayout>,
}

/// A tag of an enum value, with the tiles that carry it.
pub struct EnumTagValue {
    pub enum_value_id: String,
    pub tile_ids: Vec<i64>,
}

/// One value of an enum.
pub struct EnumValueDefinition {
    pub color: i64,
    pub id: String,
    pub tile_rect: Option<TilesetRectangle>,
}

/// An enum of the project.
pub struct EnumDefinition {
    pub external_rel_path: Option<String>,
    pub icon_tileset_uid: Option<i64>,
    pub identifier: String,
    pub tags: Vec<String>,
    pub uid: i64,
    pub values: Vec<EnumValueDefinition>,
}

/// How the tile of an entity is drawn.
#[derive(Clone, Copy, Debug, PartialEq, Eq, Structural)]
pub enum TileRenderMode {
    Cover,
    FitInside,
    FullSizeCropped,
    FullSizeUncropped,
    NineSlice,
    Repeat,
    Stretch,
}

/// The definition of a kind of entity.
pub struct EntityDefinition {
    pub color: String,
    pub height: i64,
    pub identifier: String,
    pub nine_slice_borders: Vec<i64>,
    /// The pivot's horizontal component, in thousandths.
    pub pivot_x: i64,
    /// The pivot's vertical component, in thousandths.
    pub pivot_y: i64,
    pub tile_rect: Option<TilesetRectangle>,
    pub tile_render_mode: TileRenderMode,
    pub tileset_id: Option<i64>,
    pub ui_tile_rect: Option<TilesetRectangle>,
    pub uid: i64,
    pub width: i64,
}

/// The definition of a kind of layer.
pub struct LayerDefinition {
    pub layer_definition_type: String,
    /// The opacity, in thousandths.
    pub display_opacity: i64,
    pub grid_size: i64,
    pub identifier: String,
    pub tileset_def_uid: Option<i64>,
    pub uid: i64,
}

/// The definition of a tileset.
pub struct TilesetDefinition {
    pub c_hei: i64,
    pub c_wid: i64,
    pub enum_tags: Vec<EnumTagValue>,
    pub identifier: String,
    pub padding: i64,
    pub px_hei: i64,
    pub px_wid: i64,
    pub rel_path: Option<String>,
    pub spacing: i64,
    pub tags: Vec<String>,
    pub tags_source_enum_uid: Option<i64>,
    pub tile_grid_size: i64,
    pub uid: i64,
}

/// The definitions that a project shares among its levels.
pub struct Definitions {
    pub entities: Vec<EntityDefinition>,
    pub enums: Vec<EnumDefinition>,
    pub layers: Vec<LayerDefinition>,
    pub tilesets: Vec<TilesetDefinition>,
}

/// A reference from a field to an entity.
pub struct ReferenceToAnEntityInstance {
    pub entity_iid: String,
    pub layer_iid: String,
    pub level_iid: String,
    pub world_iid: String,
}

/// A project file.
pub struct LdtkJson {
    pub bg_color: String,
    pub defs: Definitions,
    pub external_levels: bool,
    pub iid: String,
    pub json_version: String,
    pub levels: Vec<Level>,
    pub worlds: Vec<World>,
    pub default_level_height: Option<i64>,
    pub default_level_width: Option<i64>,
    pub world_grid_height: Option<i64>,
    pub world_grid_width: Option<i64>,
    pub world_layout: Option<WorldLayout>,
}

} // verus!
