//! The definitions that a project shares among its levels: tilesets,
//! entities, layers and enums, each under its numeric identifier.

use vstd::prelude::*;
use crate::canvas::Rgba;
use crate::components::{optional_rectangle_of, TilesetRectangle};
use crate::layer::{layer_type_from_ldtk, layer_type_of, LayerType};
use crate::ldtk;
use crate::ldtk::TileRenderMode;
use crate::util::{
    anchor_from_ldtk, anchor_of, clone_numbers, clone_strings, clone_text, color_from_ldtk,
    color_of, text_of, texts, Anchor, AnchorIntoError, ColorParseError,
};

verus! {

/// A tag of an enum value, with the tiles that carry it.
pub struct EnumTagValue {
    pub enum_value_id: String,
    pub tile_ids: Vec<i64>,
}

impl EnumTagValue {
    /// Whether `self` holds what the record `value` holds.
    pub open spec fn mirrors(self, value: ldtk::EnumTagValue) -> bool {
        &&& self.enum_value_id@ == value.enum_value_id@
        &&& self.tile_ids@ == value.tile_ids@
    }

    /// Reads a tag record.
    pub fn new(value: &ldtk::EnumTagValue) -> (out: Self)
        ensures
            out.mirrors(*value),
    {
        EnumTagValue {
            enum_value_id: value.enum_value_id.clone(),
            tile_ids: clone_numbers(&value.tile_ids),
        }
    }
}

/// One value of an enum.
pub struct EnumValueDefinition {
    pub color: i64,
    pub id: String,
    pub tile_rect: Option<TilesetRectangle>,
}

impl EnumValueDefinition {
    /// Whether `self` holds what the record `value` holds.
    pub open spec fn mirrors(self, value: ldtk::EnumValueDefinition) -> bool {
        &&& self.color == value.color
        &&& self.id@ == value.id@
        &&& self.tile_rect == optional_rectangle_of(value.tile_rect)
    }

    /// Reads an enum value record.
    pub fn new(value: &ldtk::EnumValueDefinition) -> (out: Self)
        ensures
            out.mirrors(*value),
    {
        EnumValueDefinition {
            color: value.color,
            id: value.id.clone(),
            tile_rect: TilesetRectangle::optional(&value.tile_rect),
        }
    }
}

/// An enum of the project.
pub struct EnumDefinition {
    pub external_rel_path: Option<String>,
    pub icon_tileset_uid: Option<i64>,
    pub identifier: String,
    pub tags: Vec<String>,
    pub uid: i64,
    pub values: Vec<EnumValueDefinition>,
}

impl EnumDefinition {
    /// Whether `self` holds what the record `value` holds.
    pub open spec fn mirrors(self, value: ldtk::EnumDefinition) -> bool {
        &&& text_of(self.external_rel_path) == text_of(value.external_rel_path)
        &&& self.icon_tileset_uid == value.icon_tileset_uid
        &&& self.identifier@ == value.identifier@
        &&& texts(self.tags@) == texts(value.tags@)
        &&& self.uid == value.uid
        &&& self.values@.len() == value.values@.len()
        &&& forall|i: int|
            0 <= i < self.values@.len() ==> (#[trigger] self.values@[i]).mirrors(value.values@[i])
    }

    /// Reads an enum record.
    pub fn new(value: &ldtk::EnumDefinition) -> (out: Self)
        ensures
            out.mirrors(*value),
    {
        let mut values: Vec<EnumValueDefinition> = Vec::new();
        let mut i: usize = 0;
        while i < value.values.len()
            invariant
                i <= value.values.len(),
                values@.len() == i,
                forall|k: int| 0 <= k < i ==> (#[trigger] values@[k]).mirrors(value.values@[k]),
            decreases value.values.len() - i,
        {
            values.push(EnumValueDefinition::new(&value.values[i]));
            i += 1;
        }
        EnumDefinition {
            external_rel_path: clone_text(&value.external_rel_path),
            icon_tileset_uid: value.icon_tileset_uid,
            identifier: value.identifier.clone(),
            tags: clone_strings(&value.tags),
            uid: value.uid,
            values,
        }
    }
}

/// The definition of a kind of entity.
pub struct EntityDefinition {
    pub color: Rgba,
    /// Width and height, in pixels.
    pub size: (i64, i64),
    pub identifier: String,
    pub nine_slice_borders: Vec<i64>,
    pub anchor: Anchor,
    pub tile_rect: Option<TilesetRectangle>,
    pub tile_render_mode: TileRenderMode,
    pub tileset_id: Option<i64>,
    pub ui_tile_rect: Option<TilesetRectangle>,
    pub uid: i64,
}

/// Why an entity definition could not be read.
#[derive(Clone, Copy, Debug, PartialEq, Eq, Structural)]
pub enum EntityDefinitionFromError {
    ColorParseError(ColorParseError),
    AnchorIntoError(AnchorIntoError),
}

/// What is wrong with an entity definition record, if anything: its colour
/// is looked at first, then its pivot.
pub open spec fn entity_definition_fault(value: ldtk::EntityDefinition) -> Option<
    EntityDefinitionFromError,
> {
    if let Err(e) = color_of(value.color@) {
        Some(EntityDefinitionFromError::ColorParseError(e))
    } else if let Err(e) = anchor_of(seq![value.pivot_x, value.pivot_y]) {
        Some(EntityDefinitionFromError::AnchorIntoError(e))
    } else {
        None
    }
}

impl EntityDefinition {
    /// Whether `self` holds what the record `value` holds.
    pub open spec fn mirrors(self, value: ldtk::EntityDefinition) -> bool {
        &&& Ok::<Rgba, ColorParseError>(self.color) == color_of(value.color@)
        &&& self.size == (value.width, value.height)
        &&& self.identifier@ == value.identifier@
        &&& self.nine_slice_borders@ == value.nine_slice_borders@
        &&& Ok::<Anchor, AnchorIntoError>(self.anchor) == anchor_of(
            seq![value.pivot_x, value.pivot_y],
        )
        &&& self.tile_rect == optional_rectangle_of(value.tile_rect)
        &&& self.tile_render_mode == value.tile_render_mode
        &&& self.tileset_id == value.tileset_id
        &&& self.ui_tile_rect == optional_rectangle_of(value.ui_tile_rect)
        &&& self.uid == value.uid
    }

    /// Reads an entity definition record.
    pub fn new(value: &ldtk::EntityDefinition) -> (out: Result<Self, EntityDefinitionFromError>)
        ensures
            match out {
                Ok(def) => entity_definition_fault(*value) is None && def.mirrors(*value),
                Err(e) => entity_definition_fault(*value) == Some(e),
            },
    {
        let color = match color_from_ldtk(value.color.as_str()) {
            Ok(color) => color,
            Err(e) => { return Err(EntityDefinitionFromError::ColorParseError(e)); },
        };
        let mut pivot: Vec<i64> = Vec::new();
        pivot.push(value.pivot_x);
        pivot.push(value.pivot_y);
        assert(pivot@ =~= seq![value.pivot_x, value.pivot_y]);
        let anchor = match anchor_from_ldtk(&pivot) {
            Ok(anchor) => anchor,
            Err(e) => { return Err(EntityDefinitionFromError::AnchorIntoError(e)); },
        };
        Ok(
            EntityDefinition {
                color,
                size: (value.width, value.height),
                identifier: value.identifier.clone(),
                nine_slice_borders: clone_numbers(&value.nine_slice_borders),
                anchor,
                tile_rect: TilesetRectangle::optional(&value.tile_rect),
                tile_render_mode: value.tile_render_mode,
                tileset_id: value.tileset_id,
                ui_tile_rect: TilesetRectangle::optional(&value.ui_tile_rect),
                uid: value.uid,
            },
        )
    }
}

/// The definition of a kind of layer.
pub struct LayerDefinition {
    pub layer_type: LayerType,
    /// The opacity, in thousandths.
    pub display_opacity: i64,
    pub grid_size: i64,
    pub identifier: String,
    pub tileset_def_uid: Option<i64>,
    pub uid: i64,
}

/// Why a layer definition could not be read.
#[derive(Clone, Debug, PartialEq, Eq)]
pub enum LayerDefinitionFromError {
    /// The definition names a kind of layer that does not exist.
    UnknownLayerType(String),
}

impl LayerDefinition {
    /// Whether `self` holds what the record `value` holds.
    pub open spec fn mirrors(self, value: ldtk::LayerDefinition) -> bool {
        &&& Some(self.layer_type) == layer_type_of(value.layer_definition_type@)
        &&& self.display_opacity == value.display_opacity
        &&& self.grid_size == value.grid_size
        &&& self.identifier@ == value.identifier@
        &&& self.tileset_def_uid == value.tileset_def_uid
        &&& self.uid == value.uid
    }

    /// Reads a layer definition record; one of an unknown kind is refused,
    /// and the error carries the kind's name.
    pub fn new(value: &ldtk::LayerDefinition) -> (out: Result<Self, LayerDefinitionFromError>)
        ensures
            match out {
                Ok(def) => def.mirrors(*value),
                Err(LayerDefinitionFromError::UnknownLayerType(text)) => layer_type_of(
                    value.layer_definition_type@,
                ) is None && text@ == value.layer_definition_type@,
            },
    {
        let layer_type = match layer_type_from_ldtk(value.layer_definition_type.as_str()) {
            Some(layer_type) => layer_type,
            None => {
                return Err(
                    LayerDefinitionFromError::UnknownLayerType(value.layer_definition_type.clone()),
                );
            },
        };
        Ok(
            LayerDefinition {
                layer_type,
                display_opacity: value.display_opacity,
                grid_size: value.grid_size,
                identifier: value.identifier.clone(),
                tileset_def_uid: value.tileset_def_uid,
                uid: value.uid,
            },
        )
    }
}

/// The definition of a tileset.
pub struct TilesetDefinition {
    /// Columns and rows of tiles.
    pub grid_size: (i64, i64),
    pub enum_tags: Vec<EnumTagValue>,
    pub identifier: String,
    pub padding: i64,
    /// Width and height of the image, in pixels.
    pub size: (i64, i64),
    pub rel_path: Option<String>,
    pub spacing: i64,
    pub tags: Vec<String>,
    pub tags_source_enum_uid: Option<i64>,
    pub tile_grid_size: i64,
    pub uid: i64,
}

impl TilesetDefinition {
    /// Whether `self` holds what the record `value` holds.
    pub open spec fn mirrors(self, value: ldtk::TilesetDefinition) -> bool {
        &&& self.grid_size == (value.c_wid, value.c_hei)
        &&& self.enum_tags@.len() == value.enum_tags@.len()
        &&& forall|i: int|
            0 <= i < self.enum_tags@.len() ==> (#[trigger] self.enum_tags@[i]).mirrors(
                value.enum_tags@[i],
            )
        &&& self.identifier@ == value.identifier@
        &&& self.padding == value.padding
        &&& self.size == (value.px_wid, value.px_hei)
        &&& text_of(self.rel_path) == text_of(value.rel_path)
        &&& self.spacing == value.spacing
        &&& texts(self.tags@) == texts(value.tags@)
        &&& self.tags_source_enum_uid == value.tags_source_enum_uid
        &&& self.tile_grid_size == value.tile_grid_size
        &&& self.uid == value.uid
    }

    /// Reads a tileset record.
    pub fn new(value: &ldtk::TilesetDefinition) -> (out: Self)
        ensures
            out.mirrors(*value),
    {
        let mut enum_tags: Vec<EnumTagValue> = Vec::new();
        let mut i: usize = 0;
        while i < value.enum_tags.len()
            invariant
                i <= value.enum_tags.len(),
                enum_tags@.len() == i,
                forall|k: int|
                    0 <= k < i ==> (#[trigger] enum_tags@[k]).mirrors(value.enum_tags@[k]),
            decreases value.enum_tags.len() - i,
        {
            enum_tags.push(EnumTagValue::new(&value.enum_tags[i]));
            i += 1;
        }
        TilesetDefinition {
            grid_size: (value.c_wid, value.c_hei),
            enum_tags,
            identifier: value.identifier.clone(),
            padding: value.padding,
            size: (value.px_wid, value.px_hei),
            rel_path: clone_text(&value.rel_path),
            spacing: value.spacing,
            tags: clone_strings(&value.tags),
            tags_source_enum_uid: value.tags_source_enum_uid,
            tile_grid_size: value.tile_grid_size,
            uid: value.uid,
        }
    }
}

/// A reference from a field to an entity, by the stable identifiers of the
/// entity and of what holds it.
pub struct ReferenceToAnEntityInstance {
    pub entity_iid: String,
    pub layer_iid: String,
    pub level_iid: String,
    pub world_iid: String,
}

impl ReferenceToAnEntityInstance {
    /// Whether `self` holds what the record `value` holds.
    pub open spec fn mirrors(self, value: ldtk::ReferenceToAnEntityInstance) -> bool {
        &&& self.entity_iid@ == value.entity_iid@
        &&& self.layer_iid@ == value.layer_iid@
        &&& self.level_iid@ == value.level_iid@
        &&& self.world_iid@ == value.world_iid@
    }

    /// Reads a reference record.
    pub fn new(value: &ldtk::ReferenceToAnEntityInstance) -> (out: Self)
        ensures
            out.mirrors(*value),
    {
        ReferenceToAnEntityInstance {
            entity_iid: value.entity_iid.clone(),
            layer_iid: value.layer_iid.clone(),
            level_iid: value.level_iid.clone(),
            world_iid: value.world_iid.clone(),
        }
    }
}

} // verus!
