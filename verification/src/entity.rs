//! The document node of an entity.

use vstd::prelude::*;
use crate::canvas::Rgba;
use crate::components::{
    fields_from_ldtk, fields_mirror, optional_rectangle_of, FieldInstance, TilesetRectangle,
};
use crate::ldtk;
use crate::util::{
    anchor_from_ldtk, anchor_of, clone_strings, color_from_ldtk, color_of, texts, Anchor,
    AnchorIntoError, ColorParseError,
};

verus! {

/// Why something about an entity failed.
#[derive(Clone, Copy, Debug, PartialEq, Eq, Structural)]
pub enum EntityAssetError {
    ColorParseError(ColorParseError),
    AnchorIntoError(AnchorIntoError),
    /// One world coordinate is given and the other is not.
    WorldCoordMixedOption,
    /// The entity's document node is not there.
    BadHandle,
    /// No project carries the identifier that the entity names.
    BadIid,
    /// The project has no tileset under the number that the entity names.
    BadTilesetUid,
    /// The tileset has no image.
    MissingTilesetPath,
    /// The project does not know the path of the tileset's image.
    BadTilesetPath,
    /// A coordinate of the entity cannot be represented.
    OutOfRange,
}

/// The document node of an entity.
pub struct EntityAsset {
    /// Column and row of the entity's cell.
    pub grid: (i64, i64),
    pub identifier: String,
    pub anchor: Anchor,
    pub smart_color: Rgba,
    pub tags: Vec<String>,
    /// The part of a tileset that the entity shows; without one it shows
    /// nothing.
    pub tile: Option<TilesetRectangle>,
    /// Where the entity lies in the world; only projects of several worlds
    /// say so.
    pub world_location: Option<(i64, i64)>,
    pub def_uid: i64,
    pub field_instances: Vec<FieldInstance>,
    /// Width and height, in pixels.
    pub size: (i64, i64),
    pub iid: String,
    /// Where the entity lies in its layer, in pixels: to the right,
    /// upwards, and in depth. The file counts downwards.
    pub location: (i64, i64, i64),
    /// The stable identifier of the project that the entity belongs to.
    pub project_iid: String,
}

/// Where an entity lies in the world, if the record says so with both
/// coordinates or with none.
pub open spec fn world_location_of(x: Option<i64>, y: Option<i64>) -> Result<
    Option<(i64, i64)>,
    EntityAssetError,
> {
    match (x, y) {
        (None, None) => Ok(None),
        (Some(x), Some(y)) => Ok(Some((x, y))),
        _ => Err(EntityAssetError::WorldCoordMixedOption),
    }
}

/// What is wrong with an entity record, if anything. The pivot is looked
/// at first, then the colour, the world coordinates and the position.
pub open spec fn entity_fault(value: ldtk::EntityInstance) -> Option<EntityAssetError> {
    if let Err(e) = anchor_of(value.pivot@) {
        Some(EntityAssetError::AnchorIntoError(e))
    } else if let Err(e) = color_of(value.smart_color@) {
        Some(EntityAssetError::ColorParseError(e))
    } else if let Err(e) = world_location_of(value.world_x, value.world_y) {
        Some(e)
    } else if value.px.1 == i64::MIN {
        Some(EntityAssetError::OutOfRange)
    } else {
        None
    }
}

impl EntityAsset {
    /// Whether `self` is the node of the record `value` in the project
    /// `project_iid`.
    pub open spec fn mirrors(self, value: ldtk::EntityInstance, project_iid: Seq<char>) -> bool {
        &&& self.grid == value.grid
        &&& self.identifier@ == value.identifier@
        &&& Ok::<Anchor, AnchorIntoError>(self.anchor) == anchor_of(value.pivot@)
        &&& Ok::<Rgba, ColorParseError>(self.smart_color) == color_of(value.smart_color@)
        &&& texts(self.tags@) == texts(value.tags@)
        &&& self.tile == optional_rectangle_of(value.tile)
        &&& Ok::<Option<(i64, i64)>, EntityAssetError>(self.world_location) == world_location_of(
            value.world_x,
            value.world_y,
        )
        &&& self.def_uid == value.def_uid
        &&& fields_mirror(self.field_instances@, value.field_instances@)
        &&& self.size == (value.width, value.height)
        &&& self.iid@ == value.iid@
        &&& self.location.0 == value.px.0
        &&& self.location.1 == -value.px.1
        &&& self.location.2 == 0
        &&& self.project_iid@ == project_iid
    }

    /// Reads an entity record of the project `project_iid`.
    pub fn new(value: &ldtk::EntityInstance, project_iid: String) -> (out: Result<
        Self,
        EntityAssetError,
    >)
        ensures
            match out {
                Ok(entity) => entity_fault(*value) is None && entity.mirrors(*value, project_iid@),
                Err(e) => entity_fault(*value) == Some(e),
            },
    {
        let anchor = match anchor_from_ldtk(&value.pivot) {
            Ok(anchor) => anchor,
            Err(e) => { return Err(EntityAssetError::AnchorIntoError(e)); },
        };
        let smart_color = match color_from_ldtk(value.smart_color.as_str()) {
            Ok(color) => color,
            Err(e) => { return Err(EntityAssetError::ColorParseError(e)); },
        };
        let world_location = match (value.world_x, value.world_y) {
            (None, None) => None,
            (Some(x), Some(y)) => Some((x, y)),
            _ => { return Err(EntityAssetError::WorldCoordMixedOption); },
        };
        if value.px.1 == i64::MIN {
            return Err(EntityAssetError::OutOfRange);
        }
        Ok(
            EntityAsset {
                grid: value.grid,
                identifier: value.identifier.clone(),
                anchor,
                smart_color,
                tags: clone_strings(&value.tags),
                tile: TilesetRectangle::optional(&value.tile),
                world_location,
                def_uid: value.def_uid,
                field_instances: fields_from_ldtk(&value.field_instances),
                size: (value.width, value.height),
                iid: value.iid.clone(),
                location: (value.px.0, -value.px.1, 0),
                project_iid,
            },
        )
    }

}

} // verus!
