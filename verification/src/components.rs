//! The facets that scene nodes carry.

use vstd::prelude::*;
use crate::ldtk;
use crate::tiles::TileInstance;

verus! {

/// The stable identifier that a scene node is tagged with.
pub struct Iid(pub String);

/// The tiles of a tile layer, in paint order.
pub struct Tiles {
    pub tiles: Vec<TileInstance>,
}

/// The rectangle of a tileset that an entity shows.
#[derive(Clone, Copy, Debug, PartialEq, Eq)]
pub struct TilesetRectangle {
    /// Left and top edge, in pixels of the tileset.
    pub location: (i64, i64),
    /// Width and height, in pixels.
    pub size: (i64, i64),
    pub tileset_uid: i64,
}

/// What a rectangle record means.
pub open spec fn rectangle_of(value: ldtk::TilesetRectangle) -> TilesetRectangle {
    TilesetRectangle {
        location: (value.x, value.y),
        size: (value.w, value.h),
        tileset_uid: value.tileset_uid,
    }
}

/// What an optional rectangle record means.
pub open spec fn optional_rectangle_of(value: Option<ldtk::TilesetRectangle>) -> Option<
    TilesetRectangle,
> {
    match value {
        Some(value) => Some(rectangle_of(value)),
        None => None,
    }
}

impl TilesetRectangle {
    /// Reads a rectangle record.
    pub fn new(value: &ldtk::TilesetRectangle) -> (out: Self)
        ensures
            out == rectangle_of(*value),
    {
        TilesetRectangle {
            location: (value.x, value.y),
            size: (value.w, value.h),
            tileset_uid: value.tileset_uid,
        }
    }

    /// Reads a rectangle record, where there is one.
    pub fn optional(value: &Option<ldtk::TilesetRectangle>) -> (out: Option<Self>)
        ensures
            out == optional_rectangle_of(*value),
    {
        match value {
            Some(value) => Some(TilesetRectangle::new(value)),
            None => None,
        }
    }
}

/// What a tile record means: bit 0 of its flip bits mirrors it left to
/// right, bit 1 top to bottom.
pub open spec fn tile_of(value: ldtk::TileInstance) -> TileInstance {
    TileInstance {
        px_x: value.px.0,
        px_y: value.px.1,
        src_x: value.src.0,
        src_y: value.src.1,
        flip_x: value.f & 1 != 0,
        flip_y: value.f & 2 != 0,
        tile_id: value.t,
    }
}

/// What a list of tile records means, in its order.
pub open spec fn tiles_of(values: Seq<ldtk::TileInstance>) -> Seq<TileInstance> {
    values.map_values(|value: ldtk::TileInstance| tile_of(value))
}

/// Reads a tile record.
pub fn tile_from_ldtk(value: &ldtk::TileInstance) -> (out: TileInstance)
    ensures
        out == tile_of(*value),
{
    TileInstance {
        px_x: value.px.0,
        px_y: value.px.1,
        src_x: value.src.0,
        src_y: value.src.1,
        flip_x: value.f & 1 != 0,
        flip_y: value.f & 2 != 0,
        tile_id: value.t,
    }
}

/// Reads a list of tile records, keeping its order.
pub fn tiles_from_ldtk(values: &Vec<ldtk::TileInstance>) -> (out: Vec<TileInstance>)
    ensures
        out@ == tiles_of(values@),
{
    let mut out: Vec<TileInstance> = Vec::new();
    let mut i: usize = 0;
    while i < values.len()
        invariant
            i <= values.len(),
            out@.len() == i,
            forall|k: int| 0 <= k < i ==> out@[k] == tile_of(values@[k]),
        decreases values.len() - i,
    {
        out.push(tile_from_ldtk(&values[i]));
        i += 1;
    }
    assert(out@ =~= tiles_of(values@));
    out
}

/// The value of a custom field.
pub struct FieldInstance {
    pub identifier: String,
    /// The name of the field's type.
    pub field_type: String,
    /// The value, as the text of the file spells it.
    pub value: String,
    pub def_uid: i64,
    pub tile: Option<TilesetRectangle>,
}

impl FieldInstance {
    /// Whether `self` holds what the record `value` holds.
    pub open spec fn mirrors(self, value: ldtk::FieldInstance) -> bool {
        &&& self.identifier@ == value.identifier@
        &&& self.field_type@ == value.field_instance_type@
        &&& self.value@ == value.value@
        &&& self.def_uid == value.def_uid
        &&& self.tile == optional_rectangle_of(value.tile)
    }

    /// Reads a field record.
    pub fn new(value: &ldtk::FieldInstance) -> (out: Self)
        ensures
            out.mirrors(*value),
    {
        FieldInstance {
            identifier: value.identifier.clone(),
            field_type: value.field_instance_type.clone(),
            value: value.value.clone(),
            def_uid: value.def_uid,
            tile: TilesetRectangle::optional(&value.tile),
        }
    }
}

/// Whether the fields `fields` hold, one for one, what the records `values`
/// hold.
pub open spec fn fields_mirror(fields: Seq<FieldInstance>, values: Seq<ldtk::FieldInstance>) -> bool {
    &&& fields.len() == values.len()
    &&& forall|i: int| 0 <= i < fields.len() ==> (#[trigger] fields[i]).mirrors(values[i])
}

/// Reads a list of field records, keeping its order.
pub fn fields_from_ldtk(values: &Vec<ldtk::FieldInstance>) -> (out: Vec<FieldInstance>)
    ensures
        fields_mirror(out@, values@),
{
    let mut out: Vec<FieldInstance> = Vec::new();
    let mut i: usize = 0;
    while i < values.len()
        invariant
            i <= values.len(),
            out@.len() == i,
            forall|k: int| 0 <= k < i ==> (#[trigger] out@[k]).mirrors(values@[k]),
        decreases values.len() - i,
    {
        out.push(FieldInstance::new(&values[i]));
        i += 1;
    }
    out
}

/// The custom fields of a level or an entity.
pub struct FieldInstances {
    pub field_instances: Vec<FieldInstance>,
}

} // verus!
