//! Layers: the kinds there are, and the document node of a layer.

use vstd::prelude::*;
use crate::ldtk;
use crate::tiles::{BuildImageFromTilesError, TileInstance};
use crate::util::{clone_numbers, clone_strings, clone_text, text_of, texts};

verus! {

/// Why something about a layer failed.
#[derive(Clone, Debug, PartialEq, Eq)]
pub enum LayerAssetError {
    /// The layer's image could not be painted.
    BuildImageFromTilesError(BuildImageFromTilesError),
    /// The file names a kind of layer that does not exist.
    UnknownLayerType(String),
    /// The layer's document node is not there.
    BadHandle,
    /// No project carries the identifier that the layer names.
    BadIid,
    /// The project does not know the layer's tileset path.
    BadTilesetPath,
    /// The tileset's image is not there.
    BadTilesetHandle,
    /// A coordinate or depth of the layer cannot be represented.
    OutOfRange,
}

/// What a [`LayerAssetError`] says, with the text it carries.
pub enum LayerFault {
    BuildImageFromTilesError(BuildImageFromTilesError),
    UnknownLayerType(Seq<char>),
    BadHandle,
    BadIid,
    BadTilesetPath,
    BadTilesetHandle,
    OutOfRange,
}

impl View for LayerAssetError {
    type V = LayerFault;

    open spec fn view(&self) -> LayerFault {
        match *self {
            LayerAssetError::BuildImageFromTilesError(e) => LayerFault::BuildImageFromTilesError(e),
            LayerAssetError::UnknownLayerType(text) => LayerFault::UnknownLayerType(text@),
            LayerAssetError::BadHandle => LayerFault::BadHandle,
            LayerAssetError::BadIid => LayerFault::BadIid,
            LayerAssetError::BadTilesetPath => LayerFault::BadTilesetPath,
            LayerAssetError::BadTilesetHandle => LayerFault::BadTilesetHandle,
            LayerAssetError::OutOfRange => LayerFault::OutOfRange,
        }
    }
}

/// The kinds of layer.
#[derive(Clone, Copy, Debug, PartialEq, Eq, Structural)]
pub enum LayerType {
    IntGrid,
    Entities,
    Tiles,
    Autolayer,
}

/// The kind of layer that `text` names, if it names one.
pub open spec fn layer_type_of(text: Seq<char>) -> Option<LayerType> {
    if text == "IntGrid"@ {
        Some(LayerType::IntGrid)
    } else if text == "Entities"@ {
        Some(LayerType::Entities)
    } else if text == "Tiles"@ {
        Some(LayerType::Tiles)
    } else if text == "AutoLayer"@ {
        Some(LayerType::Autolayer)
    } else {
        None
    }
}

/// The kind of layer that `text` names, if it names one.
pub fn layer_type_from_ldtk(text: &str) -> (out: Option<LayerType>)
    ensures
        out == layer_type_of(text@),
{
    let text = text.to_owned();
    if text == "IntGrid".to_owned() {
        Some(LayerType::IntGrid)
    } else if text == "Entities".to_owned() {
        Some(LayerType::Entities)
    } else if text == "Tiles".to_owned() {
        Some(LayerType::Tiles)
    } else if text == "AutoLayer".to_owned() {
        Some(LayerType::Autolayer)
    } else {
        None
    }
}

impl LayerType {
    /// Reads the name of a kind of layer. Any other text is refused, and
    /// the error carries it.
    pub fn new(ldtk_type: &str) -> (out: Result<LayerType, LayerAssetError>)
        ensures
            match out {
                Ok(kind) => layer_type_of(ldtk_type@) == Some(kind),
                Err(LayerAssetError::UnknownLayerType(text)) => layer_type_of(ldtk_type@) is None
                    && text@ == ldtk_type@,
                Err(_) => false,
            },
    {
        match layer_type_from_ldtk(ldtk_type) {
            Some(kind) => Ok(kind),
            None => Err(LayerAssetError::UnknownLayerType(ldtk_type.to_owned())),
        }
    }
}

/// The document node of a layer.
pub struct LayerAsset {
    /// Columns and rows of cells.
    pub grid_size: (i64, i64),
    /// The side of a cell, in pixels.
    pub grid_cell_size: i64,
    pub identifier: String,
    /// The opacity, in thousandths.
    pub opacity: i64,
    /// The layer's total offset in pixels, to the right and upwards.
    pub px_total_offset: (i64, i64),
    pub tileset_def_uid: Option<i64>,
    pub tileset_rel_path: Option<String>,
    pub layer_type: LayerType,
    pub iid: String,
    pub int_grid_csv: Vec<i64>,
    /// The tiles of a tile layer, in paint order; empty for an entity
    /// layer.
    pub tiles: Vec<TileInstance>,
    pub layer_def_uid: i64,
    pub level_id: i64,
    pub override_tileset_uid: Option<i64>,
    /// Where the layer lies in its level: to the right, upwards, and in
    /// depth, the depth in thousandths.
    pub location: (i64, i64, i64),
    pub visible: bool,
    /// The layer's place among the layers of its level, from the back.
    pub index: usize,
    /// The stable identifiers of the layer's entities, in file order; empty
    /// for a tile layer.
    pub entity_iids: Vec<String>,
    /// The stable identifier of the project that the layer belongs to.
    pub project_iid: String,
}

/// The depth of the layer with place `index` from the back, in thousandths:
/// the layers of a level lie `layer_separation` apart, and the first lies
/// two steps in front of the level.
pub open spec fn layer_depth(index: int, layer_separation: int) -> int {
    (index + 2) * layer_separation
}

/// Whether the node of a layer record with place `index` can be made: its
/// offsets can be turned upwards and its depth can be represented.
pub open spec fn layer_in_range(value: ldtk::LayerInstance, index: int, layer_separation: int) -> bool {
    &&& value.px_total_offset_y != i64::MIN
    &&& value.px_offset_y != i64::MIN
    &&& i64::MIN <= layer_depth(index, layer_separation) <= i64::MAX
}

impl LayerAsset {
    /// Whether `self` is the node of the record `value` with what was made
    /// of its contents.
    pub open spec fn mirrors(
        self,
        value: ldtk::LayerInstance,
        index: int,
        layer_type: LayerType,
        tiles: Seq<TileInstance>,
        entity_iids: Seq<Seq<char>>,
        layer_separation: int,
        project_iid: Seq<char>,
    ) -> bool {
        &&& self.grid_size == (value.c_wid, value.c_hei)
        &&& self.grid_cell_size == value.grid_size
        &&& self.identifier@ == value.identifier@
        &&& self.opacity == value.opacity
        &&& self.px_total_offset.0 == value.px_total_offset_x
        &&& self.px_total_offset.1 == -value.px_total_offset_y
        &&& self.tileset_def_uid == value.tileset_def_uid
        &&& text_of(self.tileset_rel_path) == text_of(value.tileset_rel_path)
        &&& self.layer_type == layer_type
        &&& self.iid@ == value.iid@
        &&& self.int_grid_csv@ == value.int_grid_csv@
        &&& self.tiles@ == tiles
        &&& self.layer_def_uid == value.layer_def_uid
        &&& self.level_id == value.level_id
        &&& self.override_tileset_uid == value.override_tileset_uid
        &&& self.location.0 == value.px_offset_x
        &&& self.location.1 == -value.px_offset_y
        &&& self.location.2 == layer_depth(index, layer_separation)
        &&& self.visible == value.visible
        &&& self.index == index
        &&& texts(self.entity_iids@) == entity_iids
        &&& self.project_iid@ == project_iid
    }

    /// Makes the node of a layer record. `index` is the layer's place from
    /// the back among the layers of its level, `layer_separation` the depth
    /// between two layers in thousandths; `tiles` and `entity_iids` are
    /// what was made of the record's contents.
    pub fn new(
        value: &ldtk::LayerInstance,
        index: usize,
        layer_type: LayerType,
        tiles: Vec<TileInstance>,
        entity_iids: Vec<String>,
        layer_separation: i64,
        project_iid: String,
    ) -> (out: Result<Self, LayerAssetError>)
        ensures
            match out {
                Ok(layer) => layer_in_range(*value, index as int, layer_separation as int)
                    && layer.mirrors(
                    *value,
                    index as int,
                    layer_type,
                    tiles@,
                    texts(entity_iids@),
                    layer_separation as int,
                    project_iid@,
                ),
                Err(LayerAssetError::OutOfRange) => !layer_in_range(
                    *value,
                    index as int,
                    layer_separation as int,
                ),
                Err(_) => false,
            },
    {
        if value.px_total_offset_y == i64::MIN || value.px_offset_y == i64::MIN {
            return Err(LayerAssetError::OutOfRange);
        }
        let depth = match place_depth(index, layer_separation) {
            Some(depth) => depth,
            None => { return Err(LayerAssetError::OutOfRange); },
        };
        Ok(
            LayerAsset {
                grid_size: (value.c_wid, value.c_hei),
                grid_cell_size: value.grid_size,
                identifier: value.identifier.clone(),
                opacity: value.opacity,
                px_total_offset: (value.px_total_offset_x, -value.px_total_offset_y),
                tileset_def_uid: value.tileset_def_uid,
                tileset_rel_path: clone_text(&value.tileset_rel_path),
                layer_type,
                iid: value.iid.clone(),
                int_grid_csv: clone_numbers(&value.int_grid_csv),
                tiles,
                layer_def_uid: value.layer_def_uid,
                level_id: value.level_id,
                override_tileset_uid: value.override_tileset_uid,
                location: (value.px_offset_x, -value.px_offset_y, depth),
                visible: value.visible,
                index,
                entity_iids,
                project_iid,
            },
        )
    }


    /// The stable identifiers of the layer's entities, in file order.
    pub fn children(&self) -> (out: Vec<String>)
        ensures
            texts(out@) == texts(self.entity_iids@),
    {
        clone_strings(&self.entity_iids)
    }
}

/// The depth of the layer with place `index`, where it can be represented.
pub fn place_depth(index: usize, layer_separation: i64) -> (out: Option<i64>)
    ensures
        out is Some == (i64::MIN <= layer_depth(index as int, layer_separation as int)
            <= i64::MAX),
        out is Some ==> out.unwrap() == layer_depth(index as int, layer_separation as int),
{
    if layer_separation == 0 {
        assert(layer_depth(index as int, 0) == 0) by (nonlinear_arith);
        return Some(0);
    }
    let wide: u64 = index as u64;
    if wide >= 0x8000_0000_0000_0000 {
        let ghost steps = index as int + 2;
        let ghost apart = layer_separation as int;
        assert(steps * apart > 0x7fff_ffff_ffff_ffff || steps * apart < -0x8000_0000_0000_0000)
            by (nonlinear_arith)
            requires
                steps > 0x8000_0000_0000_0000,
                apart != 0,
        ;
        return None;
    }
    let steps: i128 = wide as i128 + 2;
    let apart: i128 = layer_separation as i128;
    assert(-0x8000_0000_0000_0002 * 0x8000_0000_0000_0000 <= steps * apart
        <= 0x8000_0000_0000_0002 * 0x8000_0000_0000_0000) by (nonlinear_arith)
        requires
            0 <= steps <= 0x8000_0000_0000_0002,
            -0x8000_0000_0000_0000 <= apart <= 0x8000_0000_0000_0000,
    ;
    let depth: i128 = steps * apart;
    if depth < -0x8000_0000_0000_0000 || depth > 0x7fff_ffff_ffff_ffff {
        None
    } else {
        Some(depth as i64)
    }
}

} // verus!
