//! The document node of a level.

use vstd::prelude::*;
use crate::background::{LevelBackgroundError, LevelBackgroundPosition};
use crate::canvas::Rgba;
use crate::components::{fields_from_ldtk, fields_mirror, FieldInstance};
use crate::ldtk;
use crate::util::{
    clone_strings, clone_text, color_from_ldtk, color_of, text_of, texts, ColorParseError,
};

verus! {

/// Where a neighbour of a level lies.
#[derive(Clone, Copy, Debug, PartialEq, Eq, Structural)]
pub enum NeighbourDirection {
    North,
    South,
    West,
    East,
    NorthWest,
    NorthEast,
    SouthWest,
    SouthEast,
    /// At a lower depth.
    Below,
    /// At a greater depth.
    Above,
    /// At the same depth, overlapping.
    Overlap,
}

/// Why a neighbour could not be read.
#[derive(Clone, Copy, Debug, PartialEq, Eq, Structural)]
pub enum NeighbourError {
    /// The record names a direction that does not exist.
    UnknownDirection,
}

/// A level next to a level.
pub struct Neighbour {
    pub dir: NeighbourDirection,
    /// The stable identifier of the neighbour.
    pub level_iid: String,
}

/// The direction that `text` names, if it names one.
pub open spec fn direction_of(text: Seq<char>) -> Option<NeighbourDirection> {
    if text == "n"@ {
        Some(NeighbourDirection::North)
    } else if text == "s"@ {
        Some(NeighbourDirection::South)
    } else if text == "w"@ {
        Some(NeighbourDirection::West)
    } else if text == "e"@ {
        Some(NeighbourDirection::East)
    } else if text == "nw"@ {
        Some(NeighbourDirection::NorthWest)
    } else if text == "ne"@ {
        Some(NeighbourDirection::NorthEast)
    } else if text == "sw"@ {
        Some(NeighbourDirection::SouthWest)
    } else if text == "se"@ {
        Some(NeighbourDirection::SouthEast)
    } else if text == "<"@ {
        Some(NeighbourDirection::Below)
    } else if text == ">"@ {
        Some(NeighbourDirection::Above)
    } else if text == "o"@ {
        Some(NeighbourDirection::Overlap)
    } else {
        None
    }
}

/// Reads the name of a direction.
pub fn direction_from_ldtk(text: &str) -> (out: Option<NeighbourDirection>)
    ensures
        out == direction_of(text@),
{
    let text = text.to_owned();
    if text == "n".to_owned() {
        Some(NeighbourDirection::North)
    } else if text == "s".to_owned() {
        Some(NeighbourDirection::South)
    } else if text == "w".to_owned() {
        Some(NeighbourDirection::West)
    } else if text == "e".to_owned() {
        Some(NeighbourDirection::East)
    } else if text == "nw".to_owned() {
        Some(NeighbourDirection::NorthWest)
    } else if text == "ne".to_owned() {
        Some(NeighbourDirection::NorthEast)
    } else if text == "sw".to_owned() {
        Some(NeighbourDirection::SouthWest)
    } else if text == "se".to_owned() {
        Some(NeighbourDirection::SouthEast)
    } else if text == "<".to_owned() {
        Some(NeighbourDirection::Below)
    } else if text == ">".to_owned() {
        Some(NeighbourDirection::Above)
    } else if text == "o".to_owned() {
        Some(NeighbourDirection::Overlap)
    } else {
        None
    }
}

impl Neighbour {
    /// Whether `self` holds what the record `value` holds.
    pub open spec fn mirrors(self, value: ldtk::NeighbourLevel) -> bool {
        &&& Some(self.dir) == direction_of(value.dir@)
        &&& self.level_iid@ == value.level_iid@
    }

    /// Reads a neighbour record.
    pub fn new(value: &ldtk::NeighbourLevel) -> (out: Result<Self, NeighbourError>)
        ensures
            match out {
                Ok(neighbour) => neighbour.mirrors(*value),
                Err(_) => direction_of(value.dir@) is None,
            },
    {
        match direction_from_ldtk(value.dir.as_str()) {
            Some(dir) => Ok(Neighbour { dir, level_iid: value.level_iid.clone() }),
            None => Err(NeighbourError::UnknownDirection),
        }
    }
}

/// Whether every record of `values` names a direction.
pub open spec fn neighbours_readable(values: Seq<ldtk::NeighbourLevel>) -> bool {
    forall|i: int| 0 <= i < values.len() ==> direction_of((#[trigger] values[i]).dir@) is Some
}

/// Whether the neighbours `neighbours` hold, one for one, what the records
/// `values` hold.
pub open spec fn neighbours_mirror(neighbours: Seq<Neighbour>, values: Seq<ldtk::NeighbourLevel>) -> bool {
    &&& neighbours.len() == values.len()
    &&& forall|i: int| 0 <= i < neighbours.len() ==> (#[trigger] neighbours[i]).mirrors(values[i])
}

/// Reads a list of neighbour records, keeping its order.
pub fn neighbours_from_ldtk(values: &Vec<ldtk::NeighbourLevel>) -> (out: Result<
    Vec<Neighbour>,
    NeighbourError,
>)
    ensures
        match out {
            Ok(neighbours) => neighbours_readable(values@) && neighbours_mirror(
                neighbours@,
                values@,
            ),
            Err(_) => !neighbours_readable(values@),
        },
{
    let mut out: Vec<Neighbour> = Vec::new();
    let mut i: usize = 0;
    while i < values.len()
        invariant
            i <= values.len(),
            out@.len() == i,
            forall|k: int| 0 <= k < i ==> (#[trigger] out@[k]).mirrors(values@[k]),
            forall|k: int| 0 <= k < i ==> direction_of((#[trigger] values@[k]).dir@) is Some,
        decreases values.len() - i,
    {
        match Neighbour::new(&values[i]) {
            Ok(neighbour) => {
                out.push(neighbour);
            },
            Err(e) => {
                assert(direction_of(values@[i as int].dir@) is None);
                return Err(e);
            },
        }
        i += 1;
    }
    Ok(out)
}

/// The whole pixels in `thousandths` of a pixel, where they are not
/// negative and not more than an image can have.
pub open spec fn whole_pixels(thousandths: int) -> Option<u32> {
    if 0 <= thousandths && thousandths / 1000 <= u32::MAX {
        Some((thousandths / 1000) as u32)
    } else {
        None
    }
}

/// The whole pixels of `length` thousandths of a pixel scaled by `scale`
/// thousandths, where neither is negative and the result is not more than
/// an image can have.
pub open spec fn scaled_pixels(length: int, scale: int) -> Option<u32> {
    if 0 <= length && 0 <= scale && (length * scale) / 1_000_000 <= u32::MAX {
        Some(((length * scale) / 1_000_000) as u32)
    } else {
        None
    }
}

/// What a background position record means, if its numbers can be pixels
/// of an image.
pub open spec fn background_position_of(value: ldtk::LevelBackgroundPosition) -> Option<
    LevelBackgroundPosition,
> {
    if whole_pixels(value.crop_rect.0 as int) is Some && whole_pixels(value.crop_rect.1 as int)
        is Some && whole_pixels(value.crop_rect.2 as int) is Some && whole_pixels(
        value.crop_rect.3 as int,
    ) is Some && scaled_pixels(value.crop_rect.2 as int, value.scale.0 as int) is Some
        && scaled_pixels(value.crop_rect.3 as int, value.scale.1 as int) is Some {
        Some(
            LevelBackgroundPosition {
                crop_x: whole_pixels(value.crop_rect.0 as int).unwrap(),
                crop_y: whole_pixels(value.crop_rect.1 as int).unwrap(),
                crop_width: whole_pixels(value.crop_rect.2 as int).unwrap(),
                crop_height: whole_pixels(value.crop_rect.3 as int).unwrap(),
                scaled_width: scaled_pixels(value.crop_rect.2 as int, value.scale.0 as int).unwrap(),
                scaled_height: scaled_pixels(
                    value.crop_rect.3 as int,
                    value.scale.1 as int,
                ).unwrap(),
                left: value.top_left_px.0,
                top: value.top_left_px.1,
            },
        )
    } else {
        None
    }
}

/// The whole pixels in `thousandths` of a pixel.
pub fn pixels_from_ldtk(thousandths: i64) -> (out: Option<u32>)
    ensures
        out == whole_pixels(thousandths as int),
{
    if thousandths < 0 {
        return None;
    }
    let whole: i64 = thousandths / 1000;
    if whole > 0xffff_ffff {
        None
    } else {
        Some(whole as u32)
    }
}

/// The whole pixels of `length` thousandths of a pixel scaled by `scale`
/// thousandths.
pub fn scaled_from_ldtk(length: i64, scale: i64) -> (out: Option<u32>)
    ensures
        out == scaled_pixels(length as int, scale as int),
{
    if length < 0 || scale < 0 {
        return None;
    }
    assert(0 <= length * scale <= 0x7fff_ffff_ffff_ffff * 0x7fff_ffff_ffff_ffff)
        by (nonlinear_arith)
        requires
            0 <= length <= 0x7fff_ffff_ffff_ffff,
            0 <= scale <= 0x7fff_ffff_ffff_ffff,
    ;
    let product: i128 = (length as i128) * (scale as i128);
    let whole: i128 = product / 1_000_000;
    if whole > 0xffff_ffff {
        None
    } else {
        Some(whole as u32)
    }
}

/// Reads a background position record.
pub fn background_position_from_ldtk(value: &ldtk::LevelBackgroundPosition) -> (out: Option<
    LevelBackgroundPosition,
>)
    ensures
        out == background_position_of(*value),
{
    let crop_x = pixels_from_ldtk(value.crop_rect.0);
    let crop_y = pixels_from_ldtk(value.crop_rect.1);
    let crop_width = pixels_from_ldtk(value.crop_rect.2);
    let crop_height = pixels_from_ldtk(value.crop_rect.3);
    let scaled_width = scaled_from_ldtk(value.crop_rect.2, value.scale.0);
    let scaled_height = scaled_from_ldtk(value.crop_rect.3, value.scale.1);
    match (crop_x, crop_y, crop_width, crop_height, scaled_width, scaled_height) {
        (
            Some(crop_x),
            Some(crop_y),
            Some(crop_width),
            Some(crop_height),
            Some(scaled_width),
            Some(scaled_height),
        ) => Some(
            LevelBackgroundPosition {
                crop_x,
                crop_y,
                crop_width,
                crop_height,
                scaled_width,
                scaled_height,
                left: value.top_left_px.0,
                top: value.top_left_px.1,
            },
        ),
        _ => None,
    }
}

/// Why something about a level failed.
#[derive(Clone, Copy, Debug, PartialEq, Eq, Structural)]
pub enum LevelAssetError {
    ColorParseError(ColorParseError),
    NeighbourError(NeighbourError),
    /// The level's document node is not there.
    BadHandle,
    /// A background position is given without a background image.
    BgPosWithBgRelPathNone,
    /// A background image is given without a background position.
    BgPosNoneWithBgRelPath,
    /// The project does not know the path of the background image.
    BgRelPathNotFound,
    /// No project carries the identifier that the level names.
    BadProjectIid,
    /// The numbers of the background position cannot be pixels of an image.
    BadBackgroundPosition,
    /// The background could not be made.
    BackgroundError(LevelBackgroundError),
    /// A coordinate or depth of the level cannot be represented.
    OutOfRange,
}

/// The document node of a level.
pub struct LevelAsset {
    pub bg_color: Rgba,
    /// How the background image is cut and placed; there is one exactly
    /// when there is a background image.
    pub bg_pos: Option<LevelBackgroundPosition>,
    pub neighbours: Vec<Neighbour>,
    pub bg_rel_path: Option<String>,
    pub field_instances: Vec<FieldInstance>,
    pub identifier: String,
    pub iid: String,
    /// Width and height, in pixels.
    pub size: (i64, i64),
    /// Where the level lies in its world: to the right, upwards, and in
    /// depth, the depth in thousandths. The file counts downwards.
    pub location: (i64, i64, i64),
    /// The stable identifier of the project that the level belongs to.
    pub project_iid: String,
    /// The stable identifiers of the level's layers, from the back to the
    /// front.
    pub layer_iids: Vec<String>,
}

/// What is wrong with a level record, if anything. The colour is looked at
/// first, then whether background image and position come together, the
/// position itself, the neighbours, and where the level lies.
pub open spec fn level_fault(value: ldtk::Level, level_separation: int) -> Option<
    LevelAssetError,
> {
    if let Err(e) = color_of(value.bg_color@) {
        Some(LevelAssetError::ColorParseError(e))
    } else if value.bg_pos is Some && value.bg_rel_path is None {
        Some(LevelAssetError::BgPosWithBgRelPathNone)
    } else if value.bg_pos is None && value.bg_rel_path is Some {
        Some(LevelAssetError::BgPosNoneWithBgRelPath)
    } else if value.bg_pos is Some && background_position_of(value.bg_pos.unwrap()) is None {
        Some(LevelAssetError::BadBackgroundPosition)
    } else if !neighbours_readable(value.neighbours@) {
        Some(LevelAssetError::NeighbourError(NeighbourError::UnknownDirection))
    } else if value.world_y == i64::MIN || !(i64::MIN <= value.world_depth * level_separation
        <= i64::MAX) {
        Some(LevelAssetError::OutOfRange)
    } else {
        None
    }
}

impl LevelAsset {
    /// Whether `self` is the node of the record `value` in the project
    /// `project_iid`, with the layers `layer_iids`.
    pub open spec fn mirrors(
        self,
        value: ldtk::Level,
        project_iid: Seq<char>,
        level_separation: int,
        layer_iids: Seq<Seq<char>>,
    ) -> bool {
        &&& Ok::<Rgba, ColorParseError>(self.bg_color) == color_of(value.bg_color@)
        &&& self.bg_pos == match value.bg_pos {
            Some(position) => background_position_of(position),
            None => None,
        }
        &&& neighbours_mirror(self.neighbours@, value.neighbours@)
        &&& text_of(self.bg_rel_path) == text_of(value.bg_rel_path)
        &&& fields_mirror(self.field_instances@, value.field_instances@)
        &&& self.identifier@ == value.identifier@
        &&& self.iid@ == value.iid@
        &&& self.size == (value.px_wid, value.px_hei)
        &&& self.location.0 == value.world_x
        &&& self.location.1 == -value.world_y
        &&& self.location.2 == value.world_depth * level_separation
        &&& self.project_iid@ == project_iid
        &&& texts(self.layer_iids@) == layer_iids
    }

    /// Makes the node of a level record of the project `project_iid`.
    /// `level_separation` is the depth between two levels in thousandths,
    /// `layer_iids` the stable identifiers of the level's layers from the
    /// back to the front.
    pub fn new(
        value: &ldtk::Level,
        project_iid: String,
        level_separation: i64,
        layer_iids: Vec<String>,
    ) -> (out: Result<Self, LevelAssetError>)
        ensures
            match out {
                Ok(level) => level_fault(*value, level_separation as int) is None
                    && level.mirrors(
                    *value,
                    project_iid@,
                    level_separation as int,
                    texts(layer_iids@),
                ),
                Err(e) => level_fault(*value, level_separation as int) == Some(e),
            },
    {
        let bg_color = match color_from_ldtk(value.bg_color.as_str()) {
            Ok(color) => color,
            Err(e) => { return Err(LevelAssetError::ColorParseError(e)); },
        };
        let bg_pos = match (&value.bg_pos, &value.bg_rel_path) {
            (Some(_), None) => { return Err(LevelAssetError::BgPosWithBgRelPathNone); },
            (None, Some(_)) => { return Err(LevelAssetError::BgPosNoneWithBgRelPath); },
            (None, None) => None,
            (Some(position), Some(_)) => match background_position_from_ldtk(position) {
                Some(position) => Some(position),
                None => { return Err(LevelAssetError::BadBackgroundPosition); },
            },
        };
        let neighbours = match neighbours_from_ldtk(&value.neighbours) {
            Ok(neighbours) => neighbours,
            Err(e) => { return Err(LevelAssetError::NeighbourError(e)); },
        };
        if value.world_y == i64::MIN {
            return Err(LevelAssetError::OutOfRange);
        }
        let depth = match value.world_depth.checked_mul(level_separation) {
            Some(depth) => depth,
            None => { return Err(LevelAssetError::OutOfRange); },
        };
        Ok(
            LevelAsset {
                bg_color,
                bg_pos,
                neighbours,
                bg_rel_path: clone_text(&value.bg_rel_path),
                field_instances: fields_from_ldtk(&value.field_instances),
                identifier: value.identifier.clone(),
                iid: value.iid.clone(),
                size: (value.px_wid, value.px_hei),
                location: (value.world_x, -value.world_y, depth),
                project_iid,
                layer_iids,
            },
        )
    }


    /// The stable identifiers of the level's layers, from the back to the
    /// front.
    pub fn children(&self) -> (out: Vec<String>)
        ensures
            texts(out@) == texts(self.layer_iids@),
    {
        clone_strings(&self.layer_iids)
    }
}

} // verus!
