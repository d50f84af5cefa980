//! What is shown for a ready document node: the sprite of an entity, the
//! image of a tile layer, the background of a level.

use vstd::prelude::*;
use crate::background::{
    build_level_background, is_background, scaled_fits, shows_something, LevelBackgroundError,
    LevelBackgroundPosition,
};
use crate::canvas::{Canvas, Picture};
use crate::components::{Tiles, TilesetRectangle};
use crate::entity::{EntityAsset, EntityAssetError};
use crate::layer::{LayerAsset, LayerAssetError, LayerFault};
use crate::level::{LevelAsset, LevelAssetError};
use crate::project::ProjectAsset;
use crate::system_params::{first_with_iid, pointed, project_iids, LdtkProjectCommandsEx};
use crate::tiles::{build_layer_image, painted, placed, BuildImageFromTilesError};
use crate::util::{has_text, text_of, texts, Anchor};

verus! {

broadcast use vstd::std_specs::hash::group_hash_axioms;

/// How the tile of an entity is shown.
pub struct SpritePlan {
    /// Width and height at which the tile is shown.
    pub custom_size: (i64, i64),
    /// The corners of the part of the tileset image that is shown: left
    /// and top, then right and bottom.
    pub rect: ((i64, i64), (i64, i64)),
    pub anchor: Anchor,
    /// The path of the tileset image.
    pub texture: String,
}

/// Where the project `iid` stands among `projects`, or -1.
pub open spec fn project_at(projects: Seq<ProjectAsset>, iid: Seq<char>) -> int {
    first_with_iid(project_iids(projects), iid)
}

/// Whether the far corner of `tile` can be represented.
pub open spec fn corner_in_range(tile: TilesetRectangle) -> bool {
    &&& i64::MIN <= tile.location.0 + tile.size.0 <= i64::MAX
    &&& i64::MIN <= tile.location.1 + tile.size.1 <= i64::MAX
}

/// Why the tile `tile` of `entity` cannot be shown, if it cannot. The
/// entity's project is looked for first, then the tileset in it, then the
/// tileset's image path, then whether the project asked for that image.
pub open spec fn entity_tile_fault(
    entity: EntityAsset,
    projects: Seq<ProjectAsset>,
    tile: TilesetRectangle,
) -> Option<EntityAssetError> {
    let at = project_at(projects, entity.project_iid@);
    if at < 0 {
        Some(EntityAssetError::BadIid)
    } else if !projects[at].tileset_defs@.contains_key(tile.tileset_uid) {
        Some(EntityAssetError::BadTilesetUid)
    } else if projects[at].tileset_defs@[tile.tileset_uid].rel_path is None {
        Some(EntityAssetError::MissingTilesetPath)
    } else if !texts(projects[at].tileset_assets@).contains(
        projects[at].tileset_defs@[tile.tileset_uid].rel_path.unwrap()@,
    ) {
        Some(EntityAssetError::BadTilesetPath)
    } else if !corner_in_range(tile) {
        Some(EntityAssetError::OutOfRange)
    } else {
        None
    }
}

impl EntityAsset {
    /// How the tile `tile`, which the entity's scene node carries, is
    /// shown: at the tile's size, cut from the image of the tileset that
    /// the tile names in the entity's project, and held at the entity's
    /// anchor.
    pub fn entity_tile_system(&self, projects: &Vec<&ProjectAsset>, tile: &TilesetRectangle) -> (out:
        Result<SpritePlan, EntityAssetError>)
        ensures
            match out {
                Ok(plan) => {
                    &&& entity_tile_fault(*self, pointed(projects@), *tile) is None
                    &&& plan.custom_size == tile.size
                    &&& plan.rect.0 == tile.location
                    &&& plan.rect.1.0 == tile.location.0 + tile.size.0
                    &&& plan.rect.1.1 == tile.location.1 + tile.size.1
                    &&& plan.anchor == self.anchor
                    &&& Some(plan.texture@) == text_of(
                        pointed(projects@)[project_at(
                            pointed(projects@),
                            self.project_iid@,
                        )].tileset_defs@[tile.tileset_uid].rel_path,
                    )
                },
                Err(e) => entity_tile_fault(*self, pointed(projects@), *tile) == Some(e),
            },
    {
        let project = match projects.with_iid(self.project_iid.as_str()) {
            Some(project) => project,
            None => { return Err(EntityAssetError::BadIid); },
        };
        let definition = match project.tileset_defs.get(&tile.tileset_uid) {
            Some(definition) => definition,
            None => { return Err(EntityAssetError::BadTilesetUid); },
        };
        let path = match &definition.rel_path {
            Some(path) => path,
            None => { return Err(EntityAssetError::MissingTilesetPath); },
        };
        if !has_text(&project.tileset_assets, path) {
            return Err(EntityAssetError::BadTilesetPath);
        }
        let right = match tile.location.0.checked_add(tile.size.0) {
            Some(right) => right,
            None => { return Err(EntityAssetError::OutOfRange); },
        };
        let bottom = match tile.location.1.checked_add(tile.size.1) {
            Some(bottom) => bottom,
            None => { return Err(EntityAssetError::OutOfRange); },
        };
        Ok(
            SpritePlan {
                custom_size: tile.size,
                rect: (tile.location, (right, bottom)),
                anchor: self.anchor,
                texture: path.clone(),
            },
        )
    }
}

/// The size of the image of a layer in pixels, and the side of a cell,
/// where they can be sizes of an image.
pub open spec fn layer_canvas(layer: LayerAsset) -> Option<(u32, u32, u32)> {
    if 0 <= layer.grid_cell_size <= u32::MAX && 0 <= layer.grid_size.0 * layer.grid_cell_size
        <= u32::MAX && 0 <= layer.grid_size.1 * layer.grid_cell_size <= u32::MAX {
        Some(
            (
                (layer.grid_size.0 * layer.grid_cell_size) as u32,
                (layer.grid_size.1 * layer.grid_cell_size) as u32,
                layer.grid_cell_size as u32,
            ),
        )
    } else {
        None
    }
}

/// The size of the image of a layer, where it can be the size of an image.
pub fn canvas_of_layer(layer: &LayerAsset) -> (out: Option<(u32, u32, u32)>)
    ensures
        out == layer_canvas(*layer),
{
    let cell = layer.grid_cell_size;
    if cell < 0 || cell > 0xffff_ffff {
        return None;
    }
    let width = match layer.grid_size.0.checked_mul(cell) {
        Some(width) => width,
        None => { return None; },
    };
    let height = match layer.grid_size.1.checked_mul(cell) {
        Some(height) => height,
        None => { return None; },
    };
    if width < 0 || width > 0xffff_ffff || height < 0 || height > 0xffff_ffff {
        return None;
    }
    Some((width as u32, height as u32, cell as u32))
}

/// Why the image of the layer `layer` cannot be painted from the tileset
/// image `tileset`, if it cannot, for a layer that names a tileset image.
/// The layer's project is looked for by the caller; here it is `project`.
pub open spec fn layer_image_fault(
    layer: LayerAsset,
    project: ProjectAsset,
    tileset: Option<Picture>,
) -> Option<LayerFault> {
    if !texts(project.tileset_assets@).contains(layer.tileset_rel_path.unwrap()@) {
        Some(LayerFault::BadTilesetPath)
    } else if tileset is None {
        Some(LayerFault::BadTilesetHandle)
    } else if layer_canvas(layer) is None {
        Some(LayerFault::OutOfRange)
    } else {
        None
    }
}

impl LayerAsset {
    /// The image of the layer, painted from `tiles`, the tile list that
    /// the layer's scene node carries, and from `tileset`, the image of
    /// the layer's tileset as far as the host has it. A layer that names
    /// no tileset image has no image.
    pub fn layer_tiles_system(
        &self,
        projects: &Vec<&ProjectAsset>,
        tileset: Option<&Canvas>,
        tiles: &Tiles,
    ) -> (out: Result<Option<Canvas>, LayerAssetError>)
        ensures
            project_at(pointed(projects@), self.project_iid@) < 0 ==> out matches Err(
                LayerAssetError::BadIid,
            ),
            project_at(pointed(projects@), self.project_iid@) >= 0 && self.tileset_rel_path is None
                ==> out matches Ok(None),
            project_at(pointed(projects@), self.project_iid@) >= 0 && self.tileset_rel_path is Some
                ==> match out {
                Ok(None) => false,
                Ok(Some(image)) => {
                    &&& layer_image_fault(
                        *self,
                        pointed(projects@)[project_at(pointed(projects@), self.project_iid@)],
                        pictured_tileset(tileset),
                    ) is None
                    &&& is_layer_image(image@, *self, tileset.unwrap()@, tiles.tiles@)
                },
                Err(LayerAssetError::BuildImageFromTilesError(e)) => {
                    &&& layer_image_fault(
                        *self,
                        pointed(projects@)[project_at(pointed(projects@), self.project_iid@)],
                        pictured_tileset(tileset),
                    ) is None
                    &&& is_paint_fault(e, *self, tileset.unwrap()@, tiles.tiles@)
                },
                Err(e) => layer_image_fault(
                    *self,
                    pointed(projects@)[project_at(pointed(projects@), self.project_iid@)],
                    pictured_tileset(tileset),
                ) == Some(e@),
            },
    {
        let project = match projects.with_iid(self.project_iid.as_str()) {
            Some(project) => project,
            None => { return Err(LayerAssetError::BadIid); },
        };
        let path = match &self.tileset_rel_path {
            Some(path) => path,
            None => { return Ok(None); },
        };
        if !has_text(&project.tileset_assets, path) {
            return Err(LayerAssetError::BadTilesetPath);
        }
        let tileset = match tileset {
            Some(tileset) => tileset,
            None => { return Err(LayerAssetError::BadTilesetHandle); },
        };
        let (width, height, cell) = match canvas_of_layer(self) {
            Some(size) => size,
            None => { return Err(LayerAssetError::OutOfRange); },
        };
        match build_layer_image(tileset, width, height, cell, &tiles.tiles) {
            Ok(image) => Ok(Some(image)),
            Err(e) => Err(LayerAssetError::BuildImageFromTilesError(e)),
        }
    }
}

/// The picture of a tileset image that the host may have.
pub open spec fn pictured_tileset(tileset: Option<&Canvas>) -> Option<Picture> {
    match tileset {
        Some(tileset) => Some(tileset@),
        None => None,
    }
}

/// Whether `image` is the image of `layer` painted with `tiles` from
/// `tileset`: of the layer's size, every tile within it and within the
/// tileset, and every pixel what the last tile over it puts there.
pub open spec fn is_layer_image(
    image: Picture,
    layer: LayerAsset,
    tileset: Picture,
    tiles: Seq<crate::tiles::TileInstance>,
) -> bool {
    &&& layer_canvas(layer) is Some
    &&& image.wf()
    &&& image.width == layer_canvas(layer).unwrap().0
    &&& image.height == layer_canvas(layer).unwrap().1
    &&& forall|i: int|
        0 <= i < tiles.len() ==> placed(
            #[trigger] tiles[i],
            layer_canvas(layer).unwrap().2 as int,
            image.width as int,
            image.height as int,
            tileset,
        )
    &&& forall|x: int, y: int| #[trigger]
        image.holds(x, y) ==> image.at(x, y) == painted(
            tileset,
            tiles,
            layer_canvas(layer).unwrap().2 as int,
            x,
            y,
        )
}

/// Whether `fault` says what keeps the image of `layer` from being
/// painted: the layer is too large to hold, or else the first tile that
/// reaches outside the layer or the tileset.
pub open spec fn is_paint_fault(
    fault: BuildImageFromTilesError,
    layer: LayerAsset,
    tileset: Picture,
    tiles: Seq<crate::tiles::TileInstance>,
) -> bool {
    &&& layer_canvas(layer) is Some
    &&& match fault {
        BuildImageFromTilesError::CanvasTooLarge => !crate::canvas::fits(
            layer_canvas(layer).unwrap().0 as int,
            layer_canvas(layer).unwrap().1 as int,
        ),
        BuildImageFromTilesError::TileOutOfBounds(bad) => {
            &&& crate::canvas::fits(
                layer_canvas(layer).unwrap().0 as int,
                layer_canvas(layer).unwrap().1 as int,
            )
            &&& bad < tiles.len()
            &&& !placed(
                tiles[bad as int],
                layer_canvas(layer).unwrap().2 as int,
                layer_canvas(layer).unwrap().0 as int,
                layer_canvas(layer).unwrap().1 as int,
                tileset,
            )
            &&& forall|i: int|
                0 <= i < bad ==> placed(
                    #[trigger] tiles[i],
                    layer_canvas(layer).unwrap().2 as int,
                    layer_canvas(layer).unwrap().0 as int,
                    layer_canvas(layer).unwrap().1 as int,
                    tileset,
                )
        },
    }
}

/// The size of a level in pixels, where it can be the size of an image.
pub open spec fn level_canvas(level: LevelAsset) -> Option<(u32, u32)> {
    if 0 <= level.size.0 <= u32::MAX && 0 <= level.size.1 <= u32::MAX {
        Some((level.size.0 as u32, level.size.1 as u32))
    } else {
        None
    }
}

/// Why the background of `level` cannot be made before any image is
/// touched, if it cannot. The level's project is looked for first, then
/// whether background image and position come together, whether the
/// project asked for the image, whether the host has it, and whether the
/// level's size can be that of an image.
pub open spec fn level_bg_fault(
    level: LevelAsset,
    projects: Seq<ProjectAsset>,
    image: Option<Picture>,
) -> Option<LevelAssetError> {
    let at = project_at(projects, level.project_iid@);
    if at < 0 {
        Some(LevelAssetError::BadProjectIid)
    } else if level.bg_pos is None && level.bg_rel_path is Some {
        Some(LevelAssetError::BgPosNoneWithBgRelPath)
    } else if level.bg_pos is Some && level.bg_rel_path is None {
        Some(LevelAssetError::BgPosWithBgRelPathNone)
    } else if level.bg_pos is Some && !texts(projects[at].background_assets@).contains(
        level.bg_rel_path.unwrap()@,
    ) {
        Some(LevelAssetError::BgRelPathNotFound)
    } else if level.bg_pos is Some && image is None {
        Some(LevelAssetError::BadHandle)
    } else if level_canvas(level) is None {
        Some(LevelAssetError::OutOfRange)
    } else {
        None
    }
}

/// Whether `fault` says what keeps a background of `width` by `height`
/// pixels from being made: the level is too large to hold, or else the
/// background image cannot be scaled.
pub open spec fn is_background_fault(
    fault: LevelBackgroundError,
    width: int,
    height: int,
    background: Option<(Picture, LevelBackgroundPosition)>,
) -> bool {
    match fault {
        LevelBackgroundError::LevelTooLarge => !crate::canvas::fits(width, height),
        LevelBackgroundError::ScaledTooLarge => {
            &&& crate::canvas::fits(width, height)
            &&& background is Some
            &&& shows_something(background.unwrap().0, background.unwrap().1)
            &&& !scaled_fits(background.unwrap().0, background.unwrap().1)
        },
    }
}

/// The background image of a level with its position, where the level has
/// them.
pub open spec fn level_backdrop(level: LevelAsset, image: Option<Picture>) -> Option<
    (Picture, LevelBackgroundPosition),
> {
    if level.bg_pos is Some && image is Some {
        Some((image.unwrap(), level.bg_pos.unwrap()))
    } else {
        None
    }
}

impl LevelAsset {
    /// The background of the level: a canvas of the level's size and
    /// colour, with the level's background image, where it has one, laid
    /// over it as the level's background position says. `image` is that
    /// image as far as the host has it.
    pub fn level_bg_system(&self, projects: &Vec<&ProjectAsset>, image: Option<&Canvas>) -> (out:
        Result<Canvas, LevelAssetError>)
        ensures
            match out {
                Ok(background) => {
                    &&& level_bg_fault(*self, pointed(projects@), pictured_tileset(image)) is None
                    &&& is_background(
                        background@,
                        level_canvas(*self).unwrap().0 as int,
                        level_canvas(*self).unwrap().1 as int,
                        self.bg_color,
                        level_backdrop(*self, pictured_tileset(image)),
                    )
                },
                Err(LevelAssetError::BackgroundError(e)) => {
                    &&& level_bg_fault(*self, pointed(projects@), pictured_tileset(image)) is None
                    &&& is_background_fault(
                        e,
                        level_canvas(*self).unwrap().0 as int,
                        level_canvas(*self).unwrap().1 as int,
                        level_backdrop(*self, pictured_tileset(image)),
                    )
                },
                Err(e) => level_bg_fault(*self, pointed(projects@), pictured_tileset(image)) == Some(e),
            },
    {
        let project = match projects.with_iid(self.project_iid.as_str()) {
            Some(project) => project,
            None => { return Err(LevelAssetError::BadProjectIid); },
        };
        let backdrop: Option<(&Canvas, LevelBackgroundPosition)> = match (
            &self.bg_pos,
            &self.bg_rel_path,
        ) {
            (None, Some(_)) => { return Err(LevelAssetError::BgPosNoneWithBgRelPath); },
            (Some(_), None) => { return Err(LevelAssetError::BgPosWithBgRelPathNone); },
            (None, None) => None,
            (Some(position), Some(path)) => {
                if !has_text(&project.background_assets, path) {
                    return Err(LevelAssetError::BgRelPathNotFound);
                }
                match image {
                    Some(image) => Some((image, *position)),
                    None => { return Err(LevelAssetError::BadHandle); },
                }
            },
        };
        if self.size.0 < 0 || self.size.0 > 0xffff_ffff || self.size.1 < 0 || self.size.1
            > 0xffff_ffff {
            return Err(LevelAssetError::OutOfRange);
        }
        match build_level_background(
            self.size.0 as u32,
            self.size.1 as u32,
            self.bg_color,
            backdrop,
        ) {
            Ok(background) => Ok(background),
            Err(e) => Err(LevelAssetError::BackgroundError(e)),
        }
    }
}

} // verus!
