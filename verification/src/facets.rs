//! The facet assigners: what each kind of facet of a scene node is to
//! become when the node's document node is ready.

use vstd::prelude::*;
use crate::components::{Iid, Tiles, TilesetRectangle};
use crate::entity::EntityAsset;
use crate::layer::LayerAsset;
use crate::level::LevelAsset;
use crate::tiles::TileInstance;
use crate::traits::LdtkAsset;

verus! {

/// The display label of a scene node.
pub struct Name(pub String);

/// The spatial placement of a scene node.
#[derive(Clone, Copy, Debug, PartialEq, Eq)]
pub struct Transform {
    /// To the right, upwards, and in depth.
    pub translation: (i64, i64, i64),
}

/// What an assigner has the host do with one facet of one scene node.
pub enum FacetAction<T> {
    /// Attach the facet, in place of any the node has.
    Insert(T),
    /// Change the facet that the node has, in place.
    Mutate(T),
    /// Take the facet away, if the node has one.
    Remove,
}

/// The facet of a scene node once the host has done `action` to it.
pub open spec fn applied<T>(current: Option<T>, action: FacetAction<T>) -> Option<T> {
    match action {
        FacetAction::Insert(facet) => Some(facet),
        FacetAction::Mutate(facet) => Some(facet),
        FacetAction::Remove => None,
    }
}

/// The label of an entity, a layer, a level or a world: its identifier.
pub fn name_facet(identifier: &String) -> (out: FacetAction<Name>)
    ensures
        out matches FacetAction::Insert(name) && name.0@ == identifier@,
{
    FacetAction::Insert(Name(identifier.clone()))
}

/// The label of a project: the path of its file.
pub fn project_name_facet(path: &String) -> (out: FacetAction<Name>)
    ensures
        out matches FacetAction::Insert(name) && name.0@ == path@,
{
    FacetAction::Insert(Name(path.clone()))
}

/// The stable-identifier tag of the scene node of `asset`: it is attached
/// anew every time.
pub fn iid_facet<A: LdtkAsset>(asset: &A) -> (out: FacetAction<Iid>)
    ensures
        out matches FacetAction::Insert(tag) && tag.0@ == asset.stable_iid(),
{
    FacetAction::Insert(Iid(asset.iid()))
}

/// The placement that a scene node is to have: one that has a placement
/// keeps it and has it moved, one that has none gets one.
pub open spec fn placement(present: bool, translation: (i64, i64, i64)) -> FacetAction<Transform> {
    if present {
        FacetAction::Mutate(Transform { translation })
    } else {
        FacetAction::Insert(Transform { translation })
    }
}

/// The placement of a scene node that is to lie at `translation`;
/// `present` says whether it has a placement already.
pub fn transform_facet(present: bool, translation: (i64, i64, i64)) -> (out: FacetAction<Transform>)
    ensures
        out == placement(present, translation),
{
    if present {
        FacetAction::Mutate(Transform { translation })
    } else {
        FacetAction::Insert(Transform { translation })
    }
}

/// The placement of the scene node of an entity.
pub fn entity_transform(present: bool, asset: &EntityAsset) -> (out: FacetAction<Transform>)
    ensures
        out == placement(present, asset.location),
{
    transform_facet(present, asset.location)
}

/// The placement of the scene node of a layer.
pub fn layer_transform(present: bool, asset: &LayerAsset) -> (out: FacetAction<Transform>)
    ensures
        out == placement(present, asset.location),
{
    transform_facet(present, asset.location)
}

/// The placement of the scene node of a level.
pub fn level_transform(present: bool, asset: &LevelAsset) -> (out: FacetAction<Transform>)
    ensures
        out == placement(present, asset.location),
{
    transform_facet(present, asset.location)
}

/// The placement of the scene node of a world or of a project: at the
/// origin.
pub fn origin_transform(present: bool) -> (out: FacetAction<Transform>)
    ensures
        out == placement(present, (0i64, 0i64, 0i64)),
{
    transform_facet(present, (0, 0, 0))
}

/// The tile rectangle of the scene node of an entity: the one that the
/// entity declares, or none.
pub fn tileset_rectangle_facet(asset: &EntityAsset) -> (out: FacetAction<TilesetRectangle>)
    ensures
        out == match asset.tile {
            Some(tile) => FacetAction::Insert(tile),
            None => FacetAction::Remove,
        },
{
    match asset.tile {
        Some(tile) => FacetAction::Insert(tile),
        None => FacetAction::Remove,
    }
}

/// The tile list of the scene node of a layer: the layer's tiles, or none
/// where it has no tiles.
pub fn tiles_facet(asset: &LayerAsset) -> (out: FacetAction<Tiles>)
    ensures
        asset.tiles@.len() == 0 ==> out is Remove,
        asset.tiles@.len() > 0 ==> (out matches FacetAction::Insert(list) && list.tiles@
            == asset.tiles@),
{
    if asset.tiles.len() == 0 {
        FacetAction::Remove
    } else {
        let mut tiles: Vec<TileInstance> = Vec::new();
        let mut i: usize = 0;
        while i < asset.tiles.len()
            invariant
                i <= asset.tiles.len(),
                tiles@ == asset.tiles@.take(i as int),
            decreases asset.tiles.len() - i,
        {
            tiles.push(asset.tiles[i]);
            assert(asset.tiles@.take(i + 1) =~= asset.tiles@.take(i as int).push(
                asset.tiles@[i as int],
            ));
            i += 1;
        }
        assert(asset.tiles@.take(asset.tiles.len() as int) =~= asset.tiles@);
        FacetAction::Insert(Tiles { tiles })
    }
}

/// Assigning a placement twice from unchanged data leaves the scene node
/// as the first assignment left it.
pub proof fn law_placement_settles(current: Option<Transform>, translation: (i64, i64, i64))
    ensures
        ({
            let once = applied(current, placement(current is Some, translation));
            applied(once, placement(once is Some, translation)) == once
        }),
{
}

/// Doing the same action twice leaves a facet as doing it once left it.
pub proof fn law_assignment_settles<T>(current: Option<T>, action: FacetAction<T>)
    ensures
        applied(applied(current, action), action) == applied(current, action),
{
}

} // verus!
