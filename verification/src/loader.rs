//! The document graph builder: from the records of a project file to the
//! tree of document nodes, or to the first thing that is wrong with the
//! records.

use vstd::prelude::*;
use crate::components::{tiles_from_ldtk, tiles_of};
use crate::defs::{EntityDefinitionFromError, LayerDefinitionFromError};
use crate::entity::{entity_fault, EntityAsset, EntityAssetError};
use crate::layer::{
    layer_in_range, layer_type_of, LayerAsset, LayerAssetError, LayerFault, LayerType,
};
use crate::ldtk;
use crate::level::{level_fault, LevelAsset, LevelAssetError};
use crate::tiles::TileInstance;
use crate::world::WorldAsset;
use crate::util::ColorParseError;

verus! {

/// Why a project could not be loaded.
#[derive(Clone, Debug, PartialEq, Eq)]
pub enum ProjectAssetLoaderError {
    ColorParseError(ColorParseError),
    LevelAssetError(LevelAssetError),
    LayerTypeError(LayerAssetError),
    EntityAssetError(EntityAssetError),
    LayerDefinitionFromError(LayerDefinitionFromError),
    EntityDefinitionFromError(EntityDefinitionFromError),
    /// The levels are kept in files of their own and a level names none.
    ExternalRelPathIsNone,
    /// The file that a level names was not handed over.
    ExternalLevelMissing,
    /// An entity layer holds tiles.
    EntityLayerWithTiles,
    /// The file has no worlds, and lacks a size that a project of one
    /// world needs.
    ValueMissingInSingleWorld,
    /// A level has no layers where they are looked for.
    LayerInstancesIsNone,
    /// An integer-grid or automatic layer holds entities or grid tiles.
    IntGridWithEntitiesOrGridTiles,
    /// A tile layer holds automatic tiles or entities.
    TilesWithAutoLayerOrEntities,
}

/// What a [`ProjectAssetLoaderError`] says, with the text it carries.
pub enum LoadFault {
    ColorParseError(ColorParseError),
    LevelAssetError(LevelAssetError),
    LayerTypeError(LayerFault),
    EntityAssetError(EntityAssetError),
    /// A layer definition of an unknown kind, with the kind's name.
    LayerDefinitionFromError(Seq<char>),
    EntityDefinitionFromError(EntityDefinitionFromError),
    ExternalRelPathIsNone,
    ExternalLevelMissing,
    EntityLayerWithTiles,
    ValueMissingInSingleWorld,
    LayerInstancesIsNone,
    IntGridWithEntitiesOrGridTiles,
    TilesWithAutoLayerOrEntities,
}

impl View for ProjectAssetLoaderError {
    type V = LoadFault;

    open spec fn view(&self) -> LoadFault {
        match *self {
            ProjectAssetLoaderError::ColorParseError(e) => LoadFault::ColorParseError(e),
            ProjectAssetLoaderError::LevelAssetError(e) => LoadFault::LevelAssetError(e),
            ProjectAssetLoaderError::LayerTypeError(e) => LoadFault::LayerTypeError(e@),
            ProjectAssetLoaderError::EntityAssetError(e) => LoadFault::EntityAssetError(e),
            ProjectAssetLoaderError::LayerDefinitionFromError(
                LayerDefinitionFromError::UnknownLayerType(text),
            ) => LoadFault::LayerDefinitionFromError(text@),
            ProjectAssetLoaderError::EntityDefinitionFromError(e) => {
                LoadFault::EntityDefinitionFromError(e)
            },
            ProjectAssetLoaderError::ExternalRelPathIsNone => LoadFault::ExternalRelPathIsNone,
            ProjectAssetLoaderError::ExternalLevelMissing => LoadFault::ExternalLevelMissing,
            ProjectAssetLoaderError::EntityLayerWithTiles => LoadFault::EntityLayerWithTiles,
            ProjectAssetLoaderError::ValueMissingInSingleWorld => {
                LoadFault::ValueMissingInSingleWorld
            },
            ProjectAssetLoaderError::LayerInstancesIsNone => LoadFault::LayerInstancesIsNone,
            ProjectAssetLoaderError::IntGridWithEntitiesOrGridTiles => {
                LoadFault::IntGridWithEntitiesOrGridTiles
            },
            ProjectAssetLoaderError::TilesWithAutoLayerOrEntities => {
                LoadFault::TilesWithAutoLayerOrEntities
            },
        }
    }
}

/// Whether a fault says that a layer holds what its kind must not hold.
pub open spec fn is_exclusivity_fault(fault: LoadFault) -> bool {
    fault is EntityLayerWithTiles || fault is IntGridWithEntitiesOrGridTiles
        || fault is TilesWithAutoLayerOrEntities
}

/// What a layer record of kind `kind` holds that it must not hold, if
/// anything: an entity layer holds no tiles, a tile layer only grid tiles,
/// an integer-grid or automatic layer only automatic tiles.
pub open spec fn contents_fault(kind: LayerType, value: ldtk::LayerInstance) -> Option<LoadFault> {
    match kind {
        LayerType::IntGrid | LayerType::Autolayer => {
            if value.grid_tiles@.len() > 0 || value.entity_instances@.len() > 0 {
                Some(LoadFault::IntGridWithEntitiesOrGridTiles)
            } else {
                None
            }
        },
        LayerType::Tiles => {
            if value.auto_layer_tiles@.len() > 0 || value.entity_instances@.len() > 0 {
                Some(LoadFault::TilesWithAutoLayerOrEntities)
            } else {
                None
            }
        },
        LayerType::Entities => {
            if value.auto_layer_tiles@.len() > 0 || value.grid_tiles@.len() > 0 {
                Some(LoadFault::EntityLayerWithTiles)
            } else {
                None
            }
        },
    }
}

/// The tiles of the node of a layer record of kind `kind`.
pub open spec fn layer_tiles(kind: LayerType, value: ldtk::LayerInstance) -> Seq<TileInstance> {
    match kind {
        LayerType::IntGrid | LayerType::Autolayer => tiles_of(value.auto_layer_tiles@),
        LayerType::Tiles => tiles_of(value.grid_tiles@),
        LayerType::Entities => Seq::empty(),
    }
}

/// The entity records of a layer record of kind `kind` that become nodes.
pub open spec fn layer_entities(kind: LayerType, value: ldtk::LayerInstance) -> Seq<
    ldtk::EntityInstance,
> {
    match kind {
        LayerType::Entities => value.entity_instances@,
        _ => Seq::empty(),
    }
}

/// What is wrong with the first entity record of `values` with which
/// something is wrong.
pub open spec fn entities_fault(values: Seq<ldtk::EntityInstance>) -> Option<EntityAssetError>
    decreases values.len(),
{
    if values.len() == 0 {
        None
    } else if entities_fault(values.drop_last()) is Some {
        entities_fault(values.drop_last())
    } else {
        entity_fault(values.last())
    }
}

/// The stable identifiers of entity records.
pub open spec fn entity_record_iids(values: Seq<ldtk::EntityInstance>) -> Seq<Seq<char>> {
    values.map_values(|value: ldtk::EntityInstance| value.iid@)
}

/// What is wrong with a layer record with place `index` from the back, if
/// anything. Its kind is looked at first, then what it holds, its entities
/// in file order, and where it lies.
pub open spec fn layer_fault(value: ldtk::LayerInstance, index: int, layer_separation: int) -> Option<
    LoadFault,
> {
    match layer_type_of(value.layer_instance_type@) {
        None => Some(
            LoadFault::LayerTypeError(LayerFault::UnknownLayerType(value.layer_instance_type@)),
        ),
        Some(kind) => {
            if contents_fault(kind, value) is Some {
                contents_fault(kind, value)
            } else if entities_fault(layer_entities(kind, value)) is Some {
                Some(
                    LoadFault::EntityAssetError(
                        entities_fault(layer_entities(kind, value)).unwrap(),
                    ),
                )
            } else if !layer_in_range(value, index, layer_separation) {
                Some(LoadFault::LayerTypeError(LayerFault::OutOfRange))
            } else {
                None
            }
        },
    }
}

/// Whether the nodes `entities` are, one for one, the nodes of the records
/// `values`.
pub open spec fn entities_mirror(
    entities: Seq<EntityAsset>,
    values: Seq<ldtk::EntityInstance>,
    project_iid: Seq<char>,
) -> bool {
    &&& entities.len() == values.len()
    &&& forall|i: int|
        0 <= i < entities.len() ==> (#[trigger] entities[i]).mirrors(values[i], project_iid)
}

/// The node of a layer with the nodes of its entities.
pub struct LayerDocument {
    pub asset: LayerAsset,
    /// The entities of the layer, in file order.
    pub entities: Vec<EntityAsset>,
}

impl LayerDocument {
    /// Whether `self` is what the record `value` with place `index` from
    /// the back becomes.
    pub open spec fn mirrors(
        self,
        value: ldtk::LayerInstance,
        index: int,
        layer_separation: int,
        project_iid: Seq<char>,
    ) -> bool {
        &&& layer_type_of(value.layer_instance_type@) is Some
        &&& self.asset.mirrors(
            value,
            index,
            layer_type_of(value.layer_instance_type@).unwrap(),
            layer_tiles(layer_type_of(value.layer_instance_type@).unwrap(), value),
            entity_record_iids(
                layer_entities(layer_type_of(value.layer_instance_type@).unwrap(), value),
            ),
            layer_separation,
            project_iid,
        )
        &&& entities_mirror(
            self.entities@,
            layer_entities(layer_type_of(value.layer_instance_type@).unwrap(), value),
            project_iid,
        )
    }
}

/// The nodes of the entity records `values`, or what is wrong with the
/// first record with which something is wrong.
pub fn build_entities(values: &Vec<ldtk::EntityInstance>, project_iid: &String) -> (out: Result<
    Vec<EntityAsset>,
    EntityAssetError,
>)
    ensures
        match out {
            Ok(entities) => entities_fault(values@) is None && entities_mirror(
                entities@,
                values@,
                project_iid@,
            ),
            Err(e) => entities_fault(values@) == Some(e),
        },
{
    let mut out: Vec<EntityAsset> = Vec::new();
    let mut i: usize = 0;
    assert(values@.take(0) =~= Seq::empty());
    while i < values.len()
        invariant
            i <= values.len(),
            out@.len() == i,
            entities_fault(values@.take(i as int)) is None,
            forall|k: int| 0 <= k < i ==> (#[trigger] out@[k]).mirrors(values@[k], project_iid@),
        decreases values.len() - i,
    {
        assert(values@.take(i + 1).drop_last() =~= values@.take(i as int));
        assert(values@.take(i + 1).last() == values@[i as int]);
        match EntityAsset::new(&values[i], project_iid.clone()) {
            Ok(entity) => {
                out.push(entity);
            },
            Err(e) => {
                proof {
                    lemma_entities_fault_stays(values@, i + 1);
                }
                return Err(e);
            },
        }
        i += 1;
    }
    assert(values@.take(values.len() as int) =~= values@);
    Ok(out)
}

/// A fault among the first `n` records is the fault of the whole list.
pub proof fn lemma_entities_fault_stays(values: Seq<ldtk::EntityInstance>, n: int)
    requires
        0 <= n <= values.len(),
        entities_fault(values.take(n)) is Some,
    ensures
        entities_fault(values) == entities_fault(values.take(n)),
    decreases values.len() - n,
{
    if n < values.len() {
        assert(values.take(n + 1).drop_last() =~= values.take(n));
        lemma_entities_fault_stays(values, n + 1);
    } else {
        assert(values.take(n) =~= values);
    }
}

/// The stable identifiers of entity nodes, in their order.
pub fn entity_iids(entities: &Vec<EntityAsset>) -> (out: Vec<String>)
    ensures
        out@.len() == entities@.len(),
        forall|i: int| 0 <= i < out@.len() ==> (#[trigger] out@[i])@ == entities@[i].iid@,
{
    let mut out: Vec<String> = Vec::new();
    let mut i: usize = 0;
    while i < entities.len()
        invariant
            i <= entities.len(),
            out@.len() == i,
            forall|k: int| 0 <= k < i ==> (#[trigger] out@[k])@ == entities@[k].iid@,
        decreases entities.len() - i,
    {
        out.push(entities[i].iid.clone());
        i += 1;
    }
    out
}

/// What the layer record `value` with place `index` from the back becomes,
/// or what is wrong with it.
pub fn build_layer(
    value: &ldtk::LayerInstance,
    index: usize,
    layer_separation: i64,
    project_iid: &String,
) -> (out: Result<LayerDocument, ProjectAssetLoaderError>)
    ensures
        match out {
            Ok(layer) => layer_fault(*value, index as int, layer_separation as int) is None
                && layer.mirrors(*value, index as int, layer_separation as int, project_iid@),
            Err(e) => layer_fault(*value, index as int, layer_separation as int) == Some(e@),
        },
{
    let kind = match LayerType::new(value.layer_instance_type.as_str()) {
        Ok(kind) => kind,
        Err(e) => { return Err(ProjectAssetLoaderError::LayerTypeError(e)); },
    };
    let mut tiles: Vec<TileInstance> = Vec::new();
    let mut entities: Vec<EntityAsset> = Vec::new();
    match kind {
        LayerType::IntGrid | LayerType::Autolayer => {
            if value.grid_tiles.len() > 0 || value.entity_instances.len() > 0 {
                return Err(ProjectAssetLoaderError::IntGridWithEntitiesOrGridTiles);
            }
            tiles = tiles_from_ldtk(&value.auto_layer_tiles);
        },
        LayerType::Tiles => {
            if value.auto_layer_tiles.len() > 0 || value.entity_instances.len() > 0 {
                return Err(ProjectAssetLoaderError::TilesWithAutoLayerOrEntities);
            }
            tiles = tiles_from_ldtk(&value.grid_tiles);
        },
        LayerType::Entities => {
            if value.auto_layer_tiles.len() > 0 || value.grid_tiles.len() > 0 {
                return Err(ProjectAssetLoaderError::EntityLayerWithTiles);
            }
            entities = match build_entities(&value.entity_instances, project_iid) {
                Ok(entities) => entities,
                Err(e) => { return Err(ProjectAssetLoaderError::EntityAssetError(e)); },
            };
        },
    }
    assert(entities_fault(Seq::<ldtk::EntityInstance>::empty()) is None);
    let iids = entity_iids(&entities);
    assert(crate::util::texts(iids@) =~= entity_record_iids(layer_entities(kind, *value)));
    let asset = match LayerAsset::new(
        value,
        index,
        kind,
        tiles,
        iids,
        layer_separation,
        project_iid.clone(),
    ) {
        Ok(asset) => asset,
        Err(e) => { return Err(ProjectAssetLoaderError::LayerTypeError(e)); },
    };
    Ok(LayerDocument { asset, entities })
}

/// A level that is kept in a file of its own, as it was read from there.
pub struct ExternalLevel {
    /// The path by which the project file names the file.
    pub path: String,
    pub level: ldtk::Level,
}

/// The place of the first of `externals` that has the path `path`, or -1.
pub open spec fn first_with_path(externals: Seq<ExternalLevel>, path: Seq<char>) -> int
    decreases externals.len(),
{
    if externals.len() == 0 {
        -1
    } else if first_with_path(externals.drop_last(), path) >= 0 {
        first_with_path(externals.drop_last(), path)
    } else if externals.last().path@ == path {
        externals.len() - 1
    } else {
        -1
    }
}

/// What `first_with_path` finds is a place in the list with that path, and
/// it finds one wherever there is one.
pub proof fn law_first_with_path_is_first(externals: Seq<ExternalLevel>, path: Seq<char>)
    ensures
        -1 <= first_with_path(externals, path) < externals.len(),
        first_with_path(externals, path) >= 0 ==> externals[first_with_path(
            externals,
            path,
        )].path@ == path,
        forall|i: int|
            0 <= i < externals.len() && (#[trigger] externals[i]).path@ == path
                ==> 0 <= first_with_path(externals, path) <= i,
    decreases externals.len(),
{
    if externals.len() > 0 {
        law_first_with_path_is_first(externals.drop_last(), path);
        assert forall|i: int|
            0 <= i < externals.len() && (#[trigger] externals[i]).path@ == path implies 0
            <= first_with_path(externals, path) <= i by {
            if i < externals.len() - 1 {
                assert(externals.drop_last()[i].path@ == path);
            }
        }
    }
}

/// The first of `externals` that has the path `path`.
pub fn find_external<'a>(externals: &'a Vec<ExternalLevel>, path: &String) -> (out: Option<
    &'a ExternalLevel,
>)
    ensures
        out is Some == (first_with_path(externals@, path@) >= 0),
        out is Some ==> *out.unwrap() == externals@[first_with_path(externals@, path@)],
{
    let mut i: usize = 0;
    assert(externals@.take(0) =~= Seq::empty());
    while i < externals.len()
        invariant
            i <= externals.len(),
            first_with_path(externals@.take(i as int), path@) == -1,
        decreases externals.len() - i,
    {
        assert(externals@.take(i + 1).drop_last() =~= externals@.take(i as int));
        assert(externals@.take(i + 1).last() == externals@[i as int]);
        if externals[i].path == *path {
            proof {
                lemma_first_stays(externals@, path@, i + 1);
            }
            return Some(&externals[i]);
        }
        i += 1;
    }
    assert(externals@.take(externals.len() as int) =~= externals@);
    None
}

/// What is found among the first `n` is what is found in the whole list.
pub proof fn lemma_first_stays(externals: Seq<ExternalLevel>, path: Seq<char>, n: int)
    requires
        0 <= n <= externals.len(),
        first_with_path(externals.take(n), path) >= 0,
    ensures
        first_with_path(externals, path) == first_with_path(externals.take(n), path),
    decreases externals.len() - n,
{
    if n < externals.len() {
        assert(externals.take(n + 1).drop_last() =~= externals.take(n));
        lemma_first_stays(externals, path, n + 1);
    } else {
        assert(externals.take(n) =~= externals);
    }
}

/// The layer records of a level record, in file order: those of its own
/// file where the levels are kept in files of their own, else those that
/// the record holds.
pub open spec fn layer_records(
    value: ldtk::Level,
    external_levels: bool,
    externals: Seq<ExternalLevel>,
) -> Result<Seq<ldtk::LayerInstance>, LoadFault> {
    if external_levels {
        match value.external_rel_path {
            None => Err(LoadFault::ExternalRelPathIsNone),
            Some(path) => {
                if first_with_path(externals, path@) < 0 {
                    Err(LoadFault::ExternalLevelMissing)
                } else {
                    match externals[first_with_path(externals, path@)].level.layer_instances {
                        None => Err(LoadFault::LayerInstancesIsNone),
                        Some(records) => Ok(records@),
                    }
                }
            },
        }
    } else {
        match value.layer_instances {
            None => Err(LoadFault::LayerInstancesIsNone),
            Some(records) => Ok(records@),
        }
    }
}

/// The layer records of a level record, where there are any.
pub open spec fn found_records(
    value: ldtk::Level,
    external_levels: bool,
    externals: Seq<ExternalLevel>,
) -> Seq<ldtk::LayerInstance> {
    match layer_records(value, external_levels, externals) {
        Ok(records) => records,
        Err(_) => Seq::empty(),
    }
}

/// What is wrong with the first of the `count` last layer records, taken
/// from the last one backwards, with which something is wrong. The last
/// record of the file is the layer at the back and has place 0.
pub open spec fn layers_fault(records: Seq<ldtk::LayerInstance>, count: int, layer_separation: int) -> Option<
    LoadFault,
>
    decreases count,
{
    if count <= 0 {
        None
    } else if layers_fault(records, count - 1, layer_separation) is Some {
        layers_fault(records, count - 1, layer_separation)
    } else {
        layer_fault(records[records.len() - count], count - 1, layer_separation)
    }
}

/// A fault among the `count` last records is the fault of all of them.
pub proof fn lemma_layers_fault_stays(records: Seq<ldtk::LayerInstance>, count: int, layer_separation: int)
    requires
        0 <= count <= records.len(),
        layers_fault(records, count, layer_separation) is Some,
    ensures
        layers_fault(records, records.len() as int, layer_separation) == layers_fault(
            records,
            count,
            layer_separation,
        ),
    decreases records.len() - count,
{
    if count < records.len() {
        lemma_layers_fault_stays(records, count + 1, layer_separation);
    }
}

/// Whether the layers `layers` are what the records `records` become: the
/// layer with place `i` comes of the record that is `i` from the end.
pub open spec fn layers_mirror(
    layers: Seq<LayerDocument>,
    records: Seq<ldtk::LayerInstance>,
    layer_separation: int,
    project_iid: Seq<char>,
) -> bool {
    &&& layers.len() == records.len()
    &&& forall|i: int|
        0 <= i < layers.len() ==> (#[trigger] layers[i]).mirrors(
            records[records.len() - 1 - i],
            i,
            layer_separation,
            project_iid,
        )
}

/// The stable identifiers of layer records, from the last to the first.
pub open spec fn layer_record_iids(records: Seq<ldtk::LayerInstance>) -> Seq<Seq<char>> {
    Seq::new(records.len(), |i: int| records[records.len() - 1 - i].iid@)
}

/// What is wrong with a level record, if anything. Its layer records are
/// looked for first, then looked at from the last to the first, then the
/// level itself.
pub open spec fn level_document_fault(
    value: ldtk::Level,
    external_levels: bool,
    externals: Seq<ExternalLevel>,
    level_separation: int,
    layer_separation: int,
) -> Option<LoadFault> {
    match layer_records(value, external_levels, externals) {
        Err(fault) => Some(fault),
        Ok(records) => {
            if layers_fault(records, records.len() as int, layer_separation) is Some {
                layers_fault(records, records.len() as int, layer_separation)
            } else if level_fault(value, level_separation) is Some {
                Some(LoadFault::LevelAssetError(level_fault(value, level_separation).unwrap()))
            } else {
                None
            }
        },
    }
}

/// The node of a level with what its layers became.
pub struct LevelDocument {
    pub asset: LevelAsset,
    /// The layers of the level, from the back to the front.
    pub layers: Vec<LayerDocument>,
}

impl LevelDocument {
    /// Whether `self` is what the record `value` becomes.
    pub open spec fn mirrors(
        self,
        value: ldtk::Level,
        external_levels: bool,
        externals: Seq<ExternalLevel>,
        level_separation: int,
        layer_separation: int,
        project_iid: Seq<char>,
    ) -> bool {
        &&& layer_records(value, external_levels, externals) is Ok
        &&& layers_mirror(
            self.layers@,
            found_records(value, external_levels, externals),
            layer_separation,
            project_iid,
        )
        &&& self.asset.mirrors(
            value,
            project_iid,
            level_separation,
            layer_record_iids(found_records(value, external_levels, externals)),
        )
    }
}

/// What the layer records `records` become, from the last to the first, or
/// what is wrong with the first of them with which something is wrong.
pub fn build_layers(records: &Vec<ldtk::LayerInstance>, layer_separation: i64, project_iid: &String) -> (out:
    Result<Vec<LayerDocument>, ProjectAssetLoaderError>)
    ensures
        match out {
            Ok(layers) => layers_fault(records@, records@.len() as int, layer_separation as int)
                is None && layers_mirror(
                layers@,
                records@,
                layer_separation as int,
                project_iid@,
            ),
            Err(e) => layers_fault(records@, records@.len() as int, layer_separation as int)
                == Some(e@),
        },
{
    let n = records.len();
    let mut out: Vec<LayerDocument> = Vec::new();
    let mut index: usize = 0;
    while index < n
        invariant
            index <= n,
            n == records@.len(),
            out@.len() == index,
            layers_fault(records@, index as int, layer_separation as int) is None,
            forall|k: int|
                0 <= k < index ==> (#[trigger] out@[k]).mirrors(
                    records@[n - 1 - k],
                    k,
                    layer_separation as int,
                    project_iid@,
                ),
        decreases n - index,
    {
        match build_layer(&records[n - 1 - index], index, layer_separation, project_iid) {
            Ok(layer) => {
                out.push(layer);
            },
            Err(e) => {
                proof {
                    lemma_layers_fault_stays(records@, index + 1, layer_separation as int);
                }
                return Err(e);
            },
        }
        index += 1;
    }
    Ok(out)
}

/// The stable identifiers of layers, in their order.
pub fn layer_iids(layers: &Vec<LayerDocument>) -> (out: Vec<String>)
    ensures
        out@.len() == layers@.len(),
        forall|i: int| 0 <= i < out@.len() ==> (#[trigger] out@[i])@ == layers@[i].asset.iid@,
{
    let mut out: Vec<String> = Vec::new();
    let mut i: usize = 0;
    while i < layers.len()
        invariant
            i <= layers.len(),
            out@.len() == i,
            forall|k: int| 0 <= k < i ==> (#[trigger] out@[k])@ == layers@[k].asset.iid@,
        decreases layers.len() - i,
    {
        out.push(layers[i].asset.iid.clone());
        i += 1;
    }
    out
}

/// What the level record `value` becomes, or what is wrong with it.
/// `external_levels` says whether the levels are kept in files of their
/// own; `externals` are those files, as far as they were read.
pub fn build_level(
    value: &ldtk::Level,
    external_levels: bool,
    externals: &Vec<ExternalLevel>,
    level_separation: i64,
    layer_separation: i64,
    project_iid: &String,
) -> (out: Result<LevelDocument, ProjectAssetLoaderError>)
    ensures
        match out {
            Ok(level) => level_document_fault(
                *value,
                external_levels,
                externals@,
                level_separation as int,
                layer_separation as int,
            ) is None && level.mirrors(
                *value,
                external_levels,
                externals@,
                level_separation as int,
                layer_separation as int,
                project_iid@,
            ),
            Err(e) => level_document_fault(
                *value,
                external_levels,
                externals@,
                level_separation as int,
                layer_separation as int,
            ) == Some(e@),
        },
{
    let records: &Vec<ldtk::LayerInstance> = if external_levels {
        let path = match &value.external_rel_path {
            Some(path) => path,
            None => { return Err(ProjectAssetLoaderError::ExternalRelPathIsNone); },
        };
        let external = match find_external(externals, path) {
            Some(external) => external,
            None => { return Err(ProjectAssetLoaderError::ExternalLevelMissing); },
        };
        match &external.level.layer_instances {
            Some(records) => records,
            None => { return Err(ProjectAssetLoaderError::LayerInstancesIsNone); },
        }
    } else {
        match &value.layer_instances {
            Some(records) => records,
            None => { return Err(ProjectAssetLoaderError::LayerInstancesIsNone); },
        }
    };
    assert(layer_records(*value, external_levels, externals@) == Ok::<
        Seq<ldtk::LayerInstance>,
        LoadFault,
    >(records@));
    let layers = match build_layers(records, layer_separation, project_iid) {
        Ok(layers) => layers,
        Err(e) => { return Err(e); },
    };
    let iids = layer_iids(&layers);
    assert(crate::util::texts(iids@) =~= layer_record_iids(records@));
    let asset = match LevelAsset::new(value, project_iid.clone(), level_separation, iids) {
        Ok(asset) => asset,
        Err(e) => { return Err(ProjectAssetLoaderError::LevelAssetError(e)); },
    };
    Ok(LevelDocument { asset, layers })
}

/// What is wrong with the first level record of `values` with which
/// something is wrong.
pub open spec fn levels_fault(
    values: Seq<ldtk::Level>,
    external_levels: bool,
    externals: Seq<ExternalLevel>,
    level_separation: int,
    layer_separation: int,
) -> Option<LoadFault>
    decreases values.len(),
{
    if values.len() == 0 {
        None
    } else if levels_fault(
        values.drop_last(),
        external_levels,
        externals,
        level_separation,
        layer_separation,
    ) is Some {
        levels_fault(
            values.drop_last(),
            external_levels,
            externals,
            level_separation,
            layer_separation,
        )
    } else {
        level_document_fault(
            values.last(),
            external_levels,
            externals,
            level_separation,
            layer_separation,
        )
    }
}

/// A fault among the first `n` level records is the fault of the whole
/// list.
pub proof fn lemma_levels_fault_stays(
    values: Seq<ldtk::Level>,
    external_levels: bool,
    externals: Seq<ExternalLevel>,
    level_separation: int,
    layer_separation: int,
    n: int,
)
    requires
        0 <= n <= values.len(),
        levels_fault(values.take(n), external_levels, externals, level_separation, layer_separation)
            is Some,
    ensures
        levels_fault(values, external_levels, externals, level_separation, layer_separation)
            == levels_fault(
            values.take(n),
            external_levels,
            externals,
            level_separation,
            layer_separation,
        ),
    decreases values.len() - n,
{
    if n < values.len() {
        assert(values.take(n + 1).drop_last() =~= values.take(n));
        lemma_levels_fault_stays(
            values,
            external_levels,
            externals,
            level_separation,
            layer_separation,
            n + 1,
        );
    } else {
        assert(values.take(n) =~= values);
    }
}

/// Whether the levels `levels` are, one for one, what the records `values`
/// become.
pub open spec fn levels_mirror(
    levels: Seq<LevelDocument>,
    values: Seq<ldtk::Level>,
    external_levels: bool,
    externals: Seq<ExternalLevel>,
    level_separation: int,
    layer_separation: int,
    project_iid: Seq<char>,
) -> bool {
    &&& levels.len() == values.len()
    &&& forall|i: int|
        0 <= i < levels.len() ==> (#[trigger] levels[i]).mirrors(
            values[i],
            external_levels,
            externals,
            level_separation,
            layer_separation,
            project_iid,
        )
}

/// The stable identifiers of level records.
pub open spec fn level_record_iids(values: Seq<ldtk::Level>) -> Seq<Seq<char>> {
    values.map_values(|value: ldtk::Level| value.iid@)
}

/// The node of a world with what its levels became.
pub struct WorldDocument {
    pub asset: WorldAsset,
    /// The levels of the world, in file order.
    pub levels: Vec<LevelDocument>,
}

impl WorldDocument {
    /// Whether `self` is what the record `value` becomes.
    pub open spec fn mirrors(
        self,
        value: ldtk::World,
        external_levels: bool,
        externals: Seq<ExternalLevel>,
        level_separation: int,
        layer_separation: int,
        project_iid: Seq<char>,
    ) -> bool {
        &&& levels_mirror(
            self.levels@,
            value.levels@,
            external_levels,
            externals,
            level_separation,
            layer_separation,
            project_iid,
        )
        &&& self.asset.mirrors(value, project_iid, level_record_iids(value.levels@))
    }
}

/// What the level records `values` become, or what is wrong with the first
/// of them with which something is wrong.
pub fn build_levels(
    values: &Vec<ldtk::Level>,
    external_levels: bool,
    externals: &Vec<ExternalLevel>,
    level_separation: i64,
    layer_separation: i64,
    project_iid: &String,
) -> (out: Result<Vec<LevelDocument>, ProjectAssetLoaderError>)
    ensures
        match out {
            Ok(levels) => levels_fault(
                values@,
                external_levels,
                externals@,
                level_separation as int,
                layer_separation as int,
            ) is None && levels_mirror(
                levels@,
                values@,
                external_levels,
                externals@,
                level_separation as int,
                layer_separation as int,
                project_iid@,
            ),
            Err(e) => levels_fault(
                values@,
                external_levels,
                externals@,
                level_separation as int,
                layer_separation as int,
            ) == Some(e@),
        },
{
    let mut out: Vec<LevelDocument> = Vec::new();
    let mut i: usize = 0;
    assert(values@.take(0) =~= Seq::empty());
    while i < values.len()
        invariant
            i <= values.len(),
            out@.len() == i,
            levels_fault(
                values@.take(i as int),
                external_levels,
                externals@,
                level_separation as int,
                layer_separation as int,
            ) is None,
            forall|k: int|
                0 <= k < i ==> (#[trigger] out@[k]).mirrors(
                    values@[k],
                    external_levels,
                    externals@,
                    level_separation as int,
                    layer_separation as int,
                    project_iid@,
                ),
        decreases values.len() - i,
    {
        assert(values@.take(i + 1).drop_last() =~= values@.take(i as int));
        assert(values@.take(i + 1).last() == values@[i as int]);
        match build_level(
            &values[i],
            external_levels,
            externals,
            level_separation,
            layer_separation,
            project_iid,
        ) {
            Ok(level) => {
                out.push(level);
            },
            Err(e) => {
                proof {
                    lemma_levels_fault_stays(
                        values@,
                        external_levels,
                        externals@,
                        level_separation as int,
                        layer_separation as int,
                        i + 1,
                    );
                }
                return Err(e);
            },
        }
        i += 1;
    }
    assert(values@.take(values.len() as int) =~= values@);
    Ok(out)
}

/// The stable identifiers of levels, in their order.
pub fn level_iids(levels: &Vec<LevelDocument>) -> (out: Vec<String>)
    ensures
        out@.len() == levels@.len(),
        forall|i: int| 0 <= i < out@.len() ==> (#[trigger] out@[i])@ == levels@[i].asset.iid@,
{
    let mut out: Vec<String> = Vec::new();
    let mut i: usize = 0;
    while i < levels.len()
        invariant
            i <= levels.len(),
            out@.len() == i,
            forall|k: int| 0 <= k < i ==> (#[trigger] out@[k])@ == levels@[k].asset.iid@,
        decreases levels.len() - i,
    {
        out.push(levels[i].asset.iid.clone());
        i += 1;
    }
    out
}

/// What the world record `value` becomes, or what is wrong with the first
/// of its levels with which something is wrong.
pub fn build_world(
    value: &ldtk::World,
    external_levels: bool,
    externals: &Vec<ExternalLevel>,
    level_separation: i64,
    layer_separation: i64,
    project_iid: &String,
) -> (out: Result<WorldDocument, ProjectAssetLoaderError>)
    ensures
        match out {
            Ok(world) => levels_fault(
                value.levels@,
                external_levels,
                externals@,
                level_separation as int,
                layer_separation as int,
            ) is None && world.mirrors(
                *value,
                external_levels,
                externals@,
                level_separation as int,
                layer_separation as int,
                project_iid@,
            ),
            Err(e) => levels_fault(
                value.levels@,
                external_levels,
                externals@,
                level_separation as int,
                layer_separation as int,
            ) == Some(e@),
        },
{
    let levels = match build_levels(
        &value.levels,
        external_levels,
        externals,
        level_separation,
        layer_separation,
        project_iid,
    ) {
        Ok(levels) => levels,
        Err(e) => { return Err(e); },
    };
    let iids = level_iids(&levels);
    assert(crate::util::texts(iids@) =~= level_record_iids(value.levels@));
    let asset = WorldAsset::new(value, project_iid.clone(), iids);
    Ok(WorldDocument { asset, levels })
}

/// A layer record that holds both tiles and entities is refused for what
/// it holds, whatever its kind.
pub proof fn law_tiles_and_entities_exclude(value: ldtk::LayerInstance, index: int, layer_separation: int)
    requires
        layer_type_of(value.layer_instance_type@) is Some,
        value.auto_layer_tiles@.len() > 0 || value.grid_tiles@.len() > 0,
        value.entity_instances@.len() > 0,
    ensures
        layer_fault(value, index, layer_separation) is Some,
        is_exclusivity_fault(layer_fault(value, index, layer_separation).unwrap()),
{
}

} // verus!
