//! Loading a project: from the records of the project file, and of the
//! level files it names, to the project's document tree.

use std::collections::HashMap;
use vstd::prelude::*;
use crate::defs::{
    entity_definition_fault, EntityDefinition, EntityDefinitionFromError, EnumDefinition,
    LayerDefinition, LayerDefinitionFromError, TilesetDefinition,
};
use crate::layer::layer_type_of;
use crate::ldtk;
use crate::loader::{
    build_world, levels_fault, ExternalLevel, LoadFault, ProjectAssetLoaderError, WorldDocument,
};
use crate::project::{is_last_with_uid, table_of, ProjectAsset, ProjectSettings};
use crate::util::{add_text, color_from_ldtk, color_of, lemma_added, text_of, texts};

verus! {

/// Whether `path` is the path of the image of one of the tilesets `defs`.
pub open spec fn is_tileset_path(defs: Seq<ldtk::TilesetDefinition>, path: Seq<char>) -> bool {
    exists|i: int| 0 <= i < defs.len() && text_of((#[trigger] defs[i]).rel_path) == Some(path)
}

/// Whether `path` is the path of the background image of one of the levels
/// `levels`.
pub open spec fn is_level_background(levels: Seq<ldtk::Level>, path: Seq<char>) -> bool {
    exists|i: int| 0 <= i < levels.len() && text_of((#[trigger] levels[i]).bg_rel_path) == Some(path)
}

/// Whether `path` is the path of the background image of a level of one of
/// the worlds `worlds`.
pub open spec fn is_background_path(worlds: Seq<ldtk::World>, path: Seq<char>) -> bool {
    exists|w: int| 0 <= w < worlds.len() && is_level_background((#[trigger] worlds[w]).levels@, path)
}

/// The paths of the images of the tilesets `defs`, each once, in the order
/// in which they first come.
pub fn tileset_paths(defs: &Vec<ldtk::TilesetDefinition>) -> (out: Vec<String>)
    ensures
        texts(out@).no_duplicates(),
        forall|path: Seq<char>| #[trigger]
            texts(out@).contains(path) <==> is_tileset_path(defs@, path),
{
    let mut out: Vec<String> = Vec::new();
    let mut i: usize = 0;
    assert(texts(out@) =~= Seq::empty());
    while i < defs.len()
        invariant
            i <= defs.len(),
            texts(out@).no_duplicates(),
            forall|path: Seq<char>| #[trigger]
                texts(out@).contains(path) <==> is_tileset_path(defs@.take(i as int), path),
        decreases defs.len() - i,
    {
        let ghost before = texts(out@);
        match &defs[i].rel_path {
            Some(path) => {
                add_text(&mut out, path);
                proof {
                    lemma_added(before, texts(out@), path@);
                }
            },
            None => {},
        }
        proof {
            let now = defs@.take(i + 1);
            let was = defs@.take(i as int);
            assert forall|path: Seq<char>| #[trigger]
                texts(out@).contains(path) <==> is_tileset_path(now, path) by {
                if is_tileset_path(was, path) {
                    let k = choose|k: int|
                        0 <= k < was.len() && text_of((#[trigger] was[k]).rel_path) == Some(path);
                    assert(text_of(now[k].rel_path) == Some(path));
                }
                if text_of(defs@[i as int].rel_path) == Some(path) {
                    assert(text_of(now[i as int].rel_path) == Some(path));
                }
                if is_tileset_path(now, path) {
                    let k = choose|k: int|
                        0 <= k < now.len() && text_of((#[trigger] now[k]).rel_path) == Some(path);
                    if k < i {
                        assert(text_of(was[k].rel_path) == Some(path));
                    }
                }
            }
        }
        i += 1;
    }
    assert(defs@.take(defs.len() as int) =~= defs@);
    out
}

/// Adds the paths of the background images of the levels `levels` to
/// `list`, each unless it is there.
pub fn add_level_backgrounds(list: &mut Vec<String>, levels: &Vec<ldtk::Level>)
    requires
        texts(old(list)@).no_duplicates(),
    ensures
        texts(final(list)@).no_duplicates(),
        forall|path: Seq<char>| #[trigger]
            texts(final(list)@).contains(path) <==> texts(old(list)@).contains(path)
                || is_level_background(levels@, path),
{
    let mut i: usize = 0;
    while i < levels.len()
        invariant
            i <= levels.len(),
            texts(list@).no_duplicates(),
            forall|path: Seq<char>| #[trigger]
                texts(list@).contains(path) <==> texts(old(list)@).contains(path)
                    || is_level_background(levels@.take(i as int), path),
        decreases levels.len() - i,
    {
        let ghost before = texts(list@);
        match &levels[i].bg_rel_path {
            Some(path) => {
                add_text(list, path);
                proof {
                    lemma_added(before, texts(list@), path@);
                }
            },
            None => {},
        }
        proof {
            let now = levels@.take(i + 1);
            let was = levels@.take(i as int);
            assert forall|path: Seq<char>| #[trigger]
                texts(list@).contains(path) <==> texts(old(list)@).contains(path)
                    || is_level_background(now, path) by {
                if is_level_background(was, path) {
                    let k = choose|k: int|
                        0 <= k < was.len() && text_of((#[trigger] was[k]).bg_rel_path) == Some(
                            path,
                        );
                    assert(text_of(now[k].bg_rel_path) == Some(path));
                }
                if text_of(levels@[i as int].bg_rel_path) == Some(path) {
                    assert(text_of(now[i as int].bg_rel_path) == Some(path));
                }
                if is_level_background(now, path) {
                    let k = choose|k: int|
                        0 <= k < now.len() && text_of((#[trigger] now[k]).bg_rel_path) == Some(
                            path,
                        );
                    if k < i {
                        assert(text_of(was[k].bg_rel_path) == Some(path));
                    }
                }
            }
        }
        i += 1;
    }
    assert(levels@.take(levels.len() as int) =~= levels@);
}

/// The paths of the background images of the levels of the worlds
/// `worlds`, each once, in the order in which they first come.
pub fn background_paths(worlds: &Vec<ldtk::World>) -> (out: Vec<String>)
    ensures
        texts(out@).no_duplicates(),
        forall|path: Seq<char>| #[trigger]
            texts(out@).contains(path) <==> is_background_path(worlds@, path),
{
    let mut out: Vec<String> = Vec::new();
    let mut w: usize = 0;
    assert(texts(out@) =~= Seq::empty());
    while w < worlds.len()
        invariant
            w <= worlds.len(),
            texts(out@).no_duplicates(),
            forall|path: Seq<char>| #[trigger]
                texts(out@).contains(path) <==> is_background_path(worlds@.take(w as int), path),
        decreases worlds.len() - w,
    {
        let ghost before = texts(out@);
        add_level_backgrounds(&mut out, &worlds[w].levels);
        proof {
            let now = worlds@.take(w + 1);
            let was = worlds@.take(w as int);
            assert forall|path: Seq<char>| #[trigger]
                texts(out@).contains(path) <==> is_background_path(now, path) by {
                if is_background_path(was, path) {
                    let k = choose|k: int|
                        0 <= k < was.len() && is_level_background((#[trigger] was[k]).levels@, path);
                    assert(is_level_background(now[k].levels@, path));
                }
                if is_level_background(worlds@[w as int].levels@, path) {
                    assert(is_level_background(now[w as int].levels@, path));
                }
                if is_background_path(now, path) {
                    let k = choose|k: int|
                        0 <= k < now.len() && is_level_background((#[trigger] now[k]).levels@, path);
                    if k < w {
                        assert(is_level_background(was[k].levels@, path));
                    }
                }
            }
        }
        w += 1;
    }
    assert(worlds@.take(worlds.len() as int) =~= worlds@);
    out
}

/// Whether `path` names the file of one of the levels `levels`.
pub open spec fn is_level_file(levels: Seq<ldtk::Level>, path: Seq<char>) -> bool {
    exists|i: int|
        0 <= i < levels.len() && text_of((#[trigger] levels[i]).external_rel_path) == Some(path)
}

/// Whether `path` names a level file that has to be read before the
/// project file `value` can be built: the project keeps its levels in
/// files of their own, and one of its levels names that file. The levels
/// of a project are those of its worlds, or its own where it names no
/// worlds.
pub open spec fn is_external_path(value: ldtk::LdtkJson, path: Seq<char>) -> bool {
    value.external_levels && if value.worlds@.len() == 0 {
        is_level_file(value.levels@, path)
    } else {
        exists|w: int|
            0 <= w < value.worlds@.len() && is_level_file(
                (#[trigger] value.worlds@[w]).levels@,
                path,
            )
    }
}

/// Adds the paths of the files of the levels `levels` to `list`, each
/// unless it is there.
pub fn add_level_files(list: &mut Vec<String>, levels: &Vec<ldtk::Level>)
    requires
        texts(old(list)@).no_duplicates(),
    ensures
        texts(final(list)@).no_duplicates(),
        forall|path: Seq<char>| #[trigger]
            texts(final(list)@).contains(path) <==> texts(old(list)@).contains(path)
                || is_level_file(levels@, path),
{
    let mut i: usize = 0;
    while i < levels.len()
        invariant
            i <= levels.len(),
            texts(list@).no_duplicates(),
            forall|path: Seq<char>| #[trigger]
                texts(list@).contains(path) <==> texts(old(list)@).contains(path)
                    || is_level_file(levels@.take(i as int), path),
        decreases levels.len() - i,
    {
        let ghost before = texts(list@);
        match &levels[i].external_rel_path {
            Some(path) => {
                add_text(list, path);
                proof {
                    lemma_added(before, texts(list@), path@);
                }
            },
            None => {},
        }
        proof {
            let now = levels@.take(i + 1);
            let was = levels@.take(i as int);
            assert forall|path: Seq<char>| #[trigger]
                texts(list@).contains(path) <==> texts(old(list)@).contains(path)
                    || is_level_file(now, path) by {
                if is_level_file(was, path) {
                    let k = choose|k: int|
                        0 <= k < was.len() && text_of((#[trigger] was[k]).external_rel_path)
                            == Some(path);
                    assert(text_of(now[k].external_rel_path) == Some(path));
                }
                if text_of(levels@[i as int].external_rel_path) == Some(path) {
                    assert(text_of(now[i as int].external_rel_path) == Some(path));
                }
                if is_level_file(now, path) {
                    let k = choose|k: int|
                        0 <= k < now.len() && text_of((#[trigger] now[k]).external_rel_path)
                            == Some(path);
                    if k < i {
                        assert(text_of(was[k].external_rel_path) == Some(path));
                    }
                }
            }
        }
        i += 1;
    }
    assert(levels@.take(levels.len() as int) =~= levels@);
}

/// The paths of the level files that have to be read before the project
/// file `value` can be built, each once, in the order in which they first
/// come.
pub fn external_level_paths(value: &ldtk::LdtkJson) -> (out: Vec<String>)
    ensures
        texts(out@).no_duplicates(),
        forall|path: Seq<char>| #[trigger]
            texts(out@).contains(path) <==> is_external_path(*value, path),
{
    let mut out: Vec<String> = Vec::new();
    assert(texts(out@) =~= Seq::empty());
    if !value.external_levels {
        return out;
    }
    if value.worlds.len() == 0 {
        add_level_files(&mut out, &value.levels);
        return out;
    }
    let mut w: usize = 0;
    while w < value.worlds.len()
        invariant
            w <= value.worlds.len(),
            texts(out@).no_duplicates(),
            forall|path: Seq<char>| #[trigger]
                texts(out@).contains(path) <==> exists|k: int|
                    0 <= k < w && is_level_file((#[trigger] value.worlds@[k]).levels@, path),
        decreases value.worlds.len() - w,
    {
        let ghost before = texts(out@);
        add_level_files(&mut out, &value.worlds[w].levels);
        proof {
            assert forall|path: Seq<char>| #[trigger]
                texts(out@).contains(path) <==> exists|k: int|
                    0 <= k < w + 1 && is_level_file((#[trigger] value.worlds@[k]).levels@, path) by {
                if before.contains(path) {
                    let k = choose|k: int|
                        0 <= k < w && is_level_file((#[trigger] value.worlds@[k]).levels@, path);
                    assert(0 <= k < w + 1 && is_level_file(value.worlds@[k].levels@, path));
                }
                if is_level_file(value.worlds@[w as int].levels@, path) {
                    assert(0 <= w < w + 1 && is_level_file(value.worlds@[w as int].levels@, path));
                }
                if exists|k: int|
                    0 <= k < w + 1 && is_level_file((#[trigger] value.worlds@[k]).levels@, path) {
                    let k = choose|k: int|
                        0 <= k < w + 1 && is_level_file(
                            (#[trigger] value.worlds@[k]).levels@,
                            path,
                        );
                    if k < w {
                        assert(before.contains(path));
                    }
                }
            }
        }
        w += 1;
    }
    out
}

/// The numbers of layer definition records.
pub open spec fn layer_uids(defs: Seq<ldtk::LayerDefinition>) -> Seq<i64> {
    defs.map_values(|def: ldtk::LayerDefinition| def.uid)
}

/// The numbers of entity definition records.
pub open spec fn entity_uids(defs: Seq<ldtk::EntityDefinition>) -> Seq<i64> {
    defs.map_values(|def: ldtk::EntityDefinition| def.uid)
}

/// The numbers of tileset records.
pub open spec fn tileset_uids(defs: Seq<ldtk::TilesetDefinition>) -> Seq<i64> {
    defs.map_values(|def: ldtk::TilesetDefinition| def.uid)
}

/// The numbers of enum records.
pub open spec fn enum_uids(defs: Seq<ldtk::EnumDefinition>) -> Seq<i64> {
    defs.map_values(|def: ldtk::EnumDefinition| def.uid)
}

/// The name of the kind of the first layer definition record of `defs`
/// whose kind does not exist.
pub open spec fn layer_defs_fault(defs: Seq<ldtk::LayerDefinition>) -> Option<Seq<char>>
    decreases defs.len(),
{
    if defs.len() == 0 {
        None
    } else if layer_defs_fault(defs.drop_last()) is Some {
        layer_defs_fault(defs.drop_last())
    } else if layer_type_of(defs.last().layer_definition_type@) is None {
        Some(defs.last().layer_definition_type@)
    } else {
        None
    }
}

/// A fault among the first `n` layer definitions is the fault of the whole
/// list.
pub proof fn lemma_layer_defs_fault_stays(defs: Seq<ldtk::LayerDefinition>, n: int)
    requires
        0 <= n <= defs.len(),
        layer_defs_fault(defs.take(n)) is Some,
    ensures
        layer_defs_fault(defs) == layer_defs_fault(defs.take(n)),
    decreases defs.len() - n,
{
    if n < defs.len() {
        assert(defs.take(n + 1).drop_last() =~= defs.take(n));
        lemma_layer_defs_fault_stays(defs, n + 1);
    } else {
        assert(defs.take(n) =~= defs);
    }
}

/// What is wrong with the first entity definition record of `defs` with
/// which something is wrong.
pub open spec fn entity_defs_fault(defs: Seq<ldtk::EntityDefinition>) -> Option<
    EntityDefinitionFromError,
>
    decreases defs.len(),
{
    if defs.len() == 0 {
        None
    } else if entity_defs_fault(defs.drop_last()) is Some {
        entity_defs_fault(defs.drop_last())
    } else {
        entity_definition_fault(defs.last())
    }
}

/// A fault among the first `n` entity definitions is the fault of the
/// whole list.
pub proof fn lemma_entity_defs_fault_stays(defs: Seq<ldtk::EntityDefinition>, n: int)
    requires
        0 <= n <= defs.len(),
        entity_defs_fault(defs.take(n)) is Some,
    ensures
        entity_defs_fault(defs) == entity_defs_fault(defs.take(n)),
    decreases defs.len() - n,
{
    if n < defs.len() {
        assert(defs.take(n + 1).drop_last() =~= defs.take(n));
        lemma_entity_defs_fault_stays(defs, n + 1);
    } else {
        assert(defs.take(n) =~= defs);
    }
}

/// Whether `table` holds the layer definitions `defs`: something under
/// every number that comes among them and under no other, and under each
/// number what the last record with that number says.
pub open spec fn holds_layer_defs(table: Map<i64, LayerDefinition>, defs: Seq<ldtk::LayerDefinition>) -> bool {
    &&& forall|uid: i64| #[trigger] table.contains_key(uid) <==> layer_uids(defs).contains(uid)
    &&& forall|at: int|
        is_last_with_uid(layer_uids(defs), at) ==> table.contains_key(
            #[trigger] layer_uids(defs)[at],
        ) && table[layer_uids(defs)[at]].mirrors(defs[at])
}

/// Whether `table` holds the entity definitions `defs`, the last record
/// under each number.
pub open spec fn holds_entity_defs(table: Map<i64, EntityDefinition>, defs: Seq<ldtk::EntityDefinition>) -> bool {
    &&& forall|uid: i64| #[trigger] table.contains_key(uid) <==> entity_uids(defs).contains(uid)
    &&& forall|at: int|
        is_last_with_uid(entity_uids(defs), at) ==> table.contains_key(
            #[trigger] entity_uids(defs)[at],
        ) && table[entity_uids(defs)[at]].mirrors(defs[at])
}

/// Whether `table` holds the tilesets `defs`, the last record under each
/// number.
pub open spec fn holds_tileset_defs(table: Map<i64, TilesetDefinition>, defs: Seq<ldtk::TilesetDefinition>) -> bool {
    &&& forall|uid: i64| #[trigger] table.contains_key(uid) <==> tileset_uids(defs).contains(uid)
    &&& forall|at: int|
        is_last_with_uid(tileset_uids(defs), at) ==> table.contains_key(
            #[trigger] tileset_uids(defs)[at],
        ) && table[tileset_uids(defs)[at]].mirrors(defs[at])
}

/// Whether `table` holds the enums `defs`, the last record under each
/// number.
pub open spec fn holds_enum_defs(table: Map<i64, EnumDefinition>, defs: Seq<ldtk::EnumDefinition>) -> bool {
    &&& forall|uid: i64| #[trigger] table.contains_key(uid) <==> enum_uids(defs).contains(uid)
    &&& forall|at: int|
        is_last_with_uid(enum_uids(defs), at) ==> table.contains_key(
            #[trigger] enum_uids(defs)[at],
        ) && table[enum_uids(defs)[at]].mirrors(defs[at])
}

/// The table of the layer definitions `defs`, or the name of the kind of
/// the first of them whose kind does not exist.
pub fn layer_table(defs: &Vec<ldtk::LayerDefinition>) -> (out: Result<
    HashMap<i64, LayerDefinition>,
    LayerDefinitionFromError,
>)
    ensures
        match out {
            Ok(table) => layer_defs_fault(defs@) is None && holds_layer_defs(table@, defs@),
            Err(LayerDefinitionFromError::UnknownLayerType(text)) => layer_defs_fault(defs@)
                == Some(text@),
        },
{
    let mut uids: Vec<i64> = Vec::new();
    let mut values: Vec<LayerDefinition> = Vec::new();
    let mut i: usize = 0;
    assert(defs@.take(0) =~= Seq::empty());
    while i < defs.len()
        invariant
            i <= defs.len(),
            uids@.len() == i,
            values@.len() == i,
            layer_defs_fault(defs@.take(i as int)) is None,
            forall|k: int| 0 <= k < i ==> uids@[k] == defs@[k].uid,
            forall|k: int| 0 <= k < i ==> (#[trigger] values@[k]).mirrors(defs@[k]),
        decreases defs.len() - i,
    {
        assert(defs@.take(i + 1).drop_last() =~= defs@.take(i as int));
        assert(defs@.take(i + 1).last() == defs@[i as int]);
        match LayerDefinition::new(&defs[i]) {
            Ok(def) => {
                uids.push(defs[i].uid);
                values.push(def);
            },
            Err(e) => {
                proof {
                    lemma_layer_defs_fault_stays(defs@, i + 1);
                }
                return Err(e);
            },
        }
        i += 1;
    }
    assert(defs@.take(defs.len() as int) =~= defs@);
    assert(uids@ =~= layer_uids(defs@));
    let ghost made = values@;
    let table = table_of(&uids, values);
    assert forall|at: int| is_last_with_uid(layer_uids(defs@), at) implies table@.contains_key(
        #[trigger] layer_uids(defs@)[at],
    ) && table@[layer_uids(defs@)[at]].mirrors(defs@[at]) by {
        assert(table@[uids@[at]] == made[at]);
    }
    Ok(table)
}

/// The table of the entity definitions `defs`, or what is wrong with the
/// first of them with which something is wrong.
pub fn entity_table(defs: &Vec<ldtk::EntityDefinition>) -> (out: Result<
    HashMap<i64, EntityDefinition>,
    EntityDefinitionFromError,
>)
    ensures
        match out {
            Ok(table) => entity_defs_fault(defs@) is None && holds_entity_defs(table@, defs@),
            Err(e) => entity_defs_fault(defs@) == Some(e),
        },
{
    let mut uids: Vec<i64> = Vec::new();
    let mut values: Vec<EntityDefinition> = Vec::new();
    let mut i: usize = 0;
    assert(defs@.take(0) =~= Seq::empty());
    while i < defs.len()
        invariant
            i <= defs.len(),
            uids@.len() == i,
            values@.len() == i,
            entity_defs_fault(defs@.take(i as int)) is None,
            forall|k: int| 0 <= k < i ==> uids@[k] == defs@[k].uid,
            forall|k: int| 0 <= k < i ==> (#[trigger] values@[k]).mirrors(defs@[k]),
        decreases defs.len() - i,
    {
        assert(defs@.take(i + 1).drop_last() =~= defs@.take(i as int));
        assert(defs@.take(i + 1).last() == defs@[i as int]);
        match EntityDefinition::new(&defs[i]) {
            Ok(def) => {
                uids.push(defs[i].uid);
                values.push(def);
            },
            Err(e) => {
                proof {
                    lemma_entity_defs_fault_stays(defs@, i + 1);
                }
                return Err(e);
            },
        }
        i += 1;
    }
    assert(defs@.take(defs.len() as int) =~= defs@);
    assert(uids@ =~= entity_uids(defs@));
    let ghost made = values@;
    let table = table_of(&uids, values);
    assert forall|at: int| is_last_with_uid(entity_uids(defs@), at) implies table@.contains_key(
        #[trigger] entity_uids(defs@)[at],
    ) && table@[entity_uids(defs@)[at]].mirrors(defs@[at]) by {
        assert(table@[uids@[at]] == made[at]);
    }
    Ok(table)
}

/// The table of the tilesets `defs`.
pub fn tileset_table(defs: &Vec<ldtk::TilesetDefinition>) -> (out: HashMap<i64, TilesetDefinition>)
    ensures
        holds_tileset_defs(out@, defs@),
{
    let mut uids: Vec<i64> = Vec::new();
    let mut values: Vec<TilesetDefinition> = Vec::new();
    let mut i: usize = 0;
    while i < defs.len()
        invariant
            i <= defs.len(),
            uids@.len() == i,
            values@.len() == i,
            forall|k: int| 0 <= k < i ==> uids@[k] == defs@[k].uid,
            forall|k: int| 0 <= k < i ==> (#[trigger] values@[k]).mirrors(defs@[k]),
        decreases defs.len() - i,
    {
        uids.push(defs[i].uid);
        values.push(TilesetDefinition::new(&defs[i]));
        i += 1;
    }
    assert(uids@ =~= tileset_uids(defs@));
    let ghost made = values@;
    let table = table_of(&uids, values);
    assert forall|at: int| is_last_with_uid(tileset_uids(defs@), at) implies table@.contains_key(
        #[trigger] tileset_uids(defs@)[at],
    ) && table@[tileset_uids(defs@)[at]].mirrors(defs@[at]) by {
        assert(table@[uids@[at]] == made[at]);
    }
    table
}

/// The table of the enums `defs`.
pub fn enum_table(defs: &Vec<ldtk::EnumDefinition>) -> (out: HashMap<i64, EnumDefinition>)
    ensures
        holds_enum_defs(out@, defs@),
{
    let mut uids: Vec<i64> = Vec::new();
    let mut values: Vec<EnumDefinition> = Vec::new();
    let mut i: usize = 0;
    while i < defs.len()
        invariant
            i <= defs.len(),
            uids@.len() == i,
            values@.len() == i,
            forall|k: int| 0 <= k < i ==> uids@[k] == defs@[k].uid,
            forall|k: int| 0 <= k < i ==> (#[trigger] values@[k]).mirrors(defs@[k]),
        decreases defs.len() - i,
    {
        uids.push(defs[i].uid);
        values.push(EnumDefinition::new(&defs[i]));
        i += 1;
    }
    assert(uids@ =~= enum_uids(defs@));
    let ghost made = values@;
    let table = table_of(&uids, values);
    assert forall|at: int| is_last_with_uid(enum_uids(defs@), at) implies table@.contains_key(
        #[trigger] enum_uids(defs@)[at],
    ) && table@[enum_uids(defs@)[at]].mirrors(defs@[at]) by {
        assert(table@[uids@[at]] == made[at]);
    }
    table
}

/// What is wrong with the first level of the first world of `worlds` in
/// which something is wrong.
pub open spec fn worlds_fault(
    worlds: Seq<ldtk::World>,
    external_levels: bool,
    externals: Seq<ExternalLevel>,
    level_separation: int,
    layer_separation: int,
) -> Option<LoadFault>
    decreases worlds.len(),
{
    if worlds.len() == 0 {
        None
    } else if worlds_fault(
        worlds.drop_last(),
        external_levels,
        externals,
        level_separation,
        layer_separation,
    ) is Some {
        worlds_fault(
            worlds.drop_last(),
            external_levels,
            externals,
            level_separation,
            layer_separation,
        )
    } else {
        levels_fault(
            worlds.last().levels@,
            external_levels,
            externals,
            level_separation,
            layer_separation,
        )
    }
}

/// A fault among the first `n` worlds is the fault of the whole list.
pub proof fn lemma_worlds_fault_stays(
    worlds: Seq<ldtk::World>,
    external_levels: bool,
    externals: Seq<ExternalLevel>,
    level_separation: int,
    layer_separation: int,
    n: int,
)
    requires
        0 <= n <= worlds.len(),
        worlds_fault(worlds.take(n), external_levels, externals, level_separation, layer_separation)
            is Some,
    ensures
        worlds_fault(worlds, external_levels, externals, level_separation, layer_separation)
            == worlds_fault(
            worlds.take(n),
            external_levels,
            externals,
            level_separation,
            layer_separation,
        ),
    decreases worlds.len() - n,
{
    if n < worlds.len() {
        assert(worlds.take(n + 1).drop_last() =~= worlds.take(n));
        lemma_worlds_fault_stays(
            worlds,
            external_levels,
            externals,
            level_separation,
            layer_separation,
            n + 1,
        );
    } else {
        assert(worlds.take(n) =~= worlds);
    }
}

/// Whether the worlds `docs` are, one for one, what the records `worlds`
/// become.
pub open spec fn worlds_mirror(
    docs: Seq<WorldDocument>,
    worlds: Seq<ldtk::World>,
    external_levels: bool,
    externals: Seq<ExternalLevel>,
    level_separation: int,
    layer_separation: int,
    project_iid: Seq<char>,
) -> bool {
    &&& docs.len() == worlds.len()
    &&& forall|i: int|
        0 <= i < docs.len() ==> (#[trigger] docs[i]).mirrors(
            worlds[i],
            external_levels,
            externals,
            level_separation,
            layer_separation,
            project_iid,
        )
}

/// The stable identifiers of world records.
pub open spec fn world_record_iids(worlds: Seq<ldtk::World>) -> Seq<Seq<char>> {
    worlds.map_values(|world: ldtk::World| world.iid@)
}

/// What the world records `worlds` become, or what is wrong with the first
/// of them in which something is wrong.
pub fn build_worlds(
    worlds: &Vec<ldtk::World>,
    external_levels: bool,
    externals: &Vec<ExternalLevel>,
    level_separation: i64,
    layer_separation: i64,
    project_iid: &String,
) -> (out: Result<Vec<WorldDocument>, ProjectAssetLoaderError>)
    ensures
        match out {
            Ok(docs) => worlds_fault(
                worlds@,
                external_levels,
                externals@,
                level_separation as int,
                layer_separation as int,
            ) is None && worlds_mirror(
                docs@,
                worlds@,
                external_levels,
                externals@,
                level_separation as int,
                layer_separation as int,
                project_iid@,
            ),
            Err(e) => worlds_fault(
                worlds@,
                external_levels,
                externals@,
                level_separation as int,
                layer_separation as int,
            ) == Some(e@),
        },
{
    let mut out: Vec<WorldDocument> = Vec::new();
    let mut i: usize = 0;
    assert(worlds@.take(0) =~= Seq::empty());
    while i < worlds.len()
        invariant
            i <= worlds.len(),
            out@.len() == i,
            worlds_fault(
                worlds@.take(i as int),
                external_levels,
                externals@,
                level_separation as int,
                layer_separation as int,
            ) is None,
            forall|k: int|
                0 <= k < i ==> (#[trigger] out@[k]).mirrors(
                    worlds@[k],
                    external_levels,
                    externals@,
                    level_separation as int,
                    layer_separation as int,
                    project_iid@,
                ),
        decreases worlds.len() - i,
    {
        assert(worlds@.take(i + 1).drop_last() =~= worlds@.take(i as int));
        assert(worlds@.take(i + 1).last() == worlds@[i as int]);
        match build_world(
            &worlds[i],
            external_levels,
            externals,
            level_separation,
            layer_separation,
            project_iid,
        ) {
            Ok(world) => {
                out.push(world);
            },
            Err(e) => {
                proof {
                    lemma_worlds_fault_stays(
                        worlds@,
                        external_levels,
                        externals@,
                        level_separation as int,
                        layer_separation as int,
                        i + 1,
                    );
                }
                return Err(e);
            },
        }
        i += 1;
    }
    assert(worlds@.take(worlds.len() as int) =~= worlds@);
    Ok(out)
}

/// The stable identifiers of worlds, in their order.
pub fn world_iids(worlds: &Vec<WorldDocument>) -> (out: Vec<String>)
    ensures
        out@.len() == worlds@.len(),
        forall|i: int| 0 <= i < out@.len() ==> (#[trigger] out@[i])@ == worlds@[i].asset.iid@,
{
    let mut out: Vec<String> = Vec::new();
    let mut i: usize = 0;
    while i < worlds.len()
        invariant
            i <= worlds.len(),
            out@.len() == i,
            forall|k: int| 0 <= k < i ==> (#[trigger] out@[k])@ == worlds@[k].asset.iid@,
        decreases worlds.len() - i,
    {
        out.push(worlds[i].asset.iid.clone());
        i += 1;
    }
    out
}

/// Whether a project file lacks one of the sizes that a project of one
/// world has to give.
pub open spec fn lacks_world_value(value: ldtk::LdtkJson) -> bool {
    value.default_level_height is None || value.default_level_width is None
        || value.world_grid_height is None || value.world_grid_width is None
}

/// Whether `world` is the one world of a project file that names no
/// worlds: it is called "World", carries the project's stable identifier,
/// sizes and layout, and holds the project's levels.
pub open spec fn is_implicit_world(world: ldtk::World, value: ldtk::LdtkJson) -> bool {
    &&& Some(world.default_level_height) == value.default_level_height
    &&& Some(world.default_level_width) == value.default_level_width
    &&& world.identifier@ == "World"@
    &&& world.iid@ == value.iid@
    &&& world.levels@ == value.levels@
    &&& Some(world.world_grid_height) == value.world_grid_height
    &&& Some(world.world_grid_width) == value.world_grid_width
    &&& world.world_layout == value.world_layout
}

/// Whether `worlds` are the worlds of a project file: those it names, or
/// else its one implicit world.
pub open spec fn are_worlds_of(worlds: Seq<ldtk::World>, value: ldtk::LdtkJson) -> bool {
    if value.worlds@.len() == 0 {
        worlds.len() == 1 && is_implicit_world(worlds[0], value)
    } else {
        worlds == value.worlds@
    }
}

/// What is wrong with a project file, if anything. A file without worlds
/// must give the sizes of its one world; then the worlds are looked at in
/// file order, then the layer definitions, the entity definitions, and the
/// project's colour.
pub open spec fn project_fault(
    value: ldtk::LdtkJson,
    externals: Seq<ExternalLevel>,
    settings: ProjectSettings,
) -> Option<LoadFault> {
    let in_worlds = if value.worlds@.len() == 0 {
        levels_fault(
            value.levels@,
            value.external_levels,
            externals,
            settings.level_separation as int,
            settings.layer_separation as int,
        )
    } else {
        worlds_fault(
            value.worlds@,
            value.external_levels,
            externals,
            settings.level_separation as int,
            settings.layer_separation as int,
        )
    };
    if value.worlds@.len() == 0 && lacks_world_value(value) {
        Some(LoadFault::ValueMissingInSingleWorld)
    } else if in_worlds is Some {
        in_worlds
    } else {
        asset_fault(value.defs, value.bg_color@)
    }
}

/// What is wrong with the definitions and the colour of a project file, if
/// anything: the layer definitions are looked at first, then the entity
/// definitions, then the colour.
pub open spec fn asset_fault(defs: ldtk::Definitions, bg_color: Seq<char>) -> Option<LoadFault> {
    if let Some(text) = layer_defs_fault(defs.layers@) {
        Some(LoadFault::LayerDefinitionFromError(text))
    } else if let Some(e) = entity_defs_fault(defs.entities@) {
        Some(LoadFault::EntityDefinitionFromError(e))
    } else if let Err(e) = color_of(bg_color) {
        Some(LoadFault::ColorParseError(e))
    } else {
        None
    }
}

/// Whether `asset` is the node of a project with the worlds `worlds`, the
/// definitions `defs` and the other values given.
pub open spec fn asset_mirrors(
    asset: ProjectAsset,
    worlds: Seq<ldtk::World>,
    defs: ldtk::Definitions,
    bg_color: Seq<char>,
    external_levels: bool,
    iid: Seq<char>,
    json_version: Seq<char>,
) -> bool {
    &&& color_of(bg_color) == Ok::<crate::canvas::Rgba, crate::util::ColorParseError>(
        asset.bg_color,
    )
    &&& asset.external_levels == external_levels
    &&& asset.iid@ == iid
    &&& asset.json_version@ == json_version
    &&& texts(asset.tileset_assets@).no_duplicates()
    &&& forall|path: Seq<char>| #[trigger]
        texts(asset.tileset_assets@).contains(path) <==> is_tileset_path(defs.tilesets@, path)
    &&& texts(asset.background_assets@).no_duplicates()
    &&& forall|path: Seq<char>| #[trigger]
        texts(asset.background_assets@).contains(path) <==> is_background_path(worlds, path)
    &&& holds_layer_defs(asset.layer_defs@, defs.layers@)
    &&& holds_entity_defs(asset.entity_defs@, defs.entities@)
    &&& holds_tileset_defs(asset.tileset_defs@, defs.tilesets@)
    &&& holds_enum_defs(asset.enum_defs@, defs.enums@)
    &&& texts(asset.world_iids@) == world_record_iids(worlds)
}

/// The node of a project, or what is wrong with its definitions or its
/// colour. `world_iids` are the stable identifiers of its worlds.
pub fn build_asset(
    worlds: &Vec<ldtk::World>,
    defs: &ldtk::Definitions,
    bg_color: &String,
    external_levels: bool,
    iid: String,
    json_version: String,
    world_iids: Vec<String>,
) -> (out: Result<ProjectAsset, ProjectAssetLoaderError>)
    requires
        texts(world_iids@) == world_record_iids(worlds@),
    ensures
        match out {
            Ok(asset) => asset_fault(*defs, bg_color@) is None && asset_mirrors(
                asset,
                worlds@,
                *defs,
                bg_color@,
                external_levels,
                iid@,
                json_version@,
            ),
            Err(e) => asset_fault(*defs, bg_color@) == Some(e@),
        },
{
    let background_assets = background_paths(worlds);
    let tileset_assets = tileset_paths(&defs.tilesets);
    let layer_defs = match layer_table(&defs.layers) {
        Ok(table) => table,
        Err(e) => { return Err(ProjectAssetLoaderError::LayerDefinitionFromError(e)); },
    };
    let entity_defs = match entity_table(&defs.entities) {
        Ok(table) => table,
        Err(e) => { return Err(ProjectAssetLoaderError::EntityDefinitionFromError(e)); },
    };
    let tileset_defs = tileset_table(&defs.tilesets);
    let enum_defs = enum_table(&defs.enums);
    let bg_color = match color_from_ldtk(bg_color.as_str()) {
        Ok(color) => color,
        Err(e) => { return Err(ProjectAssetLoaderError::ColorParseError(e)); },
    };
    Ok(
        ProjectAsset {
            bg_color,
            external_levels,
            iid,
            json_version,
            tileset_assets,
            background_assets,
            layer_defs,
            entity_defs,
            tileset_defs,
            enum_defs,
            world_iids,
        },
    )
}

/// The worlds of a project file, with the rest of the file.
pub struct ProjectParts {
    pub worlds: Vec<ldtk::World>,
    pub defs: ldtk::Definitions,
    pub bg_color: String,
    pub external_levels: bool,
    pub iid: String,
    pub json_version: String,
}

/// Takes a project file apart. A file that names no worlds gets its one
/// implicit world, and is refused where it lacks a size for it.
pub fn project_parts(value: ldtk::LdtkJson) -> (out: Option<ProjectParts>)
    ensures
        out is Some == !(value.worlds@.len() == 0 && lacks_world_value(value)),
        out is Some ==> {
            &&& are_worlds_of(out.unwrap().worlds@, value)
            &&& out.unwrap().defs == value.defs
            &&& out.unwrap().bg_color@ == value.bg_color@
            &&& out.unwrap().external_levels == value.external_levels
            &&& out.unwrap().iid@ == value.iid@
            &&& out.unwrap().json_version@ == value.json_version@
        },
{
    let ldtk::LdtkJson {
        bg_color,
        defs,
        external_levels,
        iid,
        json_version,
        levels,
        worlds,
        default_level_height,
        default_level_width,
        world_grid_height,
        world_grid_width,
        world_layout,
    } = value;
    let worlds: Vec<ldtk::World> = if worlds.len() == 0 {
        match (default_level_height, default_level_width, world_grid_height, world_grid_width) {
            (
                Some(default_level_height),
                Some(default_level_width),
                Some(world_grid_height),
                Some(world_grid_width),
            ) => {
                let mut only: Vec<ldtk::World> = Vec::new();
                only.push(
                    ldtk::World {
                        default_level_height,
                        default_level_width,
                        identifier: "World".to_owned(),
                        iid: iid.clone(),
                        levels,
                        world_grid_height,
                        world_grid_width,
                        world_layout,
                    },
                );
                only
            },
            _ => {
                return None;
            },
        }
    } else {
        worlds
    };
    Some(ProjectParts { worlds, defs, bg_color, external_levels, iid, json_version })
}

/// The node of a project with what its worlds became.
pub struct ProjectDocument {
    pub asset: ProjectAsset,
    /// The worlds of the project, in file order.
    pub worlds: Vec<WorldDocument>,
}

impl ProjectDocument {
    /// Whether `self` is what the project file `value`, with the worlds
    /// `worlds`, becomes.
    pub open spec fn mirrors_worlds(
        self,
        worlds: Seq<ldtk::World>,
        value: ldtk::LdtkJson,
        externals: Seq<ExternalLevel>,
        settings: ProjectSettings,
    ) -> bool {
        &&& worlds_mirror(
            self.worlds@,
            worlds,
            value.external_levels,
            externals,
            settings.level_separation as int,
            settings.layer_separation as int,
            value.iid@,
        )
        &&& asset_mirrors(
            self.asset,
            worlds,
            value.defs,
            value.bg_color@,
            value.external_levels,
            value.iid@,
            value.json_version@,
        )
    }

    /// Whether `self` is what the project file `value` becomes.
    pub open spec fn mirrors(
        self,
        value: ldtk::LdtkJson,
        externals: Seq<ExternalLevel>,
        settings: ProjectSettings,
    ) -> bool {
        exists|worlds: Seq<ldtk::World>| #[trigger]
            are_worlds_of(worlds, value) && self.mirrors_worlds(worlds, value, externals, settings)
    }
}

/// The document tree of a project file, or the first thing that is wrong
/// with it. `externals` are the level files that the project file names,
/// as far as they were read; `settings` say how far apart levels and
/// layers lie. Nothing of a file with a fault is handed out.
pub fn build_project(
    value: ldtk::LdtkJson,
    externals: &Vec<ExternalLevel>,
    settings: &ProjectSettings,
) -> (out: Result<ProjectDocument, ProjectAssetLoaderError>)
    ensures
        match out {
            Ok(project) => project_fault(value, externals@, *settings) is None && project.mirrors(
                value,
                externals@,
                *settings,
            ),
            Err(e) => project_fault(value, externals@, *settings) == Some(e@),
        },
{
    let parts = match project_parts(value) {
        Some(parts) => parts,
        None => { return Err(ProjectAssetLoaderError::ValueMissingInSingleWorld); },
    };
    proof {
        if value.worlds@.len() == 0 {
            assert(parts.worlds@.drop_last() =~= Seq::empty());
            assert(parts.worlds@.last().levels@ == value.levels@);
            assert(worlds_fault(
                parts.worlds@.drop_last(),
                value.external_levels,
                externals@,
                settings.level_separation as int,
                settings.layer_separation as int,
            ) is None);
        }
    }
    let docs = match build_worlds(
        &parts.worlds,
        parts.external_levels,
        externals,
        settings.level_separation,
        settings.layer_separation,
        &parts.iid,
    ) {
        Ok(docs) => docs,
        Err(e) => { return Err(e); },
    };
    let iids = world_iids(&docs);
    assert(texts(iids@) =~= world_record_iids(parts.worlds@));
    let asset = match build_asset(
        &parts.worlds,
        &parts.defs,
        &parts.bg_color,
        parts.external_levels,
        parts.iid.clone(),
        parts.json_version.clone(),
        iids,
    ) {
        Ok(asset) => asset,
        Err(e) => { return Err(e); },
    };
    let project = ProjectDocument { asset, worlds: docs };
    assert(are_worlds_of(parts.worlds@, value) && project.mirrors_worlds(
        parts.worlds@,
        value,
        externals@,
        *settings,
    ));
    Ok(project)
}

/// A project file that names no worlds and gives no default level width is
/// refused for the missing value, whatever else it holds.
pub proof fn law_single_world_needs_level_width(
    value: ldtk::LdtkJson,
    externals: Seq<ExternalLevel>,
    settings: ProjectSettings,
)
    requires
        value.worlds@.len() == 0,
        value.default_level_width is None,
    ensures
        project_fault(value, externals, settings) == Some(LoadFault::ValueMissingInSingleWorld),
{
}

} // verus!
