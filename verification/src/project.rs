//! The document node of a project, with the definitions that its levels
//! share, and the settings it is read with.

use std::collections::HashMap;
use vstd::prelude::*;
use crate::canvas::Rgba;
use crate::defs::{EntityDefinition, EnumDefinition, LayerDefinition, TilesetDefinition};
use crate::util::{clone_strings, texts};

verus! {

broadcast use vstd::std_specs::hash::group_hash_axioms;

/// How far apart levels and layers lie in depth, in thousandths.
#[derive(Clone, Copy, Debug, PartialEq, Eq, Structural)]
pub struct ProjectSettings {
    /// The depth between two levels whose world depths differ by one.
    pub level_separation: i64,
    /// The depth between two layers of a level.
    pub layer_separation: i64,
}

impl Default for ProjectSettings {
    /// Levels lie ten apart, layers a tenth.
    fn default() -> (out: Self)
        ensures
            out.level_separation == 10_000,
            out.layer_separation == 100,
    {
        ProjectSettings { level_separation: 10_000, layer_separation: 100 }
    }
}

/// Whether entry `at` of `uids` is the last one with its number.
pub open spec fn is_last_with_uid(uids: Seq<i64>, at: int) -> bool {
    &&& 0 <= at < uids.len()
    &&& forall|later: int| at < later < uids.len() ==> uids[later] != uids[at]
}

/// The table that holds each of `values` under its number from `uids`.
/// Where a number comes twice, the later value stays.
pub fn table_of<V>(uids: &Vec<i64>, values: Vec<V>) -> (out: HashMap<i64, V>)
    requires
        uids.len() == values.len(),
    ensures
        forall|uid: i64| #[trigger] out@.contains_key(uid) <==> uids@.contains(uid),
        forall|at: int|
            is_last_with_uid(uids@, at) ==> out@.contains_key(#[trigger] uids@[at]) && out@[uids@[at]]
                == values@[at],
{
    let ghost all = values@;
    let mut values = values;
    let mut out: HashMap<i64, V> = HashMap::new();
    while values.len() > 0
        invariant
            values@.len() <= all.len(),
            uids.len() == all.len(),
            values@ == all.take(values@.len() as int),
            forall|uid: i64| #[trigger]
                out@.contains_key(uid) <==> exists|j: int|
                    values@.len() <= j < uids.len() && uids@[j] == uid,
            forall|at: int|
                values@.len() <= at && is_last_with_uid(uids@, at) ==> out@.contains_key(
                    #[trigger] uids@[at],
                ) && out@[uids@[at]] == all[at],
        decreases values.len(),
    {
        let ghost before = out@;
        let ghost n = values@.len() - 1;
        let value = values.pop().unwrap();
        let uid = uids[values.len()];
        assert(values@ =~= all.take(n));
        assert(value == all[n]);
        if !out.contains_key(&uid) {
            out.insert(uid, value);
            assert(is_last_with_uid(uids@, n)) by {
                assert forall|later: int| n < later < uids.len() implies uids@[later] != uids@[n] by {
                    if uids@[later] == uid {
                        assert(before.contains_key(uid));
                    }
                }
            }
        } else {
            assert(!is_last_with_uid(uids@, n)) by {
                let j = choose|j: int| n + 1 <= j < uids.len() && uids@[j] == uid;
                assert(uids@[j] == uids@[n]);
            }
        }
        assert forall|other: i64| #[trigger] out@.contains_key(other) <==> exists|j: int|
            n <= j < uids.len() && uids@[j] == other by {
            if out@.contains_key(other) {
                if other == uid {
                    assert(uids@[n] == other);
                } else {
                    assert(before.contains_key(other));
                    let j = choose|j: int| n + 1 <= j < uids.len() && uids@[j] == other;
                    assert(n <= j < uids.len() && uids@[j] == other);
                }
            }
            if exists|j: int| n <= j < uids.len() && uids@[j] == other {
                let j = choose|j: int| n <= j < uids.len() && uids@[j] == other;
                if j > n {
                    assert(before.contains_key(other));
                }
            }
        }
    }
    assert forall|uid: i64| #[trigger] out@.contains_key(uid) <==> uids@.contains(uid) by {
        if out@.contains_key(uid) {
            let j = choose|j: int| 0 <= j < uids.len() && uids@[j] == uid;
            assert(uids@[j] == uid);
        }
        if uids@.contains(uid) {
            let j = choose|j: int| 0 <= j < uids@.len() && uids@[j] == uid;
            assert(0 <= j < uids.len() && uids@[j] == uid);
        }
    }
    out
}

/// The document node of a project.
pub struct ProjectAsset {
    pub bg_color: Rgba,
    /// Whether the levels are kept in files of their own.
    pub external_levels: bool,
    pub iid: String,
    pub json_version: String,
    /// The paths of the tileset images that the project asks for, each
    /// once.
    pub tileset_assets: Vec<String>,
    /// The paths of the background images that the project asks for, each
    /// once.
    pub background_assets: Vec<String>,
    pub layer_defs: HashMap<i64, LayerDefinition>,
    pub entity_defs: HashMap<i64, EntityDefinition>,
    pub tileset_defs: HashMap<i64, TilesetDefinition>,
    pub enum_defs: HashMap<i64, EnumDefinition>,
    /// The stable identifiers of the project's worlds, in file order.
    pub world_iids: Vec<String>,
}

impl ProjectAsset {

    /// The stable identifiers of the project's worlds, in file order.
    pub fn children(&self) -> (out: Vec<String>)
        ensures
            texts(out@) == texts(self.world_iids@),
    {
        clone_strings(&self.world_iids)
    }
}

} // verus!
