//! The reconciliation engine: the children that a parent declares are
//! compared, by stable identifier, with the scene nodes that are materialized
//! under it, and the difference becomes spawn and despawn instructions.

use vstd::prelude::*;
use crate::util::{has_text, texts};

verus! {

/// A scene node that is materialized under some parent and carries a
/// stable-identifier tag.
pub struct Materialized {
    /// The host's identity of the scene node.
    pub node: u64,
    /// The stable identifier the node is tagged with.
    pub iid: String,
}

impl View for Materialized {
    type V = (u64, Seq<char>);

    open spec fn view(&self) -> (u64, Seq<char>) {
        (self.node, self.iid@)
    }
}

/// The instructions that one reconciliation pass issues for one parent.
pub struct Diff {
    /// Stable identifiers for which a scene node is to be created, in the
    /// order in which the parent declares them.
    pub spawn: Vec<String>,
    /// Scene nodes to destroy, with everything beneath them.
    pub despawn: Vec<u64>,
}

/// The model of a list of materialized nodes: pairs of node and identifier.
pub open spec fn nodes_of(list: Seq<Materialized>) -> Seq<(u64, Seq<char>)> {
    list.map_values(|m: Materialized| m@)
}

/// The identifiers that the nodes of `nodes` are tagged with.
pub open spec fn tags(nodes: Seq<(u64, Seq<char>)>) -> Set<Seq<char>> {
    Set::new(|iid: Seq<char>| exists|i: int| 0 <= i < nodes.len() && #[trigger] nodes[i].1 == iid)
}

/// The declared identifiers that no materialized node carries, each once, in
/// declared order.
pub open spec fn to_add(declared: Seq<Seq<char>>, present: Set<Seq<char>>) -> Seq<Seq<char>>
    decreases declared.len(),
{
    if declared.len() == 0 {
        Seq::empty()
    } else {
        let rest = to_add(declared.drop_last(), present);
        let iid = declared.last();
        if present.contains(iid) || rest.contains(iid) {
            rest
        } else {
            rest.push(iid)
        }
    }
}

/// The materialized nodes whose identifier is no longer declared, in the
/// order in which they were enumerated.
pub open spec fn to_remove(nodes: Seq<(u64, Seq<char>)>, declared: Set<Seq<char>>) -> Seq<u64>
    decreases nodes.len(),
{
    if nodes.len() == 0 {
        Seq::empty()
    } else {
        let rest = to_remove(nodes.drop_last(), declared);
        if declared.contains(nodes.last().1) {
            rest
        } else {
            rest.push(nodes.last().0)
        }
    }
}

/// Whether some node of `materialized` is tagged with `iid`.
pub fn is_materialized(materialized: &Vec<Materialized>, iid: &String) -> (found: bool)
    ensures
        found == tags(nodes_of(materialized@)).contains(iid@),
{
    let mut i: usize = 0;
    while i < materialized.len()
        invariant
            i <= materialized.len(),
            forall|j: int| 0 <= j < i ==> nodes_of(materialized@)[j].1 != iid@,
        decreases materialized.len() - i,
    {
        if materialized[i].iid == *iid {
            assert(nodes_of(materialized@)[i as int].1 == iid@);
            return true;
        }
        i += 1;
    }
    false
}

/// One reconciliation pass for one parent: which identifiers need a new
/// scene node and which scene nodes have to go. Nodes whose identifier is
/// both declared and materialized appear in neither list.
pub fn diff_children(declared: &Vec<String>, materialized: &Vec<Materialized>) -> (diff: Diff)
    ensures
        texts(diff.spawn@) == to_add(texts(declared@), tags(nodes_of(materialized@))),
        diff.despawn@ == to_remove(nodes_of(materialized@), texts(declared@).to_set()),
{
    let ghost want = texts(declared@);
    let ghost have = nodes_of(materialized@);
    let mut spawn: Vec<String> = Vec::new();
    let mut i: usize = 0;
    assert(want.take(0) =~= Seq::empty());
    assert(texts(spawn@) =~= Seq::empty());
    while i < declared.len()
        invariant
            i <= declared.len(),
            want == texts(declared@),
            have == nodes_of(materialized@),
            texts(spawn@) == to_add(want.take(i as int), tags(have)),
        decreases declared.len() - i,
    {
        let iid = &declared[i];
        let ghost before = texts(spawn@);
        assert(want.take(i + 1).drop_last() =~= want.take(i as int));
        assert(want.take(i + 1).last() == iid@);
        let skip = is_materialized(materialized, iid) || has_text(&spawn, iid);
        if !skip {
            spawn.push(iid.clone());
            assert(texts(spawn@) =~= before.push(iid@));
        }
        i += 1;
    }
    assert(want.take(declared.len() as int) =~= want);

    let mut despawn: Vec<u64> = Vec::new();
    let mut k: usize = 0;
    assert(have.take(0) =~= Seq::empty());
    while k < materialized.len()
        invariant
            k <= materialized.len(),
            want == texts(declared@),
            have == nodes_of(materialized@),
            despawn@ == to_remove(have.take(k as int), want.to_set()),
        decreases materialized.len() - k,
    {
        assert(have.take(k + 1).drop_last() =~= have.take(k as int));
        assert(have.take(k + 1).last() == materialized@[k as int]@);
        if !has_text(declared, &materialized[k].iid) {
            despawn.push(materialized[k].node);
        }
        k += 1;
    }
    assert(have.take(materialized.len() as int) =~= have);
    Diff { spawn, despawn }
}

} // verus!
