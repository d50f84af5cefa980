//! The selective load specification: which of the children that a document
//! node declares are to be materialized at all.

use vstd::prelude::*;
use crate::util::texts;
use crate::reconcile::{diff_children, nodes_of, tags, to_add, to_remove, Diff, Materialized};
use crate::scene_model::{after_pass, distinct_nodes, law_pass_materializes_declared};

verus! {

/// Which children of a node to materialize. The specification nests: each
/// listed child carries the specification for its own children.
pub enum LoadSpec {
    /// Materialize nothing.
    Nothing,
    /// Materialize the listed children and no others, each with the
    /// specification given for what lies below it.
    ByIid(Vec<(String, LoadSpec)>),
    /// Materialize every child, and every child below.
    All,
}

/// Whether `entries` lists the child `iid`.
pub open spec fn lists(entries: Seq<(String, LoadSpec)>, iid: Seq<char>) -> bool {
    exists|i: int| 0 <= i < entries.len() && (#[trigger] entries[i]).0@ == iid
}

/// Whether `spec` has the child `iid` materialized.
pub open spec fn selects(spec: LoadSpec, iid: Seq<char>) -> bool {
    match spec {
        LoadSpec::Nothing => false,
        LoadSpec::ByIid(entries) => lists(entries@, iid),
        LoadSpec::All => true,
    }
}

/// The children of `children` that `spec` has materialized, in their
/// order.
pub open spec fn selected(children: Seq<Seq<char>>, spec: LoadSpec) -> Seq<Seq<char>>
    decreases children.len(),
{
    if children.len() == 0 {
        Seq::empty()
    } else if selects(spec, children.last()) {
        selected(children.drop_last(), spec).push(children.last())
    } else {
        selected(children.drop_last(), spec)
    }
}

/// A child is among the selected ones exactly when it is declared and the
/// specification has it materialized.
pub proof fn lemma_selected(children: Seq<Seq<char>>, spec: LoadSpec)
    ensures
        forall|iid: Seq<char>| #[trigger]
            selected(children, spec).contains(iid) <==> children.contains(iid) && selects(
                spec,
                iid,
            ),
        selected(children, spec).len() <= children.len(),
        spec is All ==> selected(children, spec) == children,
        spec is Nothing ==> selected(children, spec).len() == 0,
    decreases children.len(),
{
    if children.len() > 0 {
        let front = children.drop_last();
        let rest = selected(front, spec);
        let out = selected(children, spec);
        lemma_selected(front, spec);
        assert(children[children.len() - 1] == children.last());
        assert forall|iid: Seq<char>| #[trigger]
            out.contains(iid) <==> children.contains(iid) && selects(spec, iid) by {
            if children.contains(iid) {
                let i = choose|i: int| 0 <= i < children.len() && children[i] == iid;
                if i < front.len() {
                    assert(front[i] == iid);
                }
            }
            if front.contains(iid) {
                let i = choose|i: int| 0 <= i < front.len() && front[i] == iid;
                assert(children[i] == iid);
            }
            if out != rest {
                assert(out[rest.len() as int] == children.last());
                if out.contains(iid) {
                    let i = choose|i: int| 0 <= i < out.len() && out[i] == iid;
                    if i < rest.len() {
                        assert(rest[i] == iid);
                    }
                }
                if rest.contains(iid) {
                    let i = choose|i: int| 0 <= i < rest.len() && rest[i] == iid;
                    assert(out[i] == iid);
                }
            }
        }
        if spec is All {
            assert(out =~= children);
        }
    }
}

impl LoadSpec {
    /// Whether the child `iid` is to be materialized.
    pub fn selects(&self, iid: &String) -> (out: bool)
        ensures
            out == selects(*self, iid@),
    {
        match self {
            LoadSpec::Nothing => false,
            LoadSpec::All => true,
            LoadSpec::ByIid(entries) => {
                let mut i: usize = 0;
                while i < entries.len()
                    invariant
                        i <= entries.len(),
                        self is ByIid,
                        self->ByIid_0 == *entries,
                        forall|k: int| 0 <= k < i ==> (#[trigger] entries@[k]).0@ != iid@,
                    decreases entries.len() - i,
                {
                    if entries[i].0 == *iid {
                        return true;
                    }
                    i += 1;
                }
                false
            },
        }
    }

    /// The specification for the children of the child `iid`, where that
    /// child is to be materialized at all. Below a child of `All`
    /// everything is materialized; a child that is listed twice goes by
    /// its first entry.
    pub fn below(&self, iid: &String) -> (out: Option<&LoadSpec>)
        ensures
            out is Some == selects(*self, iid@),
            self is All ==> out == Some(self),
            out is Some && self is ByIid ==> exists|i: int|
                0 <= i < self->ByIid_0@.len() && (#[trigger] self->ByIid_0@[i]).0@ == iid@
                    && *out.unwrap() == self->ByIid_0@[i].1 && forall|k: int|
                    0 <= k < i ==> (#[trigger] self->ByIid_0@[k]).0@ != iid@,
    {
        match self {
            LoadSpec::Nothing => None,
            LoadSpec::All => Some(self),
            LoadSpec::ByIid(entries) => {
                let mut i: usize = 0;
                while i < entries.len()
                    invariant
                        i <= entries.len(),
                        self is ByIid,
                        self->ByIid_0 == *entries,
                        forall|k: int| 0 <= k < i ==> (#[trigger] entries@[k]).0@ != iid@,
                    decreases entries.len() - i,
                {
                    if entries[i].0 == *iid {
                        return Some(&entries[i].1);
                    }
                    i += 1;
                }
                None
            },
        }
    }
}

/// The children of `children` that `spec` has materialized, in their
/// order.
pub fn filter_children(children: &Vec<String>, spec: &LoadSpec) -> (out: Vec<String>)
    ensures
        texts(out@) == selected(texts(children@), *spec),
{
    let ghost all = texts(children@);
    let mut out: Vec<String> = Vec::new();
    let mut i: usize = 0;
    assert(all.take(0) =~= Seq::empty());
    assert(texts(out@) =~= Seq::empty());
    while i < children.len()
        invariant
            i <= children.len(),
            all == texts(children@),
            texts(out@) == selected(all.take(i as int), *spec),
        decreases children.len() - i,
    {
        let ghost before = texts(out@);
        assert(all.take(i + 1).drop_last() =~= all.take(i as int));
        assert(all.take(i + 1).last() == children@[i as int]@);
        if spec.selects(&children[i]) {
            out.push(children[i].clone());
            assert(texts(out@) =~= before.push(children@[i as int]@));
        }
        i += 1;
    }
    assert(all.take(children.len() as int) =~= all);
    out
}

/// One reconciliation pass for one parent whose document node declares
/// `children`: the children that `spec` selects are compared with the
/// nodes materialized under the parent.
pub fn reconcile_children(children: &Vec<String>, spec: &LoadSpec, materialized: &Vec<Materialized>) -> (diff:
    Diff)
    ensures
        texts(diff.spawn@) == to_add(
            selected(texts(children@), *spec),
            tags(nodes_of(materialized@)),
        ),
        diff.despawn@ == to_remove(
            nodes_of(materialized@),
            selected(texts(children@), *spec).to_set(),
        ),
{
    let declared = filter_children(children, spec);
    diff_children(&declared, materialized)
}

/// Why the children of a parent could not be reconciled.
#[derive(Clone, Copy, Debug, PartialEq, Eq, Structural)]
pub enum LdtkAssetChildLoaderError {
    /// The parent's document node is not there.
    BadHandle,
}

/// The reconciliation pass for a ready-notification. `children` are the
/// children that the parent's document node declares, where the node can
/// be resolved; where it cannot, the parent is reported as dangling and
/// nothing is spawned or despawned under it.
pub fn load_children_system(
    children: Option<&Vec<String>>,
    spec: &LoadSpec,
    materialized: &Vec<Materialized>,
) -> (out: Result<Diff, LdtkAssetChildLoaderError>)
    ensures
        out is Err == children is None,
        out is Ok ==> texts(out.unwrap().spawn@) == to_add(
            selected(texts(children.unwrap()@), *spec),
            tags(nodes_of(materialized@)),
        ),
        out is Ok ==> out.unwrap().despawn@ == to_remove(
            nodes_of(materialized@),
            selected(texts(children.unwrap()@), *spec).to_set(),
        ),
{
    match children {
        Some(children) => Ok(reconcile_children(children, spec, materialized)),
        None => Err(LdtkAssetChildLoaderError::BadHandle),
    }
}

/// After one pass the identifiers materialized under a parent are exactly
/// those of its declared children that the specification selects.
pub proof fn law_pass_materializes_selected(
    children: Seq<Seq<char>>,
    spec: LoadSpec,
    nodes: Seq<(u64, Seq<char>)>,
    fresh: Seq<u64>,
)
    requires
        distinct_nodes(nodes),
        fresh.len() == to_add(selected(children, spec), tags(nodes)).len(),
    ensures
        forall|iid: Seq<char>| #[trigger]
            tags(
                after_pass(
                    nodes,
                    to_remove(nodes, selected(children, spec).to_set()),
                    to_add(selected(children, spec), tags(nodes)),
                    fresh,
                ),
            ).contains(iid) <==> children.contains(iid) && selects(spec, iid),
{
    law_pass_materializes_declared(selected(children, spec), nodes, fresh);
    lemma_selected(children, spec);
}

} // verus!
