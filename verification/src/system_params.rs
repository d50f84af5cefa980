//! Finding a project among those that are loaded.

use vstd::prelude::*;
use crate::components::Iid;
use crate::project::ProjectAsset;

verus! {

/// A scene node that stands for a project.
pub struct ProjectEntity {
    /// The scene node.
    pub entity: u64,
    /// The place of the project's document node among the loaded ones.
    pub project: usize,
    /// The stable-identifier tag of the scene node.
    pub iid: Iid,
}

/// The loaded projects, and the scene nodes that stand for them.
pub struct LdtkProjectCommands {
    pub project_assets: Vec<ProjectAsset>,
    pub query: Vec<ProjectEntity>,
}

/// The place of the first of `iids` that is `iid`, or -1.
pub open spec fn first_with_iid(iids: Seq<Seq<char>>, iid: Seq<char>) -> int
    decreases iids.len(),
{
    if iids.len() == 0 {
        -1
    } else if first_with_iid(iids.drop_last(), iid) >= 0 {
        first_with_iid(iids.drop_last(), iid)
    } else if iids.last() == iid {
        iids.len() - 1
    } else {
        -1
    }
}

/// What `first_with_iid` finds is a place that holds `iid`, with no such
/// place before it, and it finds one wherever there is one.
pub proof fn law_first_with_iid_is_first(iids: Seq<Seq<char>>, iid: Seq<char>)
    ensures
        -1 <= first_with_iid(iids, iid) < iids.len(),
        first_with_iid(iids, iid) >= 0 ==> iids[first_with_iid(iids, iid)] == iid,
        forall|i: int| 0 <= i < first_with_iid(iids, iid) ==> iids[i] != iid,
        first_with_iid(iids, iid) < 0 ==> !iids.contains(iid),
    decreases iids.len(),
{
    if iids.len() > 0 {
        law_first_with_iid_is_first(iids.drop_last(), iid);
        let found = first_with_iid(iids, iid);
        assert forall|i: int| 0 <= i < found implies iids[i] != iid by {
            assert(iids.drop_last()[i] == iids[i]);
        }
        if found < 0 {
            assert forall|i: int| 0 <= i < iids.len() implies iids[i] != iid by {
                if i < iids.len() - 1 {
                    assert(iids.drop_last()[i] == iids[i]);
                    assert(iids.drop_last().contains(iids[i]));
                }
            }
        }
    }
}

/// What is found among the first `n` is what is found in the whole list.
pub proof fn lemma_first_with_iid_stays(iids: Seq<Seq<char>>, iid: Seq<char>, n: int)
    requires
        0 <= n <= iids.len(),
        first_with_iid(iids.take(n), iid) >= 0,
    ensures
        first_with_iid(iids, iid) == first_with_iid(iids.take(n), iid),
    decreases iids.len() - n,
{
    if n < iids.len() {
        assert(iids.take(n + 1).drop_last() =~= iids.take(n));
        lemma_first_with_iid_stays(iids, iid, n + 1);
    } else {
        assert(iids.take(n) =~= iids);
    }
}

/// The stable identifiers of projects.
pub open spec fn project_iids(projects: Seq<ProjectAsset>) -> Seq<Seq<char>> {
    projects.map_values(|project: ProjectAsset| project.iid@)
}

/// The projects that `projects` point at.
pub open spec fn pointed<'w>(projects: Seq<&'w ProjectAsset>) -> Seq<ProjectAsset> {
    projects.map_values(|project: &'w ProjectAsset| *project)
}

/// The stable-identifier tags of the scene nodes of projects.
pub open spec fn entity_iids<'w>(entities: Seq<(u64, &'w ProjectAsset, &'w Iid)>) -> Seq<Seq<char>> {
    entities.map_values(|entity: (u64, &'w ProjectAsset, &'w Iid)| entity.2.0@)
}

impl LdtkProjectCommands {
    /// Whether every scene node points at a loaded project.
    pub open spec fn wf(&self) -> bool {
        forall|i: int|
            0 <= i < self.query@.len() ==> (#[trigger] self.query@[i]).project
                < self.project_assets@.len()
    }

    /// The loaded projects.
    pub fn iter(&self) -> (out: Vec<&ProjectAsset>)
        ensures
            pointed(out@) == self.project_assets@,
    {
        let mut out: Vec<&ProjectAsset> = Vec::new();
        let mut i: usize = 0;
        while i < self.project_assets.len()
            invariant
                i <= self.project_assets.len(),
                out@.len() == i,
                forall|k: int| 0 <= k < i ==> *out@[k] == self.project_assets@[k],
            decreases self.project_assets.len() - i,
        {
            out.push(&self.project_assets[i]);
            i += 1;
        }
        assert(pointed(out@) =~= self.project_assets@);
        out
    }

    /// The scene nodes that stand for projects, each with its project and
    /// its tag.
    pub fn iter_entities(&self) -> (out: Vec<(u64, &ProjectAsset, &Iid)>)
        requires
            self.wf(),
        ensures
            out@.len() == self.query@.len(),
            forall|i: int|
                0 <= i < out@.len() ==> {
                    &&& (#[trigger] out@[i]).0 == self.query@[i].entity
                    &&& *out@[i].1 == self.project_assets@[self.query@[i].project as int]
                    &&& *out@[i].2 == self.query@[i].iid
                },
    {
        let mut out: Vec<(u64, &ProjectAsset, &Iid)> = Vec::new();
        let mut i: usize = 0;
        while i < self.query.len()
            invariant
                i <= self.query.len(),
                self.wf(),
                out@.len() == i,
                forall|k: int|
                    0 <= k < i ==> {
                        &&& (#[trigger] out@[k]).0 == self.query@[k].entity
                        &&& *out@[k].1 == self.project_assets@[self.query@[k].project as int]
                        &&& *out@[k].2 == self.query@[k].iid
                    },
            decreases self.query.len() - i,
        {
            let here = &self.query[i];
            out.push((here.entity, &self.project_assets[here.project], &here.iid));
            i += 1;
        }
        out
    }
}

/// Finding a project by its stable identifier.
pub trait LdtkProjectCommandsEx<'w> {
    /// The projects that are looked through.
    spec fn projects(&self) -> Seq<ProjectAsset>;

    /// The first project whose stable identifier is `iid`.
    fn with_iid(&self, iid: &str) -> (out: Option<&'w ProjectAsset>)
        ensures
            out is Some == (first_with_iid(project_iids(self.projects()), iid@) >= 0),
            out is Some ==> *out.unwrap() == self.projects()[first_with_iid(
                project_iids(self.projects()),
                iid@,
            )],
    ;
}

impl<'w> LdtkProjectCommandsEx<'w> for Vec<&'w ProjectAsset> {
    open spec fn projects(&self) -> Seq<ProjectAsset> {
        pointed(self@)
    }

    fn with_iid(&self, iid: &str) -> (out: Option<&'w ProjectAsset>) {
        let wanted = iid.to_owned();
        let ghost iids = project_iids(pointed(self@));
        let mut i: usize = 0;
        assert(iids.take(0) =~= Seq::empty());
        while i < self.len()
            invariant
                i <= self.len(),
                iids == project_iids(pointed(self@)),
                wanted@ == iid@,
                first_with_iid(iids.take(i as int), iid@) == -1,
            decreases self.len() - i,
        {
            assert(iids.take(i + 1).drop_last() =~= iids.take(i as int));
            assert(iids.take(i + 1).last() == self@[i as int].iid@);
            if self[i].iid == wanted {
                proof {
                    lemma_first_with_iid_stays(iids, iid@, i + 1);
                }
                return Some(self[i]);
            }
            i += 1;
        }
        assert(iids.take(self.len() as int) =~= iids);
        None
    }
}

/// Finding the scene node of a project by its stable-identifier tag.
pub trait LdtkProjectCommandsEntityEx<'w> {
    /// The scene nodes that are looked through.
    spec fn entities(&self) -> Seq<(u64, &'w ProjectAsset, &'w Iid)>;

    /// The first scene node whose tag is `iid`, with its project and its
    /// tag.
    fn with_iid(&self, iid: &str) -> (out: Option<(u64, &'w ProjectAsset, &'w Iid)>)
        ensures
            out is Some == (first_with_iid(entity_iids(self.entities()), iid@) >= 0),
            out is Some ==> out.unwrap() == self.entities()[first_with_iid(
                entity_iids(self.entities()),
                iid@,
            )],
    ;
}

impl<'w> LdtkProjectCommandsEntityEx<'w> for Vec<(u64, &'w ProjectAsset, &'w Iid)> {
    open spec fn entities(&self) -> Seq<(u64, &'w ProjectAsset, &'w Iid)> {
        self@
    }

    fn with_iid(&self, iid: &str) -> (out: Option<(u64, &'w ProjectAsset, &'w Iid)>) {
        let wanted = iid.to_owned();
        let ghost iids = entity_iids(self@);
        let mut i: usize = 0;
        assert(iids.take(0) =~= Seq::empty());
        while i < self.len()
            invariant
                i <= self.len(),
                iids == entity_iids(self@),
                wanted@ == iid@,
                first_with_iid(iids.take(i as int), iid@) == -1,
            decreases self.len() - i,
        {
            assert(iids.take(i + 1).drop_last() =~= iids.take(i as int));
            assert(iids.take(i + 1).last() == self@[i as int].2.0@);
            if self[i].2.0 == wanted {
                proof {
                    lemma_first_with_iid_stays(iids, iid@, i + 1);
                }
                return Some((self[i].0, self[i].1, self[i].2));
            }
            i += 1;
        }
        assert(iids.take(self.len() as int) =~= iids);
        None
    }
}

} // verus!
