//! The document node of a world.

use vstd::prelude::*;
use crate::ldtk;
use crate::ldtk::WorldLayout;
use crate::util::{clone_strings, texts};

verus! {

/// The document node of a world.
pub struct WorldAsset {
    pub identifier: String,
    pub iid: String,
    /// Width and height of a cell of the world's grid.
    pub world_grid_size: (i64, i64),
    pub world_layout: WorldLayout,
    /// The stable identifier of the project that the world belongs to.
    pub project_iid: String,
    /// The stable identifiers of the world's levels, in file order.
    pub level_iids: Vec<String>,
}

/// The layout of a world; one that names none is laid out freely.
pub open spec fn layout_of(layout: Option<WorldLayout>) -> WorldLayout {
    match layout {
        Some(layout) => layout,
        None => WorldLayout::Free,
    }
}

impl WorldAsset {
    /// Whether `self` is the node of the record `value` in the project
    /// `project_iid`, with the levels `level_iids`.
    pub open spec fn mirrors(
        self,
        value: ldtk::World,
        project_iid: Seq<char>,
        level_iids: Seq<Seq<char>>,
    ) -> bool {
        &&& self.identifier@ == value.identifier@
        &&& self.iid@ == value.iid@
        &&& self.world_grid_size == (value.world_grid_width, value.world_grid_height)
        &&& self.world_layout == layout_of(value.world_layout)
        &&& self.project_iid@ == project_iid
        &&& texts(self.level_iids@) == level_iids
    }

    /// Makes the node of a world record of the project `project_iid`.
    pub fn new(value: &ldtk::World, project_iid: String, level_iids: Vec<String>) -> (out: Self)
        ensures
            out.mirrors(*value, project_iid@, texts(level_iids@)),
    {
        WorldAsset {
            identifier: value.identifier.clone(),
            iid: value.iid.clone(),
            world_grid_size: (value.world_grid_width, value.world_grid_height),
            world_layout: match value.world_layout {
                Some(layout) => layout,
                None => WorldLayout::Free,
            },
            project_iid,
            level_iids,
        }
    }


    /// The stable identifiers of the world's levels, in file order.
    pub fn children(&self) -> (out: Vec<String>)
        ensures
            texts(out@) == texts(self.level_iids@),
    {
        clone_strings(&self.level_iids)
    }
}

} // verus!
