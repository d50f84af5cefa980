//! What all document nodes share, and the load-state tracker: when a scene
//! node's document node has become ready, and when it is ready anew.

use vstd::prelude::*;
use crate::entity::EntityAsset;
use crate::layer::LayerAsset;
use crate::level::LevelAsset;
use crate::project::ProjectAsset;
use crate::util::has_number;
use crate::world::WorldAsset;

verus! {

/// A document node.
pub trait LdtkAsset {
    /// The node's stable identifier.
    spec fn stable_iid(&self) -> Seq<char>;

    /// The node's stable identifier.
    fn iid(&self) -> (out: String)
        ensures
            out@ == self.stable_iid(),
    ;
}

impl LdtkAsset for EntityAsset {
    open spec fn stable_iid(&self) -> Seq<char> {
        self.iid@
    }

    fn iid(&self) -> (out: String) {
        self.iid.clone()
    }
}

impl LdtkAsset for LayerAsset {
    open spec fn stable_iid(&self) -> Seq<char> {
        self.iid@
    }

    fn iid(&self) -> (out: String) {
        self.iid.clone()
    }
}

impl LdtkAsset for LevelAsset {
    open spec fn stable_iid(&self) -> Seq<char> {
        self.iid@
    }

    fn iid(&self) -> (out: String) {
        self.iid.clone()
    }
}

impl LdtkAsset for WorldAsset {
    open spec fn stable_iid(&self) -> Seq<char> {
        self.iid@
    }

    fn iid(&self) -> (out: String) {
        self.iid.clone()
    }
}

impl LdtkAsset for ProjectAsset {
    open spec fn stable_iid(&self) -> Seq<char> {
        self.iid@
    }

    fn iid(&self) -> (out: String) {
        self.iid.clone()
    }
}

/// The notification that the document node behind `handle` is ready for
/// the scene node `entity`.
#[derive(Clone, Copy, Debug, PartialEq, Eq, Structural)]
pub struct LdtkAssetLoadEvent {
    /// The scene node.
    pub entity: u64,
    /// The reference to the document node.
    pub handle: u64,
}

/// A scene node that is bound to a document node.
#[derive(Clone, Copy, Debug, PartialEq, Eq, Structural)]
pub struct Bound {
    /// The scene node.
    pub entity: u64,
    /// The reference to the document node.
    pub handle: u64,
    /// Whether the scene node carries its stable-identifier tag: a node
    /// without one is pending.
    pub tagged: bool,
}

/// Whether the pending scene node `bound` becomes ready when the document
/// nodes `loaded` are loaded with all they depend on.
pub open spec fn becomes_ready(bound: Bound, loaded: Seq<u64>) -> bool {
    !bound.tagged && loaded.contains(bound.handle)
}

/// The notifications for the scene nodes of `bound` that become ready, in
/// their order.
pub open spec fn ready_events(bound: Seq<Bound>, loaded: Seq<u64>) -> Seq<LdtkAssetLoadEvent>
    decreases bound.len(),
{
    if bound.len() == 0 {
        Seq::empty()
    } else if becomes_ready(bound.last(), loaded) {
        ready_events(bound.drop_last(), loaded).push(
            LdtkAssetLoadEvent { entity: bound.last().entity, handle: bound.last().handle },
        )
    } else {
        ready_events(bound.drop_last(), loaded)
    }
}

/// The scene nodes once those that become ready are tagged.
pub open spec fn tagged_after(bound: Seq<Bound>, loaded: Seq<u64>) -> Seq<Bound> {
    Seq::new(
        bound.len(),
        |i: int|
            Bound {
                entity: bound[i].entity,
                handle: bound[i].handle,
                tagged: bound[i].tagged || loaded.contains(bound[i].handle),
            },
    )
}

/// The notifications for the scene nodes of `bound` that are bound to
/// `modified`, in their order.
pub open spec fn reload_events(bound: Seq<Bound>, modified: u64) -> Seq<LdtkAssetLoadEvent>
    decreases bound.len(),
{
    if bound.len() == 0 {
        Seq::empty()
    } else if bound.last().handle == modified {
        reload_events(bound.drop_last(), modified).push(
            LdtkAssetLoadEvent { entity: bound.last().entity, handle: bound.last().handle },
        )
    } else {
        reload_events(bound.drop_last(), modified)
    }
}


/// One round of watching the host's resource store. Every pending scene
/// node whose document node is among `loaded`, the references that the
/// host reports as loaded with all they depend on, is tagged and gets one
/// notification.
pub fn on_create_system(bound: &mut Vec<Bound>, loaded: &Vec<u64>) -> (events: Vec<LdtkAssetLoadEvent>)
    ensures
        events@ == ready_events(old(bound)@, loaded@),
        final(bound)@ == tagged_after(old(bound)@, loaded@),
{
    let ghost before = bound@;
    let mut events: Vec<LdtkAssetLoadEvent> = Vec::new();
    let mut i: usize = 0;
    assert(before.take(0) =~= Seq::empty());
    while i < bound.len()
        invariant
            i <= bound.len(),
            bound@.len() == before.len(),
            events@ == ready_events(before.take(i as int), loaded@),
            forall|k: int| 0 <= k < i ==> bound@[k] == tagged_after(before, loaded@)[k],
            forall|k: int| i <= k < bound@.len() ==> bound@[k] == before[k],
        decreases bound.len() - i,
    {
        assert(before.take(i + 1).drop_last() =~= before.take(i as int));
        assert(before.take(i + 1).last() == before[i as int]);
        let here = bound[i];
        if has_number(loaded, here.handle) {
            if !here.tagged {
                events.push(LdtkAssetLoadEvent { entity: here.entity, handle: here.handle });
            }
            bound.set(i, Bound { entity: here.entity, handle: here.handle, tagged: true });
        }
        i += 1;
    }
    assert(before.take(before.len() as int) =~= before);
    assert(bound@ =~= tagged_after(before, loaded@));
    events
}

/// The host reports that the document node behind `modified` was loaded
/// anew: every scene node bound to it gets a notification.
pub fn on_modified_system(bound: &Vec<Bound>, modified: u64) -> (events: Vec<LdtkAssetLoadEvent>)
    ensures
        events@ == reload_events(bound@, modified),
{
    let mut events: Vec<LdtkAssetLoadEvent> = Vec::new();
    let mut i: usize = 0;
    assert(bound@.take(0) =~= Seq::empty());
    while i < bound.len()
        invariant
            i <= bound.len(),
            events@ == reload_events(bound@.take(i as int), modified),
        decreases bound.len() - i,
    {
        assert(bound@.take(i + 1).drop_last() =~= bound@.take(i as int));
        assert(bound@.take(i + 1).last() == bound@[i as int]);
        if bound[i].handle == modified {
            events.push(LdtkAssetLoadEvent { entity: bound[i].entity, handle: bound[i].handle });
        }
        i += 1;
    }
    assert(bound@.take(bound.len() as int) =~= bound@);
    events
}

/// A scene node is notified at most once for one load: after a round of
/// watching, a second round over the same loaded references notifies
/// nobody.
pub proof fn law_ready_once(bound: Seq<Bound>, loaded: Seq<u64>)
    ensures
        ready_events(tagged_after(bound, loaded), loaded).len() == 0,
        tagged_after(tagged_after(bound, loaded), loaded) == tagged_after(bound, loaded),
{
    let after = tagged_after(bound, loaded);
    lemma_no_ready(after, loaded, after.len() as int);
    assert(after.take(after.len() as int) =~= after);
    assert(tagged_after(after, loaded) =~= after);
}

/// Where no scene node among the first `n` becomes ready, none of them is
/// notified.
proof fn lemma_no_ready(bound: Seq<Bound>, loaded: Seq<u64>, n: int)
    requires
        0 <= n <= bound.len(),
        forall|i: int| 0 <= i < bound.len() ==> !becomes_ready(#[trigger] bound[i], loaded),
    ensures
        ready_events(bound.take(n), loaded).len() == 0,
    decreases n,
{
    if n > 0 {
        lemma_no_ready(bound, loaded, n - 1);
        assert(bound.take(n).drop_last() =~= bound.take(n - 1));
        assert(bound.take(n).last() == bound[n - 1]);
    }
}

} // verus!
