//! The scene tree as the engine knows it: an arena of tagged nodes, each
//! with the identity it was given when it was made and with the identity
//! of its parent. Identities are handed out in rising order and never
//! again, so a node that is made anew is never taken for one that is gone.

use vstd::prelude::*;
use crate::util::{has_number, texts};
use crate::load_spec::{
    law_pass_materializes_selected, reconcile_children, selected, selects, LoadSpec,
};
use crate::reconcile::{nodes_of, tags, to_add, to_remove, Diff, Materialized};
use crate::scene_model::{after_pass, distinct_nodes, lemma_to_remove, newcomers, survivors};

verus! {

/// One node of the scene tree.
pub struct SceneNode {
    /// The node's identity.
    pub id: u64,
    /// The identity of the node's parent; a root has none.
    pub parent: Option<u64>,
    /// The stable identifier the node is tagged with.
    pub iid: String,
}

/// The model of a node.
pub struct NodeView {
    pub id: u64,
    pub parent: Option<u64>,
    pub iid: Seq<char>,
}

impl View for SceneNode {
    type V = NodeView;

    open spec fn view(&self) -> NodeView {
        NodeView { id: self.id, parent: self.parent, iid: self.iid@ }
    }
}

/// The model of a scene tree: its nodes in the order in which they were
/// made, and the identity that the next node gets.
pub struct SceneView {
    pub nodes: Seq<NodeView>,
    pub next: u64,
}

/// Whether the node with identity `id` is among `nodes`.
pub open spec fn has_node(nodes: Seq<NodeView>, id: u64) -> bool {
    exists|i: int| 0 <= i < nodes.len() && (#[trigger] nodes[i]).id == id
}

/// Identities rise along `nodes`.
pub open spec fn rising(nodes: Seq<NodeView>) -> bool {
    forall|i: int, j: int|
        0 <= i < j < nodes.len() ==> (#[trigger] nodes[i]).id < (#[trigger] nodes[j]).id
}

/// Whether the parent of the node at place `at`, if it has one, is a node
/// that comes before it.
pub open spec fn parent_before(nodes: Seq<NodeView>, at: int) -> bool {
    nodes[at].parent is Some ==> exists|j: int|
        0 <= j < at && (#[trigger] nodes[j]).id == nodes[at].parent.unwrap()
}

/// Every parent among `nodes` is a node that comes before its child.
pub open spec fn parented(nodes: Seq<NodeView>) -> bool {
    forall|i: int| 0 <= i < nodes.len() ==> #[trigger] parent_before(nodes, i)
}

/// Every identity among `nodes` lies below `next`.
pub open spec fn below(nodes: Seq<NodeView>, next: u64) -> bool {
    forall|i: int| 0 <= i < nodes.len() ==> (#[trigger] nodes[i]).id < next
}

impl SceneView {
    /// What holds of every scene tree: identities rise along the nodes and
    /// lie below the next one, and every parent is a node that was made
    /// before its child.
    pub open spec fn wf(self) -> bool {
        &&& rising(self.nodes)
        &&& below(self.nodes, self.next)
        &&& parented(self.nodes)
    }
}

/// The children of `parent` among `nodes`, in their order, each as node
/// and tag.
pub open spec fn children_in(nodes: Seq<NodeView>, parent: u64) -> Seq<(u64, Seq<char>)>
    decreases nodes.len(),
{
    if nodes.len() == 0 {
        Seq::empty()
    } else if nodes.last().parent == Some(parent) {
        children_in(nodes.drop_last(), parent).push((nodes.last().id, nodes.last().iid))
    } else {
        children_in(nodes.drop_last(), parent)
    }
}

/// The identities that go with `root` among the first `count` nodes: that
/// of `root` itself, and that of every node whose parent goes.
pub open spec fn doomed(nodes: Seq<NodeView>, root: u64, count: int) -> Set<u64>
    decreases count,
{
    if count <= 0 {
        Set::empty()
    } else {
        let before = doomed(nodes, root, count - 1);
        let node = nodes[count - 1];
        if node.id == root || (node.parent is Some && before.contains(node.parent.unwrap())) {
            before.insert(node.id)
        } else {
            before
        }
    }
}

/// Whether the node at place `at` goes with `root`: it is `root`, or its
/// parent, which was made before it, goes.
pub open spec fn falls(nodes: Seq<NodeView>, root: u64, at: int) -> bool {
    nodes[at].id == root || (nodes[at].parent is Some && doomed(nodes, root, at).contains(
        nodes[at].parent.unwrap(),
    ))
}

/// The nodes among the first `count` that stay when `root` goes, in their
/// order.
pub open spec fn staying(nodes: Seq<NodeView>, root: u64, count: int) -> Seq<NodeView>
    decreases count,
{
    if count <= 0 {
        Seq::empty()
    } else if falls(nodes, root, count - 1) {
        staying(nodes, root, count - 1)
    } else {
        staying(nodes, root, count - 1).push(nodes[count - 1])
    }
}

/// The identities from `from` on, `count` of them.
pub open spec fn identities(from: u64, count: nat) -> Seq<u64> {
    Seq::new(count, |i: int| (from + i) as u64)
}

/// The model of a list of nodes.
pub open spec fn views_of(nodes: Seq<SceneNode>) -> Seq<NodeView> {
    nodes.map_values(|node: SceneNode| node@)
}

/// An identity that goes belongs to a node that falls.
pub proof fn lemma_doomed_source(nodes: Seq<NodeView>, root: u64, count: int, id: u64) -> (k: int)
    requires
        0 <= count <= nodes.len(),
        doomed(nodes, root, count).contains(id),
    ensures
        0 <= k < count,
        nodes[k].id == id,
        falls(nodes, root, k),
    decreases count,
{
    if doomed(nodes, root, count - 1).contains(id) {
        lemma_doomed_source(nodes, root, count - 1, id)
    } else {
        count - 1
    }
}

/// The identity of a node that falls goes, and what goes among fewer nodes
/// goes among more.
pub proof fn lemma_doomed_grows(nodes: Seq<NodeView>, root: u64, fewer: int, count: int, id: u64)
    requires
        0 <= fewer <= count <= nodes.len(),
    ensures
        doomed(nodes, root, fewer).contains(id) ==> doomed(nodes, root, count).contains(id),
        fewer < count && falls(nodes, root, fewer) && nodes[fewer].id == id ==> doomed(
            nodes,
            root,
            count,
        ).contains(id),
    decreases count - fewer,
{
    if fewer < count {
        lemma_doomed_grows(nodes, root, fewer + 1, count, id);
    }
}

/// A child was made after its parent, so its identity is the greater.
pub proof fn lemma_parent_is_older(nodes: Seq<NodeView>, at: int)
    requires
        0 <= at < nodes.len(),
        rising(nodes),
        parented(nodes),
        nodes[at].parent is Some,
    ensures
        nodes[at].parent.unwrap() < nodes[at].id,
{
    assert(parent_before(nodes, at));
    let j = choose|j: int| 0 <= j < at && (#[trigger] nodes[j]).id == nodes[at].parent.unwrap();
    assert(nodes[j].id < nodes[at].id);
}

/// Nothing older than `root` goes with it.
pub proof fn lemma_doomed_is_younger(nodes: Seq<NodeView>, root: u64, count: int, id: u64)
    requires
        0 <= count <= nodes.len(),
        rising(nodes),
        parented(nodes),
        doomed(nodes, root, count).contains(id),
    ensures
        id >= root,
    decreases count,
{
    let k = lemma_doomed_source(nodes, root, count, id);
    if nodes[k].id != root {
        lemma_parent_is_older(nodes, k);
        lemma_doomed_is_younger(nodes, root, k, nodes[k].parent.unwrap());
    }
}

/// A node that stays is one of the nodes, and one that does not fall.
pub proof fn lemma_staying_source(nodes: Seq<NodeView>, root: u64, count: int, m: int) -> (k: int)
    requires
        0 <= count <= nodes.len(),
        0 <= m < staying(nodes, root, count).len(),
    ensures
        0 <= k < count,
        staying(nodes, root, count)[m] == nodes[k],
        !falls(nodes, root, k),
    decreases count,
{
    if falls(nodes, root, count - 1) {
        lemma_staying_source(nodes, root, count - 1, m)
    } else if m < staying(nodes, root, count - 1).len() {
        lemma_staying_source(nodes, root, count - 1, m)
    } else {
        count - 1
    }
}

/// A node that does not fall stays, at the place that the nodes staying
/// before it leave.
pub proof fn lemma_staying_place(nodes: Seq<NodeView>, root: u64, count: int, k: int)
    requires
        0 <= k < count <= nodes.len(),
        !falls(nodes, root, k),
    ensures
        staying(nodes, root, k).len() < staying(nodes, root, count).len(),
        staying(nodes, root, count)[staying(nodes, root, k).len() as int] == nodes[k],
    decreases count - k,
{
    if k + 1 < count {
        lemma_staying_place(nodes, root, count - 1, k);
    }
}

/// Identities still rise along what stays.
pub proof fn lemma_staying_rising(nodes: Seq<NodeView>, root: u64, count: int)
    requires
        0 <= count <= nodes.len(),
        rising(nodes),
    ensures
        rising(staying(nodes, root, count)),
    decreases count,
{
    if count > 0 {
        let less = staying(nodes, root, count - 1);
        let now = staying(nodes, root, count);
        lemma_staying_rising(nodes, root, count - 1);
        if !falls(nodes, root, count - 1) {
            assert forall|i: int, j: int| 0 <= i < j < now.len() implies (#[trigger] now[i]).id < (
            #[trigger] now[j]).id by {
                if j == less.len() {
                    let k = lemma_staying_source(nodes, root, count - 1, i);
                    assert(nodes[k].id < nodes[count - 1].id);
                } else {
                    assert(less[i].id < less[j].id);
                }
            }
        }
    }
}

/// Every parent that stays still comes before its child: a node stays only
/// if its parent stays.
pub proof fn lemma_staying_parented(nodes: Seq<NodeView>, root: u64, count: int)
    requires
        0 <= count <= nodes.len(),
        parented(nodes),
    ensures
        parented(staying(nodes, root, count)),
    decreases count,
{
    if count > 0 {
        let less = staying(nodes, root, count - 1);
        let now = staying(nodes, root, count);
        let last = nodes[count - 1];
        lemma_staying_parented(nodes, root, count - 1);
        if !falls(nodes, root, count - 1) {
            assert forall|i: int| 0 <= i < now.len() implies #[trigger] parent_before(now, i) by {
                if i < less.len() {
                    assert(parent_before(less, i));
                    if less[i].parent is Some {
                        let j = choose|j: int|
                            0 <= j < i && (#[trigger] less[j]).id == less[i].parent.unwrap();
                        assert(now[j].id == now[i].parent.unwrap());
                    }
                } else if last.parent is Some {
                    assert(parent_before(nodes, count - 1));
                    let k = choose|k: int|
                        0 <= k < count - 1 && (#[trigger] nodes[k]).id == last.parent.unwrap();
                    if falls(nodes, root, k) {
                        lemma_doomed_grows(nodes, root, k, count - 1, nodes[k].id);
                    }
                    lemma_staying_place(nodes, root, count - 1, k);
                    let m = staying(nodes, root, k).len() as int;
                    assert(now[m].id == now[i].parent.unwrap());
                }
            }
        }
    }
}

/// Identities that lay below the next one still do among what stays.
pub proof fn lemma_staying_below(nodes: Seq<NodeView>, root: u64, count: int, next: u64)
    requires
        0 <= count <= nodes.len(),
        below(nodes, next),
    ensures
        below(staying(nodes, root, count), next),
{
    let now = staying(nodes, root, count);
    assert forall|m: int| 0 <= m < now.len() implies (#[trigger] now[m]).id < next by {
        let k = lemma_staying_source(nodes, root, count, m);
        assert(nodes[k].id < next);
    }
}

/// When a child of a parent goes, the parent's other children stay as they
/// are: the parent loses that child and no other.
pub proof fn lemma_children_after_teardown(nodes: Seq<NodeView>, root: u64, parent: u64, count: int)
    requires
        0 <= count <= nodes.len(),
        rising(nodes),
        parented(nodes),
        parent < root,
    ensures
        children_in(staying(nodes, root, count), parent) == survivors(
            children_in(nodes.take(count), parent),
            seq![root],
        ),
    decreases count,
{
    if count > 0 {
        lemma_children_after_teardown(nodes, root, parent, count - 1);
        let last = nodes[count - 1];
        let less = staying(nodes, root, count - 1);
        let now = staying(nodes, root, count);
        let were = children_in(nodes.take(count - 1), parent);
        let are = children_in(nodes.take(count), parent);
        assert(nodes.take(count).drop_last() =~= nodes.take(count - 1));
        assert(nodes.take(count).last() == last);
        assert(seq![root][0] == root);
        if last.parent == Some(parent) {
            assert(are.drop_last() =~= were);
            if doomed(nodes, root, count - 1).contains(parent) {
                lemma_doomed_is_younger(nodes, root, count - 1, parent);
            }
            if last.id != root {
                assert(!seq![root].contains(last.id));
                assert(now.drop_last() =~= less);
            }
        } else if !falls(nodes, root, count - 1) {
            assert(now.drop_last() =~= less);
        }
    } else {
        assert(nodes.take(0) =~= Seq::empty());
    }
}

/// Where no node is named for removal, every node survives.
pub proof fn lemma_survivors_of_none(nodes: Seq<(u64, Seq<char>)>)
    ensures
        survivors(nodes, Seq::empty()) == nodes,
    decreases nodes.len(),
{
    if nodes.len() > 0 {
        lemma_survivors_of_none(nodes.drop_last());
        assert(!Seq::<u64>::empty().contains(nodes.last().0));
        assert(nodes.drop_last().push(nodes.last()) =~= nodes);
    }
}

/// Taking nodes away in two steps leaves what taking them away at once
/// leaves.
pub proof fn lemma_survivors_in_steps(nodes: Seq<(u64, Seq<char>)>, first: Seq<u64>, then: u64)
    ensures
        survivors(survivors(nodes, first), seq![then]) == survivors(nodes, first.push(then)),
    decreases nodes.len(),
{
    assert(seq![then][0] == then);
    assert(first.push(then)[first.len() as int] == then);
    if nodes.len() > 0 {
        lemma_survivors_in_steps(nodes.drop_last(), first, then);
        let last = nodes.last();
        let front = nodes.drop_last();
        assert(first.push(then).contains(last.0) <==> first.contains(last.0) || last.0 == then) by {
            if first.contains(last.0) {
                let k = choose|k: int| 0 <= k < first.len() && first[k] == last.0;
                assert(first.push(then)[k] == last.0);
            }
            if first.push(then).contains(last.0) {
                let k = choose|k: int|
                    0 <= k < first.push(then).len() && first.push(then)[k] == last.0;
                if k < first.len() {
                    assert(first[k] == last.0);
                }
            }
        }
        assert(seq![then].contains(last.0) <==> last.0 == then);
        if !first.contains(last.0) {
            let inner = survivors(front, first);
            assert(inner.push(last).drop_last() =~= inner);
            assert(inner.push(last).last() == last);
        }
    }
}

/// A child of a parent is a node of the tree that names it as its parent.
pub proof fn lemma_child_source(nodes: Seq<NodeView>, parent: u64, m: int) -> (k: int)
    requires
        0 <= m < children_in(nodes, parent).len(),
    ensures
        0 <= k < nodes.len(),
        nodes[k].id == children_in(nodes, parent)[m].0,
        nodes[k].iid == children_in(nodes, parent)[m].1,
        nodes[k].parent == Some(parent),
    decreases nodes.len(),
{
    let front = nodes.drop_last();
    if nodes.last().parent == Some(parent) && m == children_in(front, parent).len() {
        nodes.len() - 1
    } else {
        let k = lemma_child_source(front, parent, m);
        assert(front[k] == nodes[k]);
        k
    }
}

/// The children of a parent are different nodes.
pub proof fn lemma_children_distinct(nodes: Seq<NodeView>, parent: u64)
    requires
        rising(nodes),
    ensures
        distinct_nodes(children_in(nodes, parent)),
    decreases nodes.len(),
{
    if nodes.len() > 0 {
        let front = nodes.drop_last();
        let less = children_in(front, parent);
        let now = children_in(nodes, parent);
        assert(rising(front)) by {
            assert forall|i: int, j: int| 0 <= i < j < front.len() implies (#[trigger] front[i]).id
                < (#[trigger] front[j]).id by {
                assert(nodes[i].id < nodes[j].id);
            }
        }
        lemma_children_distinct(front, parent);
        if nodes.last().parent == Some(parent) {
            assert forall|i: int, j: int| 0 <= i < j < now.len() implies now[i].0 != now[j].0 by {
                if j == less.len() {
                    let k = lemma_child_source(front, parent, i);
                    assert(nodes[k].id < nodes[nodes.len() - 1].id);
                } else {
                    assert(less[i].0 != less[j].0);
                }
            }
        }
    }
}

/// A node that is older than `root` stays when `root` goes.
pub proof fn lemma_node_stays(nodes: Seq<NodeView>, root: u64, id: u64)
    requires
        rising(nodes),
        parented(nodes),
        has_node(nodes, id),
        id < root,
    ensures
        has_node(staying(nodes, root, nodes.len() as int), id),
{
    let at = choose|i: int| 0 <= i < nodes.len() && (#[trigger] nodes[i]).id == id;
    if nodes[at].parent is Some {
        lemma_parent_is_older(nodes, at);
        if doomed(nodes, root, at).contains(nodes[at].parent.unwrap()) {
            lemma_doomed_is_younger(nodes, root, at, nodes[at].parent.unwrap());
        }
    }
    lemma_staying_place(nodes, root, nodes.len() as int, at);
    let m = staying(nodes, root, at).len() as int;
    assert(staying(nodes, root, nodes.len() as int)[m].id == id);
}

/// No identity is given twice: every node of a tree has an identity below
/// the next one, a node that goes leaves the next one as it is, and every
/// node that is made gets the next one and raises it. So a node that is
/// made after another has gone is not that node again.
pub proof fn law_identity_is_never_reused(scene: SceneView, gone: u64, root: u64, later: u64)
    requires
        scene.wf(),
        has_node(scene.nodes, gone),
        later >= scene.next,
    ensures
        later != gone,
        !has_node(staying(scene.nodes, root, scene.nodes.len() as int), later),
{
    let at = choose|i: int| 0 <= i < scene.nodes.len() && (#[trigger] scene.nodes[i]).id == gone;
    assert(scene.nodes[at].id < scene.next);
    let left = staying(scene.nodes, root, scene.nodes.len() as int);
    lemma_staying_below(scene.nodes, root, scene.nodes.len() as int, scene.next);
    if has_node(left, later) {
        let m = choose|m: int| 0 <= m < left.len() && (#[trigger] left[m]).id == later;
        assert(left[m].id < scene.next);
    }
}

/// When a node goes, everything beneath it goes and nothing else: a node
/// of the tree goes exactly when it is the node itself or its parent goes.
pub proof fn law_teardown_is_recursive(scene: SceneView, root: u64, at: int)
    requires
        scene.wf(),
        0 <= at < scene.nodes.len(),
    ensures
        doomed(scene.nodes, root, scene.nodes.len() as int).contains(scene.nodes[at].id) <==> (
        scene.nodes[at].id == root || (scene.nodes[at].parent is Some && doomed(
            scene.nodes,
            root,
            scene.nodes.len() as int,
        ).contains(scene.nodes[at].parent.unwrap()))),
{
    let nodes = scene.nodes;
    let n = nodes.len() as int;
    let id = nodes[at].id;
    if doomed(nodes, root, n).contains(id) {
        let k = lemma_doomed_source(nodes, root, n, id);
        assert(k == at) by {
            if k < at {
                assert(nodes[k].id < nodes[at].id);
            } else if at < k {
                assert(nodes[at].id < nodes[k].id);
            }
        }
        if id != root {
            lemma_doomed_grows(nodes, root, at, n, nodes[at].parent.unwrap());
        }
    }
    if nodes[at].parent is Some && doomed(nodes, root, n).contains(nodes[at].parent.unwrap()) {
        let p = nodes[at].parent.unwrap();
        let k = lemma_doomed_source(nodes, root, n, p);
        lemma_parent_is_older(nodes, at);
        assert(k < at) by {
            if at < k {
                assert(nodes[at].id < nodes[k].id);
            }
        }
        lemma_doomed_grows(nodes, root, k, at, p);
        lemma_doomed_grows(nodes, root, at, n, id);
    }
    if id == root {
        lemma_doomed_grows(nodes, root, at, n, id);
    }
}

/// The scene tree.
pub struct Scene {
    nodes: Vec<SceneNode>,
    next: u64,
}

impl View for Scene {
    type V = SceneView;

    closed spec fn view(&self) -> SceneView {
        SceneView { nodes: views_of(self.nodes@), next: self.next }
    }
}

/// What a reconciliation pass did to the scene tree.
pub struct ScenePass {
    /// The instructions of the pass.
    pub diff: Diff,
    /// The identities of the nodes that were made, one for each spawn
    /// instruction, in their order.
    pub spawned: Vec<u64>,
}

impl Scene {
    #[verifier::type_invariant]
    spec fn inv(&self) -> bool {
        self@.wf()
    }

    /// The empty scene tree.
    pub fn new() -> (out: Scene)
        ensures
            out@.wf(),
            out@.nodes.len() == 0,
            out@.next == 0,
    {
        let out = Scene { nodes: Vec::new(), next: 0 };
        assert(views_of(out.nodes@) =~= Seq::empty());
        out
    }

    /// The identity that the next node gets.
    pub fn next_identity(&self) -> (out: u64)
        ensures
            self@.wf(),
            out == self@.next,
    {
        proof {
            use_type_invariant(self);
        }
        self.next
    }

    /// Whether the node `id` is in the tree.
    pub fn contains(&self, id: u64) -> (out: bool)
        ensures
            self@.wf(),
            out == has_node(self@.nodes, id),
    {
        proof {
            use_type_invariant(self);
        }
        let mut i: usize = 0;
        while i < self.nodes.len()
            invariant
                i <= self.nodes.len(),
                self@.wf(),
                forall|k: int| 0 <= k < i ==> (#[trigger] views_of(self.nodes@)[k]).id != id,
            decreases self.nodes.len() - i,
        {
            if self.nodes[i].id == id {
                assert(views_of(self.nodes@)[i as int].id == id);
                return true;
            }
            i += 1;
        }
        false
    }

    /// Makes a node tagged `iid` under `parent` and gives its identity,
    /// which no node had before. Nothing is made, and `None` is given,
    /// where the parent is not in the tree or the identities have run out.
    pub fn spawn(&mut self, parent: Option<u64>, iid: String) -> (out: Option<u64>)
        ensures
            final(self)@.wf(),
            out is Some == ((parent is None || has_node(old(self)@.nodes, parent.unwrap()))
                && old(self)@.next < u64::MAX),
            out is None ==> final(self)@ == old(self)@,
            out is Some ==> {
                &&& out.unwrap() == old(self)@.next
                &&& final(self)@.next == old(self)@.next + 1
                &&& final(self)@.nodes == old(self)@.nodes.push(
                    NodeView { id: out.unwrap(), parent, iid: iid@ },
                )
            },
    {
        proof {
            use_type_invariant(&*self);
        }
        if self.next == u64::MAX {
            return None;
        }
        match parent {
            Some(p) => {
                if !self.contains(p) {
                    return None;
                }
            },
            None => {},
        }
        let id = self.next;
        let ghost before = views_of(self.nodes@);
        let node = SceneNode { id, parent, iid };
        let mut nodes: Vec<SceneNode> = Vec::new();
        std::mem::swap(&mut nodes, &mut self.nodes);
        nodes.push(node);
        proof {
            let after = views_of(nodes@);
            assert(after =~= before.push(NodeView { id, parent, iid: iid@ }));
            assert forall|i: int| 0 <= i < after.len() implies #[trigger] parent_before(
                after,
                i,
            ) by {
                if i < before.len() {
                    assert(parent_before(before, i));
                    if before[i].parent is Some {
                        let j = choose|j: int|
                            0 <= j < i && (#[trigger] before[j]).id == before[i].parent.unwrap();
                        assert(after[j].id == after[i].parent.unwrap());
                    }
                } else if parent is Some {
                    let j = choose|j: int|
                        0 <= j < before.len() && (#[trigger] before[j]).id == parent.unwrap();
                    assert(after[j].id == after[i].parent.unwrap());
                }
            }
            assert forall|i: int, j: int| 0 <= i < j < after.len() implies (#[trigger] after[i]).id
                < (#[trigger] after[j]).id by {
                if j == before.len() {
                    assert(before[i].id < id);
                } else {
                    assert(before[i].id < before[j].id);
                }
            }
        }
        *self = Scene { nodes, next: id + 1 };
        Some(id)
    }

    /// Destroys the node `id` and everything beneath it, and lists the
    /// identities that went, in the order in which their nodes were made.
    /// Where `id` is not in the tree, nothing goes.
    pub fn despawn_recursive(&mut self, id: u64) -> (gone: Vec<u64>)
        ensures
            final(self)@.wf(),
            final(self)@.next == old(self)@.next,
            final(self)@.nodes == staying(
                old(self)@.nodes,
                id,
                old(self)@.nodes.len() as int,
            ),
            forall|x: u64| #[trigger]
                gone@.contains(x) <==> doomed(
                    old(self)@.nodes,
                    id,
                    old(self)@.nodes.len() as int,
                ).contains(x),
    {
        proof {
            use_type_invariant(&*self);
        }
        let ghost all = views_of(self.nodes@);
        let next = self.next;
        let mut before: Vec<SceneNode> = Vec::new();
        std::mem::swap(&mut before, &mut self.nodes);
        let mut kept: Vec<SceneNode> = Vec::new();
        let mut gone: Vec<u64> = Vec::new();
        let mut i: usize = 0;
        assert(views_of(kept@) =~= staying(all, id, 0));
        while i < before.len()
            invariant
                i <= before.len(),
                all == views_of(before@),
                views_of(kept@) == staying(all, id, i as int),
                forall|x: u64| #[trigger] gone@.contains(x) <==> doomed(all, id, i as int).contains(x),
            decreases before.len() - i,
        {
            let here = &before[i];
            let ghost was_kept = views_of(kept@);
            let ghost was_gone = gone@;
            assert(all[i as int] == here@);
            let fall = here.id == id || match here.parent {
                Some(p) => has_number(&gone, p),
                None => false,
            };
            assert(fall == falls(all, id, i as int));
            if fall {
                gone.push(here.id);
                assert forall|x: u64| #[trigger] gone@.contains(x) <==> doomed(
                    all,
                    id,
                    i + 1,
                ).contains(x) by {
                    assert(gone@ =~= was_gone.push(here.id));
                    if gone@.contains(x) {
                        let k = choose|k: int| 0 <= k < gone@.len() && gone@[k] == x;
                        if k < was_gone.len() {
                            assert(was_gone[k] == x);
                            assert(was_gone.contains(x));
                        }
                    }
                    if was_gone.contains(x) {
                        let k = choose|k: int| 0 <= k < was_gone.len() && was_gone[k] == x;
                        assert(gone@[k] == x);
                    }
                    assert(gone@[was_gone.len() as int] == here.id);
                }
            } else {
                kept.push(SceneNode { id: here.id, parent: here.parent, iid: here.iid.clone() });
                assert(views_of(kept@) =~= was_kept.push(all[i as int]));
            }
            i += 1;
        }
        proof {
            let n = all.len() as int;
            lemma_staying_rising(all, id, n);
            lemma_staying_parented(all, id, n);
            lemma_staying_below(all, id, n, next);
        }
        *self = Scene { nodes: kept, next };
        gone
    }

    /// Destroys the children `despawn` of `parent`, each with everything
    /// beneath it.
    fn despawn_all(&mut self, parent: u64, despawn: &Vec<u64>)
        requires
            has_node(old(self)@.nodes, parent),
            forall|j: int| 0 <= j < despawn@.len() ==> parent < #[trigger] despawn@[j],
        ensures
            final(self)@.wf(),
            final(self)@.next == old(self)@.next,
            has_node(final(self)@.nodes, parent),
            children_in(final(self)@.nodes, parent) == survivors(
                children_in(old(self)@.nodes, parent),
                despawn@,
            ),
    {
        proof {
            use_type_invariant(&*self);
        }
        let ghost first = children_in(self@.nodes, parent);
        let mut k: usize = 0;
        proof {
            lemma_survivors_of_none(first);
            assert(despawn@.take(0) =~= Seq::empty());
        }
        while k < despawn.len()
            invariant
                k <= despawn.len(),
                self@.wf(),
                self@.next == old(self)@.next,
                has_node(self@.nodes, parent),
                first == children_in(old(self)@.nodes, parent),
                forall|j: int| 0 <= j < despawn@.len() ==> parent < #[trigger] despawn@[j],
                children_in(self@.nodes, parent) == survivors(first, despawn@.take(k as int)),
            decreases despawn.len() - k,
        {
            let ghost before = self@.nodes;
            let root = despawn[k];
            self.despawn_recursive(root);
            proof {
                let n = before.len() as int;
                assert(before.take(n) =~= before);
                lemma_children_after_teardown(before, root, parent, n);
                lemma_survivors_in_steps(first, despawn@.take(k as int), root);
                assert(despawn@.take(k as int).push(root) =~= despawn@.take(k + 1));
                lemma_node_stays(before, root, parent);
            }
            k += 1;
        }
        assert(despawn@.take(despawn@.len() as int) =~= despawn@);
    }

    /// Makes a node under `parent` for each of `spawn`, in order, and gives
    /// their identities.
    fn spawn_all(&mut self, parent: u64, spawn: &Vec<String>) -> (made: Vec<u64>)
        requires
            has_node(old(self)@.nodes, parent),
            old(self)@.next + spawn@.len() <= u64::MAX,
        ensures
            final(self)@.wf(),
            final(self)@.next == old(self)@.next + spawn@.len(),
            has_node(final(self)@.nodes, parent),
            made@ == identities(old(self)@.next, spawn@.len()),
            children_in(final(self)@.nodes, parent) == children_in(old(self)@.nodes, parent)
                + newcomers(texts(spawn@), made@),
    {
        proof {
            use_type_invariant(&*self);
        }
        let ghost first = children_in(self@.nodes, parent);
        let ghost from = self@.next;
        let ghost fresh = identities(from, spawn@.len());
        let mut made: Vec<u64> = Vec::new();
        let mut k: usize = 0;
        assert(first =~= first + newcomers(texts(spawn@), fresh).take(0));
        assert(made@ =~= fresh.take(0));
        while k < spawn.len()
            invariant
                k <= spawn.len(),
                self@.wf(),
                from + spawn@.len() <= u64::MAX,
                self@.next == from + k,
                has_node(self@.nodes, parent),
                fresh == identities(from, spawn@.len()),
                made@ == fresh.take(k as int),
                children_in(self@.nodes, parent) == first + newcomers(
                    texts(spawn@),
                    fresh,
                ).take(k as int),
            decreases spawn.len() - k,
        {
            let ghost before = self@.nodes;
            let ghost at = choose|i: int| 0 <= i < before.len() && (#[trigger] before[i]).id == parent;
            let id = self.spawn(Some(parent), spawn[k].clone());
            let id = id.unwrap();
            made.push(id);
            proof {
                let node = NodeView { id, parent: Some(parent), iid: spawn@[k as int]@ };
                assert(self@.nodes == before.push(node));
                assert(self@.nodes.drop_last() =~= before);
                assert(self@.nodes.last() == node);
                assert(self@.nodes[at].id == parent);
                assert(fresh[k as int] == id);
                assert(made@ =~= fresh.take(k + 1));
                assert(newcomers(texts(spawn@), fresh).take(k + 1) =~= newcomers(
                    texts(spawn@),
                    fresh,
                ).take(k as int).push((id, spawn@[k as int]@)));
                assert(children_in(self@.nodes, parent) =~= first + newcomers(
                    texts(spawn@),
                    fresh,
                ).take(k + 1));
            }
            k += 1;
        }
        assert(fresh.take(spawn@.len() as int) =~= fresh);
        assert(newcomers(texts(spawn@), fresh).take(spawn@.len() as int) =~= newcomers(
            texts(spawn@),
            fresh,
        ));
        made
    }

    /// One reconciliation pass for the node `parent`, whose document node
    /// declares `children`: the children that `spec` selects are compared
    /// with the nodes under `parent`; the nodes whose child is no longer
    /// declared go with everything beneath them, a node is made for each
    /// declared child that has none, and every other node is left as it
    /// is. Nothing is done, and `None` is given, where `parent` is not in
    /// the tree or the identities would run out.
    pub fn reconcile(&mut self, parent: u64, children: &Vec<String>, spec: &LoadSpec) -> (out:
        Option<ScenePass>)
        ensures
            final(self)@.wf(),
            out is Some == (has_node(old(self)@.nodes, parent) && old(self)@.next + to_add(
                selected(texts(children@), *spec),
                tags(children_in(old(self)@.nodes, parent)),
            ).len() <= u64::MAX),
            out is None ==> final(self)@ == old(self)@,
            out is Some ==> {
                &&& texts(out.unwrap().diff.spawn@) == to_add(
                    selected(texts(children@), *spec),
                    tags(children_in(old(self)@.nodes, parent)),
                )
                &&& out.unwrap().diff.despawn@ == to_remove(
                    children_in(old(self)@.nodes, parent),
                    selected(texts(children@), *spec).to_set(),
                )
                &&& out.unwrap().spawned@ == identities(
                    old(self)@.next,
                    out.unwrap().diff.spawn@.len(),
                )
                &&& final(self)@.next == old(self)@.next + out.unwrap().diff.spawn@.len()
                &&& children_in(final(self)@.nodes, parent) == after_pass(
                    children_in(old(self)@.nodes, parent),
                    out.unwrap().diff.despawn@,
                    texts(out.unwrap().diff.spawn@),
                    out.unwrap().spawned@,
                )
                &&& forall|iid: Seq<char>| #[trigger]
                    tags(children_in(final(self)@.nodes, parent)).contains(iid) <==> texts(
                        children@,
                    ).contains(iid) && selects(*spec, iid)
            },
    {
        proof {
            use_type_invariant(&*self);
        }
        if !self.contains(parent) {
            return None;
        }
        let under = self.children_of(parent);
        let diff = reconcile_children(children, spec, &under);
        assert(texts(diff.spawn@).len() == diff.spawn@.len());
        if diff.spawn.len() as u64 > u64::MAX - self.next {
            return None;
        }
        let ghost nodes = self@.nodes;
        let ghost first = children_in(nodes, parent);
        let ghost declared = selected(texts(children@), *spec);
        proof {
            assert forall|j: int| 0 <= j < diff.despawn@.len() implies parent
                < #[trigger] diff.despawn@[j] by {
                lemma_to_remove(first, declared.to_set());
                assert(diff.despawn@.contains(diff.despawn@[j]));
                let i = choose|i: int|
                    0 <= i < first.len() && (#[trigger] first[i]).0 == diff.despawn@[j]
                        && !declared.to_set().contains(first[i].1);
                let k = lemma_child_source(nodes, parent, i);
                lemma_parent_is_older(nodes, k);
            }
        }
        self.despawn_all(parent, &diff.despawn);
        let made = self.spawn_all(parent, &diff.spawn);
        proof {
            lemma_children_distinct(nodes, parent);
            law_pass_materializes_selected(texts(children@), *spec, first, made@);
            assert(children_in(self@.nodes, parent) == after_pass(
                first,
                diff.despawn@,
                texts(diff.spawn@),
                made@,
            ));
            assert forall|iid: Seq<char>| #[trigger]
                tags(children_in(self@.nodes, parent)).contains(iid) <==> texts(
                    children@,
                ).contains(iid) && selects(*spec, iid) by {}
        }
        Some(ScenePass { diff, spawned: made })
    }

    /// The nodes under `parent`, in the order in which they were made.
    pub fn children_of(&self, parent: u64) -> (out: Vec<Materialized>)
        ensures
            self@.wf(),
            nodes_of(out@) == children_in(self@.nodes, parent),
    {
        proof {
            use_type_invariant(self);
        }
        let ghost all = views_of(self.nodes@);
        let mut out: Vec<Materialized> = Vec::new();
        let mut i: usize = 0;
        assert(all.take(0) =~= Seq::empty());
        assert(nodes_of(out@) =~= Seq::empty());
        while i < self.nodes.len()
            invariant
                i <= self.nodes.len(),
                self@.wf(),
                all == views_of(self.nodes@),
                nodes_of(out@) == children_in(all.take(i as int), parent),
            decreases self.nodes.len() - i,
        {
            let ghost before = nodes_of(out@);
            assert(all.take(i + 1).drop_last() =~= all.take(i as int));
            assert(all.take(i + 1).last() == self.nodes@[i as int]@);
            let here = &self.nodes[i];
            let under = match here.parent {
                Some(p) => p == parent,
                None => false,
            };
            if under {
                out.push(Materialized { node: here.id, iid: here.iid.clone() });
                assert(nodes_of(out@) =~= before.push((here.id, here.iid@)));
            }
            i += 1;
        }
        assert(all.take(self.nodes.len() as int) =~= all);
        out
    }
}

} // verus!
