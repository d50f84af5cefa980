//! What a reconciliation pass does to the nodes under one parent, and what
//! holds of every pass.

use vstd::prelude::*;
use crate::util::{has_number, texts};
use crate::reconcile::{to_add, to_remove, tags, nodes_of, Diff, Materialized};

verus! {

/// The nodes of `nodes` that `despawn` does not name, in their order.
pub open spec fn survivors(nodes: Seq<(u64, Seq<char>)>, despawn: Seq<u64>) -> Seq<
    (u64, Seq<char>),
>
    decreases nodes.len(),
{
    if nodes.len() == 0 {
        Seq::empty()
    } else {
        let rest = survivors(nodes.drop_last(), despawn);
        if despawn.contains(nodes.last().0) {
            rest
        } else {
            rest.push(nodes.last())
        }
    }
}

/// The nodes that the host creates for `spawn`, given the identities `fresh`
/// that it hands out for them.
pub open spec fn newcomers(spawn: Seq<Seq<char>>, fresh: Seq<u64>) -> Seq<(u64, Seq<char>)> {
    Seq::new(spawn.len(), |i: int| (fresh[i], spawn[i]))
}

/// The nodes under a parent once the host has carried out a pass: the
/// survivors, then one new node for each spawn instruction.
pub open spec fn after_pass(
    nodes: Seq<(u64, Seq<char>)>,
    despawn: Seq<u64>,
    spawn: Seq<Seq<char>>,
    fresh: Seq<u64>,
) -> Seq<(u64, Seq<char>)> {
    survivors(nodes, despawn) + newcomers(spawn, fresh)
}

/// No two entries of `nodes` are the same scene node.
pub open spec fn distinct_nodes(nodes: Seq<(u64, Seq<char>)>) -> bool {
    forall|i: int, j: int| 0 <= i < j < nodes.len() ==> nodes[i].0 != nodes[j].0
}

/// No two entries of `nodes` carry the same stable identifier.
pub open spec fn distinct_tags(nodes: Seq<(u64, Seq<char>)>) -> bool {
    forall|i: int, j: int| 0 <= i < j < nodes.len() ==> nodes[i].1 != nodes[j].1
}

/// The nodes under a parent after the host has carried out `diff`, creating
/// the new nodes under the identities `fresh`.
pub fn apply_diff(materialized: &Vec<Materialized>, diff: &Diff, fresh: &Vec<u64>) -> (out: Vec<
    Materialized,
>)
    requires
        fresh.len() == diff.spawn.len(),
    ensures
        nodes_of(out@) == after_pass(
            nodes_of(materialized@),
            diff.despawn@,
            texts(diff.spawn@),
            fresh@,
        ),
{
    let ghost nodes = nodes_of(materialized@);
    let mut out: Vec<Materialized> = Vec::new();
    let mut i: usize = 0;
    assert(nodes.take(0) =~= Seq::empty());
    assert(nodes_of(out@) =~= Seq::empty());
    while i < materialized.len()
        invariant
            i <= materialized.len(),
            nodes == nodes_of(materialized@),
            nodes_of(out@) == survivors(nodes.take(i as int), diff.despawn@),
        decreases materialized.len() - i,
    {
        let ghost before = nodes_of(out@);
        assert(nodes.take(i + 1).drop_last() =~= nodes.take(i as int));
        assert(nodes.take(i + 1).last() == materialized@[i as int]@);
        if !has_number(&diff.despawn, materialized[i].node) {
            out.push(Materialized { node: materialized[i].node, iid: materialized[i].iid.clone() });
            assert(nodes_of(out@) =~= before.push(materialized@[i as int]@));
        }
        i += 1;
    }
    assert(nodes.take(materialized.len() as int) =~= nodes);
    let ghost kept = nodes_of(out@);
    let mut k: usize = 0;
    assert(nodes_of(out@) =~= kept + newcomers(texts(diff.spawn@), fresh@).take(0));
    while k < diff.spawn.len()
        invariant
            k <= diff.spawn.len(),
            fresh.len() == diff.spawn.len(),
            nodes_of(out@) == kept + newcomers(texts(diff.spawn@), fresh@).take(k as int),
        decreases diff.spawn.len() - k,
    {
        let ghost before = nodes_of(out@);
        out.push(Materialized { node: fresh[k], iid: diff.spawn[k].clone() });
        assert(nodes_of(out@) =~= before.push((fresh@[k as int], diff.spawn@[k as int]@)));
        assert(newcomers(texts(diff.spawn@), fresh@).take(k + 1) =~= newcomers(
            texts(diff.spawn@),
            fresh@,
        ).take(k as int).push((fresh@[k as int], diff.spawn@[k as int]@)));
        k += 1;
    }
    assert(newcomers(texts(diff.spawn@), fresh@).take(diff.spawn.len() as int) =~= newcomers(
        texts(diff.spawn@),
        fresh@,
    ));
    out
}


/// An identifier is spawned exactly when it is declared and no node carries
/// it, and no identifier is spawned twice.
pub proof fn lemma_to_add(declared: Seq<Seq<char>>, present: Set<Seq<char>>)
    ensures
        forall|iid: Seq<char>| #[trigger]
            to_add(declared, present).contains(iid) <==> declared.contains(iid)
                && !present.contains(iid),
        to_add(declared, present).no_duplicates(),
    decreases declared.len(),
{
    if declared.len() > 0 {
        let front = declared.drop_last();
        let rest = to_add(front, present);
        let last = declared.last();
        lemma_to_add(front, present);
        let out = to_add(declared, present);
        assert forall|iid: Seq<char>| #[trigger]
            out.contains(iid) <==> declared.contains(iid) && !present.contains(iid) by {
            if declared.contains(iid) {
                let i = choose|i: int| 0 <= i < declared.len() && declared[i] == iid;
                if i < front.len() {
                    assert(front[i] == iid);
                    assert(front.contains(iid));
                }
            }
            if front.contains(iid) {
                let i = choose|i: int| 0 <= i < front.len() && front[i] == iid;
                assert(declared[i] == iid);
            }
            assert(declared[declared.len() - 1] == last);
            if out != rest {
                assert(out =~= rest.push(last));
                assert(out[rest.len() as int] == last);
                if out.contains(iid) {
                    let i = choose|i: int| 0 <= i < out.len() && out[i] == iid;
                    if i < rest.len() {
                        assert(rest[i] == iid);
                    }
                }
                if rest.contains(iid) {
                    let i = choose|i: int| 0 <= i < rest.len() && rest[i] == iid;
                    assert(out[i] == iid);
                }
            }
        }
    }
}

/// A node is despawned exactly when it is materialized under an identifier
/// that is not declared.
pub proof fn lemma_to_remove(nodes: Seq<(u64, Seq<char>)>, declared: Set<Seq<char>>)
    ensures
        forall|node: u64| #[trigger]
            to_remove(nodes, declared).contains(node) <==> exists|i: int|
                0 <= i < nodes.len() && #[trigger] nodes[i].0 == node && !declared.contains(
                    nodes[i].1,
                ),
    decreases nodes.len(),
{
    if nodes.len() > 0 {
        let front = nodes.drop_last();
        let rest = to_remove(front, declared);
        let last = nodes.last();
        lemma_to_remove(front, declared);
        let out = to_remove(nodes, declared);
        assert forall|node: u64| #[trigger]
            out.contains(node) <==> exists|i: int|
                0 <= i < nodes.len() && #[trigger] nodes[i].0 == node && !declared.contains(
                    nodes[i].1,
                ) by {
            assert(nodes[nodes.len() - 1] == last);
            if out.contains(node) {
                let k = choose|k: int| 0 <= k < out.len() && out[k] == node;
                if k < rest.len() {
                    assert(rest[k] == node);
                    assert(rest.contains(node));
                    let i = choose|i: int|
                        0 <= i < front.len() && #[trigger] front[i].0 == node
                            && !declared.contains(front[i].1);
                    assert(nodes[i].0 == node);
                } else {
                    assert(out =~= rest.push(last.0));
                    assert(nodes[nodes.len() - 1].0 == node);
                }
            }
            if exists|i: int|
                0 <= i < nodes.len() && #[trigger] nodes[i].0 == node && !declared.contains(
                    nodes[i].1,
                ) {
                let i = choose|i: int|
                    0 <= i < nodes.len() && #[trigger] nodes[i].0 == node && !declared.contains(
                        nodes[i].1,
                    );
                if i < front.len() {
                    assert(front[i].0 == node);
                    assert(rest.contains(node));
                    let k = choose|k: int| 0 <= k < rest.len() && rest[k] == node;
                    if out != rest {
                        assert(out =~= rest.push(last.0));
                    }
                    assert(out[k] == node);
                } else {
                    assert(out =~= rest.push(last.0));
                    assert(out[rest.len() as int] == node);
                }
            }
        }
    }
}

/// A node survives exactly when it was there and is not named for removal;
/// survivors keep their order.
pub proof fn lemma_survivors(nodes: Seq<(u64, Seq<char>)>, despawn: Seq<u64>)
    ensures
        forall|n: (u64, Seq<char>)| #[trigger]
            survivors(nodes, despawn).contains(n) <==> nodes.contains(n) && !despawn.contains(
                n.0,
            ),
        survivors(nodes, despawn).len() <= nodes.len(),
        despawn.len() == 0 ==> survivors(nodes, despawn) == nodes,
        distinct_nodes(nodes) ==> distinct_nodes(survivors(nodes, despawn)),
        distinct_tags(nodes) ==> distinct_tags(survivors(nodes, despawn)),
    decreases nodes.len(),
{
    if nodes.len() > 0 {
        let front = nodes.drop_last();
        let rest = survivors(front, despawn);
        let last = nodes.last();
        lemma_survivors(front, despawn);
        let out = survivors(nodes, despawn);
        assert(nodes[nodes.len() - 1] == last);
        assert forall|n: (u64, Seq<char>)| #[trigger]
            out.contains(n) <==> nodes.contains(n) && !despawn.contains(n.0) by {
            if nodes.contains(n) {
                let i = choose|i: int| 0 <= i < nodes.len() && nodes[i] == n;
                if i < front.len() {
                    assert(front[i] == n);
                }
            }
            if front.contains(n) {
                let i = choose|i: int| 0 <= i < front.len() && front[i] == n;
                assert(nodes[i] == n);
            }
            if out != rest {
                assert(out =~= rest.push(last));
                assert(out[rest.len() as int] == last);
                if out.contains(n) {
                    let i = choose|i: int| 0 <= i < out.len() && out[i] == n;
                    if i < rest.len() {
                        assert(rest[i] == n);
                    }
                }
                if rest.contains(n) {
                    let i = choose|i: int| 0 <= i < rest.len() && rest[i] == n;
                    assert(out[i] == n);
                }
            }
        }
        if despawn.len() == 0 {
            assert(!despawn.contains(last.0));
            assert(out =~= nodes);
        }
        if distinct_nodes(nodes) {
            assert(distinct_nodes(front)) by {
                assert forall|i: int, j: int| 0 <= i < j < front.len() implies front[i].0
                    != front[j].0 by {
                    assert(nodes[i].0 != nodes[j].0);
                }
            }
            if out != rest {
                assert forall|i: int, j: int| 0 <= i < j < out.len() implies out[i].0
                    != out[j].0 by {
                    if j == rest.len() {
                        assert(rest.contains(rest[i]));
                        assert(front.contains(rest[i]));
                        let k = choose|k: int| 0 <= k < front.len() && front[k] == rest[i];
                        assert(nodes[k].0 != nodes[nodes.len() - 1].0);
                    }
                }
            }
        }
        if distinct_tags(nodes) {
            assert(distinct_tags(front)) by {
                assert forall|i: int, j: int| 0 <= i < j < front.len() implies front[i].1
                    != front[j].1 by {
                    assert(nodes[i].1 != nodes[j].1);
                }
            }
            if out != rest {
                assert forall|i: int, j: int| 0 <= i < j < out.len() implies out[i].1
                    != out[j].1 by {
                    if j == rest.len() {
                        assert(rest.contains(rest[i]));
                        assert(front.contains(rest[i]));
                        let k = choose|k: int| 0 <= k < front.len() && front[k] == rest[i];
                        assert(nodes[k].1 != nodes[nodes.len() - 1].1);
                    }
                }
            }
        }
    }
}

/// After one pass the identifiers materialized under the parent are exactly
/// the declared ones: whatever identities the host gives the new nodes, no
/// declared child is missing and no undeclared child remains.
pub proof fn law_pass_materializes_declared(
    declared: Seq<Seq<char>>,
    nodes: Seq<(u64, Seq<char>)>,
    fresh: Seq<u64>,
)
    requires
        distinct_nodes(nodes),
        fresh.len() == to_add(declared, tags(nodes)).len(),
    ensures
        tags(
            after_pass(
                nodes,
                to_remove(nodes, declared.to_set()),
                to_add(declared, tags(nodes)),
                fresh,
            ),
        ) == declared.to_set(),
{
    let spawn = to_add(declared, tags(nodes));
    let despawn = to_remove(nodes, declared.to_set());
    let kept = survivors(nodes, despawn);
    let after = after_pass(nodes, despawn, spawn, fresh);
    lemma_to_add(declared, tags(nodes));
    lemma_to_remove(nodes, declared.to_set());
    lemma_survivors(nodes, despawn);
    assert forall|iid: Seq<char>| tags(after).contains(iid) <==> declared.to_set().contains(
        iid,
    ) by {
        if tags(after).contains(iid) {
            let i = choose|i: int| 0 <= i < after.len() && #[trigger] after[i].1 == iid;
            if i < kept.len() {
                assert(after[i] == kept[i]);
                assert(kept.contains(kept[i]));
                assert(nodes.contains(kept[i]));
                let k = choose|k: int| 0 <= k < nodes.len() && nodes[k] == kept[i];
                assert(nodes[k].0 == kept[i].0);
                assert(!despawn.contains(kept[i].0));
                assert(declared.to_set().contains(iid));
            } else {
                assert(after[i] == newcomers(spawn, fresh)[i - kept.len()]);
                assert(spawn[i - kept.len()] == iid);
                assert(spawn.contains(iid));
                assert(declared.contains(iid));
            }
        }
        if declared.to_set().contains(iid) {
            assert(declared.contains(iid));
            if tags(nodes).contains(iid) {
                let i = choose|i: int| 0 <= i < nodes.len() && #[trigger] nodes[i].1 == iid;
                assert(nodes.contains(nodes[i]));
                if despawn.contains(nodes[i].0) {
                    let j = choose|j: int|
                        0 <= j < nodes.len() && #[trigger] nodes[j].0 == nodes[i].0
                            && !declared.to_set().contains(nodes[j].1);
                    assert(i == j);
                }
                assert(kept.contains(nodes[i]));
                let k = choose|k: int| 0 <= k < kept.len() && kept[k] == nodes[i];
                assert(after[k].1 == iid);
            } else {
                assert(spawn.contains(iid));
                let k = choose|k: int| 0 <= k < spawn.len() && spawn[k] == iid;
                assert(after[kept.len() + k] == newcomers(spawn, fresh)[k]);
                assert(after[kept.len() + k].1 == iid);
            }
        }
    }
    assert(tags(after) =~= declared.to_set());
}

/// A pass over nodes that already carry exactly the declared identifiers
/// issues no instruction at all.
pub proof fn law_settled_pass_is_empty(declared: Seq<Seq<char>>, nodes: Seq<(u64, Seq<char>)>)
    requires
        tags(nodes) == declared.to_set(),
    ensures
        to_add(declared, tags(nodes)).len() == 0,
        to_remove(nodes, declared.to_set()).len() == 0,
{
    let spawn = to_add(declared, tags(nodes));
    let despawn = to_remove(nodes, declared.to_set());
    lemma_to_add(declared, tags(nodes));
    lemma_to_remove(nodes, declared.to_set());
    if spawn.len() > 0 {
        assert(spawn.contains(spawn[0]));
        assert(declared.contains(spawn[0]));
        assert(declared.to_set().contains(spawn[0]));
    }
    if despawn.len() > 0 {
        assert(despawn.contains(despawn[0]));
        let i = choose|i: int|
            0 <= i < nodes.len() && #[trigger] nodes[i].0 == despawn[0]
                && !declared.to_set().contains(nodes[i].1);
        assert(tags(nodes).contains(nodes[i].1));
    }
}

/// Reconciling twice against an unchanged declaration: the second pass
/// spawns nothing and despawns nothing, and leaves the nodes as they were.
pub proof fn law_second_pass_is_idle(
    declared: Seq<Seq<char>>,
    nodes: Seq<(u64, Seq<char>)>,
    fresh: Seq<u64>,
)
    requires
        distinct_nodes(nodes),
        fresh.len() == to_add(declared, tags(nodes)).len(),
    ensures
        ({
            let once = after_pass(
                nodes,
                to_remove(nodes, declared.to_set()),
                to_add(declared, tags(nodes)),
                fresh,
            );
            &&& to_add(declared, tags(once)).len() == 0
            &&& to_remove(once, declared.to_set()).len() == 0
            &&& after_pass(
                once,
                to_remove(once, declared.to_set()),
                to_add(declared, tags(once)),
                Seq::empty(),
            ) == once
        }),
{
    let once = after_pass(
        nodes,
        to_remove(nodes, declared.to_set()),
        to_add(declared, tags(nodes)),
        fresh,
    );
    law_pass_materializes_declared(declared, nodes, fresh);
    law_settled_pass_is_empty(declared, once);
    let spawn = to_add(declared, tags(once));
    let despawn = to_remove(once, declared.to_set());
    lemma_survivors(once, despawn);
    assert(newcomers(spawn, Seq::empty()) =~= Seq::empty());
    assert(after_pass(once, despawn, spawn, Seq::empty()) =~= once);
}

/// No scene node is named twice for removal when no scene node is listed
/// twice.
pub proof fn lemma_to_remove_distinct(nodes: Seq<(u64, Seq<char>)>, declared: Set<Seq<char>>)
    requires
        distinct_nodes(nodes),
    ensures
        to_remove(nodes, declared).no_duplicates(),
    decreases nodes.len(),
{
    if nodes.len() > 0 {
        let front = nodes.drop_last();
        let rest = to_remove(front, declared);
        let last = nodes.last();
        assert(distinct_nodes(front)) by {
            assert forall|i: int, j: int| 0 <= i < j < front.len() implies front[i].0
                != front[j].0 by {
                assert(nodes[i].0 != nodes[j].0);
            }
        }
        lemma_to_remove_distinct(front, declared);
        lemma_to_remove(front, declared);
        let out = to_remove(nodes, declared);
        if out != rest {
            assert(out =~= rest.push(last.0));
            if rest.contains(last.0) {
                let i = choose|i: int|
                    0 <= i < front.len() && #[trigger] front[i].0 == last.0 && !declared.contains(
                        front[i].1,
                    );
                assert(nodes[i].0 != nodes[nodes.len() - 1].0);
            }
            assert forall|i: int, j: int| 0 <= i < out.len() && 0 <= j < out.len() && i
                != j implies out[i] != out[j] by {
                if i == rest.len() {
                    assert(rest.contains(rest[j]));
                } else if j == rest.len() {
                    assert(rest.contains(rest[i]));
                }
            }
        }
    }
}

/// A sequence without repetition whose only possible member is `x`, and
/// which holds `x`, is `x` alone.
proof fn lemma_singleton<A>(s: Seq<A>, x: A)
    requires
        s.no_duplicates(),
        s.contains(x),
        forall|y: A| s.contains(y) ==> y == x,
    ensures
        s == seq![x],
{
    if s.len() >= 2 {
        assert(s.contains(s[0]));
        assert(s.contains(s[1]));
        assert(s[0] == s[1]);
    }
    assert(s.contains(s[0]));
    assert(s =~= seq![x]);
}

/// Taking one child out of a settled declaration: the next pass spawns
/// nothing and despawns the one scene node that carries the child's
/// identifier, and no sibling's.
pub proof fn law_removed_child_goes_alone(
    declared: Seq<Seq<char>>,
    nodes: Seq<(u64, Seq<char>)>,
    k: int,
)
    requires
        declared.no_duplicates(),
        distinct_nodes(nodes),
        distinct_tags(nodes),
        tags(nodes) == declared.to_set(),
        0 <= k < declared.len(),
    ensures
        to_add(declared.remove(k), tags(nodes)).len() == 0,
        exists|i: int|
            0 <= i < nodes.len() && #[trigger] nodes[i].1 == declared[k] && to_remove(
                nodes,
                declared.remove(k).to_set(),
            ) == seq![nodes[i].0],
{
    let gone = declared[k];
    let shrunk = declared.remove(k);
    let spawn = to_add(shrunk, tags(nodes));
    let despawn = to_remove(nodes, shrunk.to_set());
    lemma_to_add(shrunk, tags(nodes));
    lemma_to_remove(nodes, shrunk.to_set());
    lemma_to_remove_distinct(nodes, shrunk.to_set());
    lemma_shrunk(declared, k);
    if spawn.len() > 0 {
        assert(spawn.contains(spawn[0]));
        assert(shrunk.contains(spawn[0]));
        assert(declared.to_set().contains(spawn[0]));
    }
    assert(declared.contains(gone));
    assert(tags(nodes).contains(gone));
    let i = choose|i: int| 0 <= i < nodes.len() && #[trigger] nodes[i].1 == gone;
    assert(despawn.contains(nodes[i].0));
    assert forall|node: u64| despawn.contains(node) implies node == nodes[i].0 by {
        let j = choose|j: int|
            0 <= j < nodes.len() && #[trigger] nodes[j].0 == node && !shrunk.to_set().contains(
                nodes[j].1,
            );
        assert(tags(nodes).contains(nodes[j].1));
        assert(declared.contains(nodes[j].1));
        assert(nodes[j].1 == gone);
        assert(i == j);
    }
    lemma_singleton(despawn, nodes[i].0);
}

/// Without repetition, the declaration less its entry `k` holds every other
/// identifier and not that one.
proof fn lemma_shrunk(declared: Seq<Seq<char>>, k: int)
    requires
        declared.no_duplicates(),
        0 <= k < declared.len(),
    ensures
        forall|iid: Seq<char>| #[trigger]
            declared.remove(k).contains(iid) <==> declared.contains(iid) && iid != declared[k],
{
    let shrunk = declared.remove(k);
    assert forall|iid: Seq<char>| #[trigger]
        shrunk.contains(iid) <==> declared.contains(iid) && iid != declared[k] by {
        if shrunk.contains(iid) {
            let j = choose|j: int| 0 <= j < shrunk.len() && shrunk[j] == iid;
            if j < k {
                assert(declared[j] == iid);
            } else {
                assert(declared[j + 1] == iid);
            }
        }
        if declared.contains(iid) && iid != declared[k] {
            let j = choose|j: int| 0 <= j < declared.len() && declared[j] == iid;
            if j < k {
                assert(shrunk[j] == iid);
            } else {
                assert(shrunk[j - 1] == iid);
            }
        }
    }
}

/// Putting the child back after the pass that removed it: the next pass
/// despawns nothing and spawns exactly that child. The scene node that
/// carried the child before is gone from under the parent, so the child is
/// materialized by a node that the host creates, not by the old one.
pub proof fn law_readded_child_is_spawned_anew(
    declared: Seq<Seq<char>>,
    nodes: Seq<(u64, Seq<char>)>,
    k: int,
)
    requires
        declared.no_duplicates(),
        distinct_nodes(nodes),
        distinct_tags(nodes),
        tags(nodes) == declared.to_set(),
        0 <= k < declared.len(),
    ensures
        ({
            let shrunk = declared.remove(k);
            let between = after_pass(
                nodes,
                to_remove(nodes, shrunk.to_set()),
                to_add(shrunk, tags(nodes)),
                Seq::empty(),
            );
            &&& to_add(declared, tags(between)) == seq![declared[k]]
            &&& to_remove(between, declared.to_set()).len() == 0
            &&& forall|i: int, j: int|
                0 <= i < nodes.len() && 0 <= j < between.len() && #[trigger] nodes[i].1
                    == declared[k] ==> #[trigger] between[j].0 != nodes[i].0
        }),
{
    let gone = declared[k];
    let shrunk = declared.remove(k);
    let despawn = to_remove(nodes, shrunk.to_set());
    let between = after_pass(nodes, despawn, to_add(shrunk, tags(nodes)), Seq::empty());
    law_removed_child_goes_alone(declared, nodes, k);
    lemma_shrunk(declared, k);
    lemma_survivors(nodes, despawn);
    lemma_to_remove(nodes, shrunk.to_set());
    assert(newcomers(to_add(shrunk, tags(nodes)), Seq::empty()) =~= Seq::empty());
    assert(between =~= survivors(nodes, despawn));
    law_pass_materializes_declared(shrunk, nodes, Seq::empty());
    assert(tags(between) == shrunk.to_set());
    lemma_to_add(declared, tags(between));
    lemma_to_remove(between, declared.to_set());
    let spawn = to_add(declared, tags(between));
    assert(declared.contains(gone));
    assert(spawn.contains(gone));
    assert forall|iid: Seq<char>| spawn.contains(iid) implies iid == gone by {
        if iid != gone {
            assert(shrunk.contains(iid));
            assert(shrunk.to_set().contains(iid));
        }
    }
    lemma_singleton(spawn, gone);
    let gone_again = to_remove(between, declared.to_set());
    if gone_again.len() > 0 {
        assert(gone_again.contains(gone_again[0]));
        let j = choose|j: int|
            0 <= j < between.len() && #[trigger] between[j].0 == gone_again[0]
                && !declared.to_set().contains(between[j].1);
        assert(tags(between).contains(between[j].1));
        assert(shrunk.contains(between[j].1));
    }
    assert forall|i: int, j: int|
        0 <= i < nodes.len() && 0 <= j < between.len() && #[trigger] nodes[i].1
            == gone implies #[trigger] between[j].0 != nodes[i].0 by {
        assert(!shrunk.to_set().contains(nodes[i].1)) by {
            if shrunk.to_set().contains(nodes[i].1) {
                assert(shrunk.contains(gone));
            }
        }
        assert(despawn.contains(nodes[i].0));
        assert(between.contains(between[j]));
    }
}

} // verus!
