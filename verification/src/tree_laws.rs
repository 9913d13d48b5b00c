//! What holds of the replicated tree, whatever moves are made and in whatever order
//! they arrive.
use crate::actor::{key_lt_irreflexive, key_lt_total, key_lt_transitive};
use crate::tree::{
    after_move, after_moves, climbs, is_ancestor, is_child, is_last, latest, makes_cycle, moved,
    nodes, nodes_after, same_stamp, stamp_lt, stamps_unique, tick, tree_wf, EntryView, MoveView,
    TreeView,
};
use vstd::prelude::*;

verus! {

/// No node is below itself.
pub open spec fn acyclic(nodes: Map<u64, EntryView>) -> bool {
    forall|n: u64| !#[trigger] is_ancestor(nodes, n, n)
}

proof fn lemma_stamp_lt_transitive(a: MoveView, b: MoveView, c: MoveView)
    requires
        stamp_lt(a, b),
        stamp_lt(b, c),
    ensures
        stamp_lt(a, c),
{
    if a.counter == b.counter && b.counter == c.counter {
        key_lt_transitive(a.actor, b.actor, c.actor);
    }
}

proof fn lemma_stamp_lt_irreflexive(a: MoveView, b: MoveView)
    requires
        stamp_lt(a, b),
    ensures
        !same_stamp(a, b),
        !stamp_lt(b, a),
{
    key_lt_irreflexive(a.actor);
    if stamp_lt(b, a) {
        lemma_stamp_lt_transitive(a, b, a);
    }
}

/// The stamps order all moves of a sound replica: one of them is the last.
pub proof fn one_move_is_the_last(moves: Set<MoveView>)
    requires
        moves.finite(),
        stamps_unique(moves),
        moves.len() > 0,
    ensures
        exists|op: MoveView| #[trigger] is_last(moves, op),
    decreases moves.len(),
{
    let x = moves.choose();
    let rest = moves.remove(x);
    if rest.len() == 0 {
        assert(rest =~= Set::empty());
        assert(is_last(moves, x));
    } else {
        assert(stamps_unique(rest)) by {
            assert(forall|o: MoveView| #[trigger] rest.contains(o) ==> moves.contains(o));
        }
        one_move_is_the_last(rest);
        let l = choose|l: MoveView| #[trigger] is_last(rest, l);
        key_lt_total(x.actor, l.actor);
        assert(moves.contains(l) && moves.contains(x));
        if stamp_lt(x, l) {
            assert forall|o: MoveView| #[trigger] moves.remove(l).contains(o) implies stamp_lt(
                o,
                l,
            ) by {
                if o != x {
                    assert(rest.remove(l).contains(o));
                }
            }
            assert(is_last(moves, l));
        } else {
            assert(stamp_lt(l, x));
            assert forall|o: MoveView| #[trigger] moves.remove(x).contains(o) implies stamp_lt(
                o,
                x,
            ) by {
                if o != l {
                    assert(rest.remove(l).contains(o));
                    lemma_stamp_lt_transitive(o, l, x);
                }
            }
            assert(is_last(moves, x));
        }
    }
}

/// A move that is later than all that a replica holds is made on its tree as it stands.
pub proof fn latest_move_comes_on_top(tree: TreeView, op: MoveView)
    requires
        tree.moves.finite(),
        latest(tree.moves, op),
    ensures
        nodes(after_move(tree, op)) == moved(nodes(tree), op),
{
    assert forall|o: MoveView| #[trigger] tree.moves.contains(o) implies !same_stamp(o, op) by {
        lemma_stamp_lt_irreflexive(o, op);
    }
    assert(!tree.moves.contains(op));
    let all = tree.moves.insert(op);
    assert(after_move(tree, op).moves == all);
    assert(all.remove(op) =~= tree.moves);
    assert(is_last(all, op));
    let last = choose|o: MoveView| #[trigger] is_last(all, o);
    if last != op {
        assert(tree.moves.contains(last));
        assert(all.remove(last).contains(op));
        lemma_stamp_lt_irreflexive(op, last);
    }
}

/// A move that a replica makes with its next time is seen at once: the child is found
/// below its new parent, with its new metadata, and every other node stays as it was.
/// The one exception is a move that would put a node below itself.
pub proof fn own_move_is_read_back(tree: TreeView, parent: u64, meta: Seq<u8>, child: u64)
    requires
        tree_wf(tree),
        tree.time < u64::MAX,
        !makes_cycle(
            nodes(tree),
            MoveView { counter: tick(tree.time, 1), actor: tree.actor, parent, meta, child },
        ),
    ensures
        ({
            let after = after_move(
                tree,
                MoveView { counter: tick(tree.time, 1), actor: tree.actor, parent, meta, child },
            );
            &&& nodes(after) == nodes(tree).insert(child, EntryView { parent, meta })
            &&& is_child(nodes(after), parent, child)
            &&& after.time == tree.time + 1
        }),
{
    let op = MoveView { counter: tick(tree.time, 1), actor: tree.actor, parent, meta, child };
    assert(latest(tree.moves, op));
    latest_move_comes_on_top(tree, op);
}

/// A move that would put a node below itself leaves the tree as it is.
pub proof fn cycle_is_refused(tree: TreeView, op: MoveView)
    requires
        tree.moves.finite(),
        latest(tree.moves, op),
        makes_cycle(nodes(tree), op),
    ensures
        nodes(after_move(tree, op)) == nodes(tree),
{
    latest_move_comes_on_top(tree, op);
}

/// The tree is a tree, whatever moves were made: no node is ever below itself.
pub proof fn no_node_is_below_itself(moves: Set<MoveView>)
    ensures
        acyclic(nodes_after(moves)),
    decreases moves.len(),
{
    if moves.finite() && exists|op: MoveView| #[trigger] is_last(moves, op) {
        let op = choose|op: MoveView| #[trigger] is_last(moves, op);
        no_node_is_below_itself(moves.remove(op));
        lemma_move_keeps_a_tree(nodes_after(moves.remove(op)), op);
    } else {
        assert forall|n: u64| !#[trigger] is_ancestor(nodes_after(moves), n, n) by {
            if is_ancestor(nodes_after(moves), n, n) {
                let path = choose|path: Seq<u64>| #[trigger]
                    climbs(nodes_after(moves), path) && path[0] == n && path.last() == n;
                assert(nodes_after(moves).contains_key(path[0]));
            }
        }
    }
}

proof fn lemma_move_keeps_a_tree(old_nodes: Map<u64, EntryView>, op: MoveView)
    requires
        acyclic(old_nodes),
    ensures
        acyclic(moved(old_nodes, op)),
{
    let new_nodes = moved(old_nodes, op);
    if !makes_cycle(old_nodes, op) {
        assert forall|n: u64| !#[trigger] is_ancestor(new_nodes, n, n) by {
            if is_ancestor(new_nodes, n, n) {
                let path = choose|path: Seq<u64>| #[trigger]
                    climbs(new_nodes, path) && path[0] == n && path.last() == n;
                lemma_cycle_goes_through(old_nodes, op, path);
            }
        }
    }
}

/// A way from a node back to itself would need the new link; without it there would
/// be a way from the new parent up to the child, or a cycle that was there before.
proof fn lemma_cycle_goes_through(old_nodes: Map<u64, EntryView>, op: MoveView, path: Seq<u64>)
    requires
        climbs(
            old_nodes.insert(op.child, EntryView { parent: op.parent, meta: op.meta }),
            path,
        ),
        path[0] == path.last(),
    ensures
        !acyclic(old_nodes) || makes_cycle(old_nodes, op),
{
    let new_nodes = old_nodes.insert(op.child, EntryView { parent: op.parent, meta: op.meta });
    let links = path.drop_last();
    if !links.contains(op.child) {
        assert forall|i: int| 0 <= i < path.len() - 1 implies old_nodes.contains_key(
            #[trigger] path[i],
        ) && old_nodes[path[i]].parent == path[i + 1] by {
            assert(links[i] == path[i]);
            assert(new_nodes.contains_key(path[i]));
        }
        assert(climbs(old_nodes, path));
        assert(is_ancestor(old_nodes, path[0], path[0]));
    } else {
        let i = links.index_of_first(op.child)->0;
        let j = links.index_of_last(op.child)->0;
        links.index_of_first_ensures(op.child);
        links.index_of_last_ensures(op.child);
        assert(path[j] == op.child);
        assert(new_nodes[path[j]].parent == path[j + 1]);
        assert(path[j + 1] == op.parent);
        let up = path.subrange(j + 1, path.len() as int);
        let down = path.subrange(1, i + 1);
        let way = up + down;
        assert(way[0] == op.parent);
        if i == 0 {
            assert(way.last() == path.last());
            assert(path[0] == op.child);
        } else {
            assert(way.last() == path[i]);
        }
        assert(way.last() == op.child);
        if way.len() < 2 {
            assert(op.parent == op.child);
        } else {
            assert forall|k: int| 0 <= k < way.len() - 1 implies old_nodes.contains_key(
                #[trigger] way[k],
            ) && old_nodes[way[k]].parent == way[k + 1] by {
                let at = if k < up.len() - 1 {
                    j + 1 + k
                } else {
                    k - (up.len() - 1)
                };
                assert(0 <= at < path.len() - 1);
                assert(path[at] == way[k]);
                assert(path[at + 1] == way[k + 1]);
                assert(links[at] == path[at]);
                assert(at < i || at > j);
                assert(links[at] != op.child);
                assert(new_nodes.contains_key(path[at]));
                assert(new_nodes[path[at]].parent == path[at + 1]);
            }
            assert(climbs(old_nodes, way));
            assert(is_ancestor(old_nodes, op.parent, op.child));
        }
    }
}

/// A move that arrives a second time changes nothing.
pub proof fn second_arrival_changes_nothing(tree: TreeView, op: MoveView)
    ensures
        after_move(after_move(tree, op), op) == after_move(tree, op),
{
    let once = after_move(tree, op);
    if !exists|o: MoveView| #[trigger] tree.moves.contains(o) && same_stamp(o, op) {
        assert(once.moves.contains(op) && same_stamp(op, op));
    }
    assert(after_move(once, op).moves =~= once.moves);
}

/// A sound replica stays sound, and stays the replica of its actor: no stamp is ever taken
/// twice, and no move is ever later than the clock.
pub proof fn replica_stays_sound(tree: TreeView, ops: Seq<MoveView>)
    requires
        tree_wf(tree),
    ensures
        tree_wf(after_moves(tree, ops)),
        after_moves(tree, ops).actor == tree.actor,
    decreases ops.len(),
{
    if ops.len() > 0 {
        replica_stays_sound(tree, ops.drop_last());
    }
}

/// Moves made one list after the other are made like one list.
pub proof fn lists_of_moves_add_up(tree: TreeView, a: Seq<MoveView>, b: Seq<MoveView>)
    ensures
        after_moves(tree, a + b) == after_moves(after_moves(tree, a), b),
    decreases b.len(),
{
    if b.len() == 0 {
        assert(a + b =~= a);
    } else {
        lists_of_moves_add_up(tree, a, b.drop_last());
        assert((a + b).drop_last() =~= a + b.drop_last());
        assert((a + b).last() == b.last());
    }
}

/// A replica that has taken in a list of moves holds them all, together with those that
/// it held before.
pub proof fn all_moves_are_kept(tree: TreeView, ops: Seq<MoveView>)
    requires
        stamps_unique(tree.moves.union(ops.to_set())),
    ensures
        after_moves(tree, ops).moves == tree.moves.union(ops.to_set()),
    decreases ops.len(),
{
    let all = tree.moves.union(ops.to_set());
    if ops.len() == 0 {
        assert(all =~= tree.moves);
    } else {
        let first = ops.drop_last();
        let op = ops.last();
        assert forall|o: MoveView| first.contains(o) implies ops.contains(o) by {
            let i = choose|i: int| 0 <= i < first.len() && first[i] == o;
            assert(ops[i] == o);
        }
        assert(ops.contains(op)) by {
            assert(ops[ops.len() - 1] == op);
        }
        let some = tree.moves.union(first.to_set());
        assert forall|a: MoveView, b: MoveView| #[trigger]
            some.contains(a) && #[trigger] some.contains(b) && same_stamp(a, b) implies a == b by {
            assert(all.contains(a) && all.contains(b));
        }
        all_moves_are_kept(tree, first);
        assert forall|o: MoveView| all.contains(o) == some.insert(op).contains(o) by {
            if ops.contains(o) && o != op {
                let i = choose|i: int| 0 <= i < ops.len() && ops[i] == o;
                assert(first[i] == o);
            }
        }
        assert(all =~= some.insert(op));
        if exists|o: MoveView| #[trigger] some.contains(o) && same_stamp(o, op) {
            let o = choose|o: MoveView| #[trigger] some.contains(o) && same_stamp(o, op);
            assert(all.contains(o) && all.contains(op));
            assert(some.insert(op) =~= some);
        }
    }
}

/// Two replicas that have taken in the same moves show the same tree, whatever the
/// order in which the moves reached each of them, and however often.
pub proof fn replicas_agree(a: TreeView, ops_a: Seq<MoveView>, b: TreeView, ops_b: Seq<MoveView>)
    requires
        a.moves.union(ops_a.to_set()) == b.moves.union(ops_b.to_set()),
        stamps_unique(a.moves.union(ops_a.to_set())),
    ensures
        after_moves(a, ops_a).moves == after_moves(b, ops_b).moves,
        nodes(after_moves(a, ops_a)) == nodes(after_moves(b, ops_b)),
{
    all_moves_are_kept(a, ops_a);
    all_moves_are_kept(b, ops_b);
}

/// Moves that a replica stamps with the times that follow its own, and then makes in their
/// order, do not get into each other's way: each is made on the tree that the ones before
/// it left.
pub proof fn own_moves_build_on_each_other(tree: TreeView, ops: Seq<MoveView>, i: int)
    requires
        tree_wf(tree),
        tree.time + ops.len() <= u64::MAX,
        forall|j: int|
            0 <= j < ops.len() ==> (#[trigger] ops[j]).counter == tick(tree.time, (j + 1) as nat),
        0 <= i < ops.len(),
    ensures
        nodes(after_moves(tree, ops.take(i + 1))) == moved(
            nodes(after_moves(tree, ops.take(i))),
            ops[i],
        ),
{
    lemma_clock_counts(tree, ops, i);
    let between = after_moves(tree, ops.take(i));
    assert(ops.take(i + 1).drop_last() =~= ops.take(i));
    assert(ops.take(i + 1).last() == ops[i]);
    latest_move_comes_on_top(between, ops[i]);
}

proof fn lemma_clock_counts(tree: TreeView, ops: Seq<MoveView>, i: int)
    requires
        tree_wf(tree),
        tree.time + ops.len() <= u64::MAX,
        forall|j: int|
            0 <= j < ops.len() ==> (#[trigger] ops[j]).counter == tick(tree.time, (j + 1) as nat),
        0 <= i <= ops.len(),
    ensures
        after_moves(tree, ops.take(i)).time == tree.time + i,
        tree_wf(after_moves(tree, ops.take(i))),
    decreases i,
{
    if i == 0 {
        assert(ops.take(0).len() == 0);
    } else {
        lemma_clock_counts(tree, ops, i - 1);
        assert(ops.take(i).drop_last() =~= ops.take(i - 1));
        assert(ops.take(i).last() == ops[i - 1]);
    }
    replica_stays_sound(tree, ops.take(i));
}

} // verus!
