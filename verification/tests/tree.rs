use brb::membership::actor::ed25519::Actor;
use brb::BRBDataType;
use brb_node_snfs::shared::SharedBRB;
use brb_node_snfs::tree::{duplicate_all, FsTree, MoveOp, TreeRef, TreeRow};
use brb_node_snfs::treestore::FsBrbTreeReplicaStore;

fn two_actors() -> (Actor, Actor) {
    let a = Actor::default();
    let b = Actor::default();
    if a < b {
        (a, b)
    } else {
        (b, a)
    }
}

fn stamped(counter: u64, actor: Actor, parent_id: u64, metadata: Vec<u8>, child_id: u64) -> MoveOp {
    MoveOp { counter, actor, parent_id, metadata, child_id }
}

fn found(tree: &TreeRef<'_>, id: u64) -> Option<(u64, Vec<u8>)> {
    tree.find(id).map(|entry| (entry.parent_id, entry.metadata))
}

fn sorted_children(tree: &TreeRef<'_>, id: u64) -> Vec<u64> {
    let mut ids = tree.children(id);
    ids.sort();
    ids
}

fn sorted_rows(rows: Vec<TreeRow>) -> Vec<(u64, u64, Vec<u8>)> {
    let mut list: Vec<(u64, u64, Vec<u8>)> =
        rows.into_iter().map(|row| (row.id, row.parent_id, row.metadata)).collect();
    list.sort();
    list
}

#[test]
fn new_replica_is_empty() {
    let actor = Actor::default();
    let store = FsBrbTreeReplicaStore::new(actor);
    assert!(store.state().find(0).is_none());
    assert!(store.state().children(0).is_empty());
    assert_eq!(store.time().counter, 0);
    assert_eq!(store.time().actor, actor);
}

#[test]
fn own_move_gets_the_next_time() {
    let actor = Actor::default();
    let mut store = FsBrbTreeReplicaStore::new(actor);
    let op = store.opmove(1, vec![7, 8], 2);
    assert_eq!(op.counter, 1);
    assert_eq!(op.actor, actor);
    assert_eq!(op.parent_id, 1);
    assert_eq!(op.metadata, vec![7, 8]);
    assert_eq!(op.child_id, 2);
    // The clock moves on when the move is made, not when it is drawn up.
    assert_eq!(store.time().counter, 0);
    store.apply_op(op);
    assert_eq!(store.time().counter, 1);
    assert_eq!(store.opmove(1, vec![], 3).counter, 2);
}

#[test]
fn own_move_is_found_at_once() {
    let mut store = FsBrbTreeReplicaStore::new(Actor::default());
    let op = store.opmove(1, vec![7, 8], 2);
    store.apply_op(op);
    assert_eq!(found(&store.state(), 2), Some((1, vec![7, 8])));
    assert_eq!(sorted_children(&store.state(), 1), vec![2]);
    assert!(store.state().find(1).is_none());
    let op = store.opmove(1, vec![9], 3);
    store.apply_op(op);
    assert_eq!(found(&store.state(), 2), Some((1, vec![7, 8])));
    assert_eq!(sorted_children(&store.state(), 1), vec![2, 3]);
}

#[test]
fn moved_node_leaves_its_old_parent() {
    let mut store = FsBrbTreeReplicaStore::new(Actor::default());
    let op = store.opmove(1, vec![7], 2);
    store.apply_op(op);
    let op = store.opmove(5, vec![8], 2);
    store.apply_op(op);
    assert_eq!(found(&store.state(), 2), Some((5, vec![8])));
    assert!(store.state().children(1).is_empty());
    assert_eq!(sorted_children(&store.state(), 5), vec![2]);
}

#[test]
fn move_below_itself_is_passed_over() {
    let mut store = FsBrbTreeReplicaStore::new(Actor::default());
    for (parent, child) in [(1, 2), (2, 3)] {
        let op = store.opmove(parent, vec![], child);
        store.apply_op(op);
    }
    let op = store.opmove(3, vec![9], 2);
    store.apply_op(op);
    assert_eq!(found(&store.state(), 2), Some((1, vec![])));
    let op = store.opmove(2, vec![9], 2);
    store.apply_op(op);
    assert_eq!(found(&store.state(), 2), Some((1, vec![])));
    // The root is no node itself, and still cannot go below its own children.
    let op = store.opmove(3, vec![9], 1);
    store.apply_op(op);
    assert!(store.state().find(1).is_none());
    assert_eq!(store.time().counter, 5);
}

#[test]
fn refused_move_counts_where_an_older_one_makes_room() {
    let (a, b) = two_actors();
    let mut store = FsBrbTreeReplicaStore::new(a);
    store.apply_op(stamped(1, a, 1, vec![], 2));
    store.apply_op(stamped(3, a, 2, vec![], 3));
    store.apply_op(stamped(9, a, 3, vec![5], 2));
    assert_eq!(found(&store.state(), 2), Some((1, vec![])));
    // A move of node 3 away from node 2, made in between, comes in late.
    store.apply_op(stamped(5, b, 1, vec![6], 3));
    assert_eq!(found(&store.state(), 3), Some((1, vec![6])));
    assert_eq!(found(&store.state(), 2), Some((3, vec![5])));
}

#[test]
fn second_arrival_of_a_move_changes_nothing() {
    let a = Actor::default();
    let mut store = FsBrbTreeReplicaStore::new(a);
    let op = store.opmove(1, vec![7], 2);
    let again = op.duplicate();
    store.apply_op(op);
    store.apply_op(again);
    assert_eq!(found(&store.state(), 2), Some((1, vec![7])));
    assert_eq!(store.time().counter, 1);
}

#[test]
fn taken_stamp_keeps_the_first_move() {
    let a = Actor::default();
    let mut store = FsBrbTreeReplicaStore::new(a);
    store.apply_op(stamped(4, a, 1, vec![7], 2));
    store.apply_op(stamped(4, a, 5, vec![8], 2));
    assert_eq!(found(&store.state(), 2), Some((1, vec![7])));
    store.apply_op(stamped(4, a, 1, vec![], 6));
    assert!(store.state().find(6).is_none());
    assert_eq!(store.time().counter, 4);
}

#[test]
fn same_moves_give_the_same_tree_in_any_order() {
    let (a, b) = two_actors();
    let orders = [[0, 1, 2], [0, 2, 1], [1, 0, 2], [1, 2, 0], [2, 0, 1], [2, 1, 0]];
    for order in orders {
        let mut store = FsBrbTreeReplicaStore::new(Actor::default());
        for i in order {
            let op = match i {
                0 => stamped(1, a, 0, vec![1], 10),
                1 => stamped(2, a, 10, vec![2], 11),
                _ => stamped(2, b, 11, vec![3], 10),
            };
            store.apply_op(op);
        }
        // At the same time the smaller key goes first; the move of node 10 below
        // node 11 is then one below itself.
        assert_eq!(found(&store.state(), 10), Some((0, vec![1])));
        assert_eq!(found(&store.state(), 11), Some((10, vec![2])));
        assert_eq!(store.time().counter, 2);
    }
}

#[test]
fn later_time_wins_over_later_arrival() {
    let (a, b) = two_actors();
    let mut store = FsBrbTreeReplicaStore::new(a);
    store.apply_op(stamped(8, a, 1, vec![1], 5));
    store.apply_op(stamped(3, b, 2, vec![2], 5));
    assert_eq!(found(&store.state(), 5), Some((1, vec![1])));
    assert_eq!(store.time().counter, 8);
    // At the same time the greater key wins.
    store.apply_op(stamped(8, b, 3, vec![3], 5));
    assert_eq!(found(&store.state(), 5), Some((3, vec![3])));
}

#[test]
fn clock_stops_at_its_last_value() {
    let (a, b) = two_actors();
    let mut store = FsBrbTreeReplicaStore::new(a);
    store.apply_op(stamped(u64::MAX, b, 1, vec![], 2));
    assert_eq!(store.time().counter, u64::MAX);
    assert_eq!(store.opmove(1, vec![], 3).counter, u64::MAX);
}

#[test]
fn transaction_is_valid_where_each_of_its_moves_is() {
    let (a, b) = two_actors();
    let tree = FsTree::new(a);
    let own = (1, a, 0, vec![1], 10);
    let foreign = (2, b, 0, vec![2], 11);
    assert!(tree.validate(&a, &vec![]).is_ok());
    assert!(tree.validate(&a, &vec![own.clone()]).is_ok());
    assert!(tree.validate(&b, &vec![own.clone()]).is_err());
    assert!(tree.validate(&a, &vec![own.clone(), foreign.clone()]).is_err());
    assert!(tree.validate(&b, &vec![foreign]).is_ok());
}

#[test]
fn transaction_is_made_in_its_order() {
    let a = Actor::default();
    let mut tree = FsTree::new(a);
    tree.apply(vec![(1, a, 0, vec![1], 10), (2, a, 10, vec![2], 11), (3, a, 11, vec![3], 10)]);
    let store = FsBrbTreeReplicaStore(tree);
    assert_eq!(found(&store.state(), 10), Some((0, vec![1])));
    assert_eq!(found(&store.state(), 11), Some((10, vec![2])));
    assert_eq!(store.time().counter, 3);
}

#[test]
fn transaction_is_made_on_the_own_tree_at_once() {
    let mut state = SharedBRB::new();
    let ops = state.opmovetx_multi(vec![(0, vec![1], 10), (10, vec![2], 11)]);
    let copy = duplicate_all(&ops);
    assert_eq!(copy.len(), 2);
    assert_eq!(copy[1].child_id, 11);
    assert_eq!(copy[1].metadata, vec![2]);
    state.apply_op(ops);
    assert_eq!(state.children(0), vec![10]);
    assert_eq!(state.children(10), vec![11]);
    assert_eq!(state.time().counter, 2);
    state.apply_op(copy);
    state.apply_op(Vec::new());
    assert_eq!(state.time().counter, 2);
}

#[test]
fn log_is_never_cut() {
    let mut store = FsBrbTreeReplicaStore::new(Actor::default());
    let op = store.opmove(1, vec![], 2);
    store.apply_op(op);
    assert!(!store.truncate_log());
    assert_eq!(found(&store.state(), 2), Some((1, vec![])));
    assert!(!SharedBRB::new().truncate_log());
}

#[test]
fn node_starts_with_an_empty_tree() {
    let state = SharedBRB::new();
    assert!(state.read().is_empty());
    assert!(state.find(0).is_none());
    assert!(state.children(0).is_empty());
    assert_eq!(state.time().counter, 0);
    assert_eq!(state.time().actor, state.actor());
    assert!(state.actor() != SharedBRB::new().actor());
}

#[test]
fn node_reads_its_own_moves() {
    let mut state = SharedBRB::new();
    let op = state.opmove(0, vec![1, 20, 255], 5);
    assert_eq!(op.counter, 1);
    assert_eq!(op.actor, state.actor());
    state.apply_op(vec![op]);
    let op = state.opmove(5, vec![], u64::MAX);
    assert_eq!(op.counter, 2);
    state.apply_op(vec![op]);
    let entry = state.find(5).unwrap();
    assert_eq!(entry.parent_id, 0);
    assert_eq!(entry.metadata, vec![1, 20, 255]);
    assert_eq!(state.children(5), vec![u64::MAX]);
    assert_eq!(state.time().counter, 2);
}

#[test]
fn every_node_is_read_once() {
    let mut state = SharedBRB::new();
    let moves =
        [(0, vec![1, 20], 5), (5, vec![], u64::MAX), (5, vec![7], 12), (1, vec![8], 5)];
    for (parent, meta, child) in moves {
        let op = state.opmove(parent, meta, child);
        state.apply_op(vec![op]);
    }
    assert_eq!(
        sorted_rows(state.read()),
        vec![(5, 1, vec![8]), (12, 5, vec![7]), (u64::MAX, 5, vec![])]
    );
}

#[test]
fn rows_make_up_the_text_of_the_tree() {
    let mut state = SharedBRB::new();
    for (parent, child) in [(0, 5), (5, 6)] {
        let op = state.opmove(parent, format!("node {}", child).into_bytes(), child);
        state.apply_op(vec![op]);
    }
    let mut tree: crdt_tree::Tree<u64, String> = crdt_tree::Tree::new();
    for row in state.read() {
        let name = String::from_utf8(row.metadata).unwrap();
        tree.add_node(row.id, crdt_tree::TreeNode::new(row.parent_id, name));
    }
    assert_eq!(format!("{}", tree), "0\n  5 [\"node 5\"]\n    6 [\"node 6\"]\n");
}

#[test]
fn several_moves_get_times_one_after_the_other() {
    let mut state = SharedBRB::new();
    let op = state.opmove(0, vec![], 1);
    state.apply_op(vec![op]);
    let ops = state.opmovetx_multi(vec![(1, vec![4], 2), (2, vec![5], 3)]);
    assert_eq!(ops.len(), 2);
    assert_eq!(ops[0].counter, 2);
    assert_eq!(ops[1].counter, 3);
    for (op, (parent, meta, child)) in ops.iter().zip([(1, 4, 2), (2, 5, 3)]) {
        assert_eq!(op.actor, state.actor());
        assert_eq!(op.parent_id, parent);
        assert_eq!(op.metadata, vec![meta]);
        assert_eq!(op.child_id, child);
    }
    assert!(state.opmovetx_multi(vec![]).is_empty());
}
