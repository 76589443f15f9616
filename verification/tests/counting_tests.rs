use engine_core::table::random_order;
use engine_core::table::apply_rebuild;
use engine_core::chunk::ChunkState;
use engine_core::counting::ChildCounter;
use engine_core::table::ChunkTable;

#[test]
fn reset_makes_exactly_the_parents_wait() {
    let mut c = ChildCounter::new();
    assert!(!c.waits(1));
    c.reset(&vec![1, 2, 2]);
    assert!(c.waits(1));
    assert!(c.waits(2));
    assert!(!c.waits(3));
    c.reset(&vec![3]);
    assert!(!c.waits(1));
    assert!(c.waits(3));
}

#[test]
fn parents_without_finished_children_keep_waiting() {
    let mut c = ChildCounter::new();
    c.reset(&vec![10, 20]);
    let shown = c.backpropagate(&vec![(10, Some(20)), (20, None)]);
    assert!(shown.is_empty());
    assert!(c.waits(10));
    assert!(c.waits(20));
}

#[test]
fn waiting_nodes_keep_their_removed_chunks() {
    let mut table = ChunkTable::new();
    let order: Vec<usize> = (0..128).collect();
    table.apply_octree_delta(1, &vec![5], &vec![], &order).unwrap();
    table.apply_octree_delta(1, &vec![6], &vec![5], &vec![]).unwrap();
    let mut counter = ChildCounter::new();
    counter.reset(&vec![5]);
    assert!(table.release_removed(&counter).is_empty());
    assert_eq!(table.chunks()[0].state, ChunkState::PendingRemoval);
    counter.reset(&vec![]);
    assert_eq!(table.release_removed(&counter), vec![(0, 0)]);
    assert_eq!(table.chunks()[0].state, ChunkState::Free);
}

#[test]
fn table_lifecycle_from_dirty_to_generated() {
    let mut table = ChunkTable::new();
    let order: Vec<usize> = (0..128).collect();
    table.apply_octree_delta(1, &vec![9], &vec![], &order).unwrap();
    let (released, hidden) = table.begin_generation();
    assert!(released.is_empty());
    assert_eq!(hidden, vec![(0, 0)]);
    assert_eq!(table.chunks()[0].state, ChunkState::Pending);
    let keys = vec![0u32; table.chunks().len()];
    assert_eq!(table.generate_next(&keys), Some(0));
    assert_eq!(table.begin_readback(false), Some(0));
    assert_eq!(table.chunks()[0].state, ChunkState::PendingReadbackData);
    assert_eq!(table.finish_readback(0, (0, 0), (5, 0), 4, 4), Some((0, 0)));
    assert_eq!(table.chunks()[0].state, ChunkState::Generated { empty: false });
    assert_eq!(table.chunks()[0].ranges, Some((0, 2)));
    table.regenerate(0);
    assert_eq!(table.chunks()[0].state, ChunkState::Dirty);
    table.complete_mesh_readback(0);
    assert_eq!(table.unfinished_count(), 1);
    assert_eq!(table.chunk_of(9), Some(0));
}

#[test]
fn a_reloaded_voxel_shader_regenerates_generated_chunks() {
    let mut table = ChunkTable::new();
    let order: Vec<usize> = (0..128).collect();
    table.apply_octree_delta(1, &vec![1, 2], &vec![], &order).unwrap();
    table.begin_generation();
    let keys = vec![0u32; table.chunks().len()];
    assert_eq!(table.generate_next(&keys), Some(1));
    assert_eq!(table.begin_readback(false), Some(1));
    table.finish_readback(1, (0, 0), (0, 0), 4, 4);
    assert_eq!(table.chunks()[1].state, ChunkState::Generated { empty: true });
    table.regenerate_generated();
    assert_eq!(table.chunks()[1].state, ChunkState::Dirty);
    assert_eq!(table.chunks()[0].state, ChunkState::Pending);
    assert_eq!(table.chunks()[2].state, ChunkState::Free);
}

#[test]
fn random_orders_are_arrangements() {
    let mut order = random_order(50);
    order.sort();
    assert_eq!(order, (0..50).collect::<Vec<usize>>());
    assert!(random_order(0).is_empty());
}

#[test]
fn a_rebuild_resets_the_parents_and_hands_out_chunks() {
    let mut table = ChunkTable::new();
    let mut counter = ChildCounter::new();
    // Nothing added: the table stays, the parents still wait.
    assert_eq!(apply_rebuild(&mut table, &mut counter, 1, &vec![], &vec![7], &vec![]), None);
    assert!(counter.waits(7));
    assert!(table.chunks().is_empty());
    let out = apply_rebuild(&mut table, &mut counter, 2, &vec![4, 5], &vec![8], &vec![]).unwrap();
    assert_eq!(out.len(), 2);
    assert!(counter.waits(8) && !counter.waits(7));
    assert_eq!(table.chunk_of(4), Some(out[0]));
    assert_eq!(table.chunk_of(5), Some(out[1]));
    assert_eq!(table.chunks().len(), 256);
    // Only the handed out chunks are dirty; the others are free.
    for (i, c) in table.chunks().iter().enumerate() {
        if i == out[0] || i == out[1] {
            assert_eq!(c.state, ChunkState::Dirty);
        } else {
            assert_eq!(c.state, ChunkState::Free);
        }
    }
    // A later rebuild removes node 4 and adds node 6: node 5 keeps its chunk.
    let out2 = apply_rebuild(&mut table, &mut counter, 2, &vec![6], &vec![], &vec![4]).unwrap();
    assert_eq!(table.chunks()[out[0]].state, ChunkState::PendingRemoval);
    assert_eq!(table.chunks()[out[1]].state, ChunkState::Dirty);
    assert_eq!(table.chunks()[out2[0]].state, ChunkState::Dirty);
    assert_eq!(table.chunk_of(5), Some(out[1]));
    assert_eq!(table.chunk_of(4), None);
}
