use engine_core::lifecycle::priority_key;
use engine_core::chunk::{ceil_div, Chunk, ChunkState, ChunkViewer, MeshReadbackState};
use engine_core::lifecycle::{begin_generation, begin_readback, count_in_state, generate_next};
use engine_core::counting::ChildCounter;
use engine_core::table::{extra_chunk_count, ChunkTable};

fn chunk(state: ChunkState) -> Chunk {
    Chunk {
        allocation: 0,
        local_index: 0,
        global_index: 0,
        ranges: None,
        state,
        node: None,
        collider: false,
        mesh_readback_state: None,
    }
}

#[test]
fn chunk_states_finished_and_pending() {
    assert!(ChunkState::Free.finished());
    assert!(ChunkState::Generated { empty: true }.finished());
    assert!(!ChunkState::Dirty.finished());
    assert!(ChunkState::Dirty.pending());
    assert!(ChunkState::PendingReadbackData.pending());
    assert!(!ChunkState::PendingRemoval.pending());
    assert!(!ChunkState::PendingRemoval.finished());
    let _ = ChunkViewer::default();
}

#[test]
fn regenerate_makes_any_chunk_dirty() {
    let mut c = chunk(ChunkState::Generated { empty: false });
    c.regenerate();
    assert_eq!(c.state(), ChunkState::Dirty);
    let mut c = Chunk { local_index: 3, ..chunk(ChunkState::Pending) };
    c.regenerate();
    assert_eq!(c.state(), ChunkState::Dirty);
    assert_eq!(c.local_index, 3);
}

#[test]
fn finish_readback_takes_the_larger_sub_allocation_count() {
    assert_eq!(ceil_div(0, 4), 0);
    assert_eq!(ceil_div(9, 4), 3);
    let mut c = Chunk { allocation: 1, local_index: 7, ..chunk(ChunkState::PendingReadbackData) };
    // 10 vertices need 3 sub-allocations of 4, 5 triangles need 2 of 3.
    let shown = c.finish_readback((8, 0), (10, 5), 4, 3);
    assert_eq!(shown, Some((1, 7)));
    assert_eq!(c.state(), ChunkState::Generated { empty: false });
    assert_eq!(c.ranges(), Some((2, 5)));
    let mut e = chunk(ChunkState::PendingReadbackData);
    assert_eq!(e.finish_readback((0, 0), (0, 0), 4, 3), None);
    assert_eq!(e.state(), ChunkState::Generated { empty: true });
    assert_eq!(e.ranges(), None);
}

#[test]
fn complete_mesh_readback_marks_the_mesh() {
    let mut c = Chunk { node: Some(3), ..chunk(ChunkState::PendingReadbackData) };
    c.complete_mesh_readback();
    assert_eq!(c.mesh_readback_state, Some(MeshReadbackState::Complete));
    assert_eq!(c.node(), Some(3));
    assert_eq!(c.allocation(), 0);
}

#[test]
fn generation_starts_dirty_chunks_and_drops_their_ranges() {
    let mut chunks = vec![
        Chunk { ranges: Some((2, 5)), allocation: 1, local_index: 4, ..chunk(ChunkState::Dirty) },
        Chunk { ranges: Some((3, 3)), ..chunk(ChunkState::Dirty) },
        Chunk { ranges: Some((1, 2)), ..chunk(ChunkState::Generated { empty: false }) },
    ];
    let (released, hidden) = begin_generation(&mut chunks);
    assert_eq!(released, vec![(1, 2, 5)]);
    assert_eq!(hidden, vec![(1, 4), (0, 0)]);
    assert_eq!(chunks[0].state, ChunkState::Pending);
    assert_eq!(chunks[0].ranges, None);
    assert_eq!(chunks[2].ranges, Some((1, 2)));
    assert_eq!(count_in_state(&chunks, ChunkState::Pending), 2);
}

#[test]
fn the_most_urgent_pending_chunk_is_generated_next() {
    let mut chunks = vec![chunk(ChunkState::Pending), chunk(ChunkState::Pending), chunk(ChunkState::Free)];
    assert_eq!(generate_next(&mut chunks, &vec![5, 5, 9]), Some(1));
    assert_eq!(chunks[1].state, ChunkState::PendingReadbackStart);
    // One chunk awaits its readback: nothing more is started.
    assert_eq!(generate_next(&mut chunks, &vec![5, 5, 9]), None);
    assert_eq!(chunks[0].state, ChunkState::Pending);
    assert_eq!(count_in_state(&chunks, ChunkState::PendingReadbackStart), 1);
    // Once its readback started, the next chunk is picked.
    assert_eq!(begin_readback(&mut chunks, false), Some(1));
    assert_eq!(generate_next(&mut chunks, &vec![5, 5, 9]), Some(0));
}

#[test]
fn readback_starts_with_the_first_waiting_chunk() {
    let mut chunks = vec![
        chunk(ChunkState::Pending),
        Chunk { collider: true, ..chunk(ChunkState::PendingReadbackStart) },
        chunk(ChunkState::PendingReadbackStart),
    ];
    assert_eq!(begin_readback(&mut chunks, true), Some(1));
    assert_eq!(chunks[1].state, ChunkState::PendingReadbackData);
    assert_eq!(chunks[1].mesh_readback_state, Some(MeshReadbackState::PendingReadbackData));
    assert_eq!(begin_readback(&mut chunks, false), Some(2));
    assert_eq!(chunks[2].mesh_readback_state, None);
    assert_eq!(begin_readback(&mut chunks, true), None);
}

#[test]
fn extra_chunks_are_twice_the_shortfall_and_at_least_128() {
    assert_eq!(extra_chunk_count(10, 20), 0);
    assert_eq!(extra_chunk_count(10, 10), 0);
    assert_eq!(extra_chunk_count(11, 10), 128);
    assert_eq!(extra_chunk_count(200, 10), 380);
}

fn identity(n: usize) -> Vec<usize> {
    (0..n).collect()
}

#[test]
fn octree_delta_grows_the_table_and_hands_out_free_chunks() {
    let mut table = ChunkTable::new();
    assert!(table.needs_rebuild(true, false));
    assert!(!table.needs_rebuild(false, false));
    // Two allocations, three added nodes: 128 chunks per allocation are added.
    let out = table.apply_octree_delta(2, &vec![100, 101, 102], &vec![], &identity(256)).unwrap();
    assert_eq!(out, vec![0, 1, 2]);
    assert_eq!(table.chunks().len(), 256);
    assert_eq!(table.chunks_per_allocation(), 128);
    assert_eq!(table.chunk_of(101), Some(1));
    let c = table.chunks()[1];
    assert_eq!(c.state, ChunkState::Dirty);
    assert_eq!(c.node, Some(101));
    assert_eq!((c.allocation, c.local_index, c.global_index), (0, 1, 1));
    let last = table.chunks()[255];
    assert_eq!((last.allocation, last.local_index, last.global_index), (1, 127, 255));
    assert_eq!(table.free_count(), 253);
    assert_eq!(table.unfinished_count(), 3);
    assert!(!table.needs_rebuild(false, true));
}

#[test]
fn octree_delta_follows_the_given_order_of_new_chunks() {
    let mut table = ChunkTable::new();
    let mut order = identity(128);
    order.reverse();
    let out = table.apply_octree_delta(1, &vec![7], &vec![], &order).unwrap();
    assert_eq!(out, vec![0]);
    assert_eq!(table.chunks()[0].global_index, 127);
    assert_eq!(table.chunks()[0].local_index, 127);
}

#[test]
fn octree_delta_refuses_an_order_that_is_no_arrangement() {
    let mut table = ChunkTable::new();
    let mut order = identity(128);
    order[5] = 4;
    assert!(table.apply_octree_delta(1, &vec![7], &vec![], &order).is_none());
    assert_eq!(table.chunks().len(), 0);
    assert!(!table.add_free_chunks(1, 128, &identity(127)));
}

#[test]
fn removed_nodes_are_released_once_nothing_waits_on_them() {
    let mut table = ChunkTable::new();
    table.apply_octree_delta(1, &vec![1, 2], &vec![], &identity(128)).unwrap();
    // Nothing added: nothing changes, removals included.
    assert!(table.apply_octree_delta(1, &vec![], &vec![1], &vec![]).is_none());
    assert_eq!(table.chunk_of(1), Some(0));
    let out = table.apply_octree_delta(1, &vec![3], &vec![1], &vec![]).unwrap();
    assert_eq!(out, vec![2]);
    assert_eq!(table.chunk_of(1), None);
    assert_eq!(table.chunks()[0].state, ChunkState::PendingRemoval);
    let mut waiting = ChildCounter::new();
    waiting.reset(&vec![1]);
    assert_eq!(table.release_removed(&waiting), vec![]);
    let hidden = table.release_removed(&ChildCounter::new());
    assert_eq!(hidden, vec![(0, 0)]);
    assert_eq!(table.chunks()[0].state, ChunkState::Free);
}

#[test]
fn remove_nodes_skips_nodes_without_chunks() {
    let mut table = ChunkTable::new();
    table.apply_octree_delta(1, &vec![1], &vec![], &identity(128)).unwrap();
    table.remove_nodes(&vec![42, 1]);
    assert_eq!(table.chunks()[0].state, ChunkState::PendingRemoval);
    assert_eq!(table.chunk_of(1), None);
    assert_eq!(table.unfinished_count(), 1);
}

#[test]
fn priority_keys_order_like_total_cmp() {
    let values = [-5.0f32, -1.0, -0.0, 0.0, 0.5, 2.0, 100.0];
    let keys: Vec<u32> = values.iter().map(|v| priority_key(v.to_bits())).collect();
    for i in 0..values.len() {
        for j in 0..values.len() {
            assert_eq!(keys[i].cmp(&keys[j]), values[i].total_cmp(&values[j]));
        }
    }
    assert_eq!(priority_key(0), 0x8000_0000);
    assert_eq!(priority_key(0xffff_ffff), 0);
}
