//! The chunks of a terrain together with the octree nodes they stand for:
//! recycling chunks whose node went away and handing free chunks to new nodes.
use vstd::prelude::*;
use ahash::AHashMap;
use rand::seq::SliceRandom;
use crate::maps::{index_entries, index_map_get, index_map_insert, index_map_new, index_map_remove};
use crate::chunk::{Chunk, ChunkState, MeshReadbackState};
use crate::counting::ChildCounter;
use crate::lifecycle::{
    begin_generation, generate_next, begin_readback, started, released_ranges, dirty_slots, any_pending,
    count_state, next_to_generate, first_awaiting_readback,
};
use crate::chunk::sub_allocations_used;

verus! {


/// The indices of the free chunks, in order.
pub open spec fn free_indices(s: Seq<Chunk>) -> Seq<int>
    decreases s.len(),
{
    if s.len() == 0 {
        Seq::empty()
    } else {
        free_indices(s.drop_last()) + if s.last().state == ChunkState::Free {
            seq![s.len() - 1]
        } else {
            Seq::empty()
        }
    }
}

/// Whether the chunk is one that the next octree update must wait for.
pub open spec fn unfinished(c: Chunk) -> bool {
    c.state == ChunkState::Pending || c.state == ChunkState::Dirty || c.state
        == ChunkState::PendingReadbackStart || c.state == ChunkState::PendingReadbackData
        || c.state == ChunkState::PendingRemoval
}

/// The number of chunks the next octree update must wait for.
pub open spec fn unfinished_count(s: Seq<Chunk>) -> nat
    decreases s.len(),
{
    if s.len() == 0 {
        0
    } else {
        unfinished_count(s.drop_last()) + if unfinished(s.last()) {
            1nat
        } else {
            0nat
        }
    }
}

/// A chunk holds back the next octree update exactly when it is neither
/// free nor generated: on its way to a mesh (dirty, pending, or awaiting
/// either part of its readback) or being removed.
pub proof fn law_unfinished_is_unsettled(c: Chunk)
    ensures
        unfinished(c) <==> !(c.state is Free || c.state is Generated),
{
}

/// No chunk holds back the next octree update exactly when every chunk is
/// free or generated; otherwise at least one chunk that is neither counts.
pub proof fn law_rebuild_waits_for_every_chunk(s: Seq<Chunk>)
    ensures
        unfinished_count(s) == 0 <==> forall|i: int|
            0 <= i < s.len() ==> (#[trigger] s[i]).state is Free || s[i].state is Generated,
        unfinished_count(s) <= s.len(),
    decreases s.len(),
{
    if s.len() > 0 {
        law_rebuild_waits_for_every_chunk(s.drop_last());
        if unfinished_count(s) == 0 {
            assert forall|i: int| 0 <= i < s.len() implies (#[trigger] s[i]).state is Free || s[i].state is Generated by {
                if i < s.len() - 1 {
                    assert(s.drop_last()[i] == s[i]);
                }
            }
        }
        if forall|i: int| 0 <= i < s.len() ==> (#[trigger] s[i]).state is Free || s[i].state is Generated {
            assert forall|i: int| 0 <= i < s.drop_last().len() implies (#[trigger] s.drop_last()[i]).state is Free
                || s.drop_last()[i].state is Generated by {
                assert(s.drop_last()[i] == s[i]);
            }
            assert(s.last() == s[s.len() - 1]);
        }
    }
}

proof fn lemma_free_indices_bounds(s: Seq<Chunk>)
    ensures
        forall|k: int| 0 <= k < free_indices(s).len() ==> 0 <= #[trigger] free_indices(s)[k] < s.len()
            && s[free_indices(s)[k]].state == ChunkState::Free,
        forall|k1: int, k2: int|
            0 <= k1 < k2 < free_indices(s).len() ==> #[trigger] free_indices(s)[k1]
                < #[trigger] free_indices(s)[k2],
    decreases s.len(),
{
    if s.len() > 0 {
        lemma_free_indices_bounds(s.drop_last());
    }
}

/// Whether chunk `c`, at index `i`, stands for one of the `removed` nodes
/// according to `nodes`.
pub open spec fn loses_node(nodes: Map<u64, usize>, removed: Set<u64>, c: Chunk, i: int) -> bool {
    match c.node {
        Some(n) => removed.contains(n) && nodes.contains_key(n) && nodes[n] == i,
        None => false,
    }
}

/// The chunks once the chunks of the `removed` nodes are marked for removal.
pub open spec fn after_removal(s: Seq<Chunk>, nodes: Map<u64, usize>, removed: Set<u64>) -> Seq<Chunk> {
    Seq::new(
        s.len(),
        |i: int|
            if loses_node(nodes, removed, s[i], i) {
                Chunk { state: ChunkState::PendingRemoval, ..s[i] }
            } else {
                s[i]
            },
    )
}

/// Whether `order` lists each of `0..n` at most once and nothing else, and
/// has `n` entries: an arrangement of `0..n`.
pub open spec fn is_arrangement(order: Seq<usize>, n: nat) -> bool {
    &&& order.len() == n
    &&& forall|k: int| 0 <= k < order.len() ==> #[trigger] order[k] < n
    &&& forall|k1: int, k2: int|
        0 <= k1 < k2 < order.len() ==> #[trigger] order[k1] != #[trigger] order[k2]
}

/// The `m`-th of the `count * allocation_count` chunks that a growth by
/// `count` chunks per allocation creates, when there were `per_allocation`
/// chunks per allocation before: `count` free chunks for each allocation in
/// turn, numbered on from `per_allocation` among all chunks, and from
/// `per_allocation / allocation_count` within their allocation.
pub open spec fn new_chunk(per_allocation: nat, allocation_count: nat, count: nat, m: nat) -> Chunk {
    Chunk {
        allocation: (m / count) as usize,
        local_index: (per_allocation / allocation_count + m % count) as usize,
        global_index: (per_allocation + m) as usize,
        ranges: None,
        state: ChunkState::Free,
        node: None,
        collider: false,
        mesh_readback_state: None,
    }
}

/// The chunks that a growth creates, in the order given by `order`: the
/// `k`-th of them is the `order[k]`-th new chunk.
pub open spec fn new_chunks(per_allocation: nat, allocation_count: nat, count: nat, order: Seq<usize>) -> Seq<Chunk> {
    Seq::new(order.len(), |k: int| new_chunk(per_allocation, allocation_count, count, order[k] as nat))
}

/// How many chunks per allocation to add when `added` nodes need a chunk and
/// `free` chunks are free: none when there are enough, else twice the
/// shortfall and at least 128.
pub open spec fn spec_extra_chunk_count(added: nat, free: nat) -> nat {
    if added > free {
        let twice = ((added - free) * 2) as nat;
        if twice >= 128 { twice } else { 128 }
    } else {
        0
    }
}

/// The chunks of a terrain, and which chunk stands for which octree node.
pub struct ChunkTable {
    chunks: Vec<Chunk>,
    entities: AHashMap<u64, usize>,
    chunks_per_allocation: usize,
}

impl ChunkTable {
    /// The chunks.
    pub closed spec fn chunks_view(&self) -> Seq<Chunk> {
        self.chunks@
    }

    /// The chunk that stands for each octree node.
    pub closed spec fn nodes_view(&self) -> Map<u64, usize> {
        index_entries(self.entities)
    }

    /// The number of chunks allocated per memory allocation.
    pub closed spec fn per_allocation(&self) -> nat {
        self.chunks_per_allocation as nat
    }

    /// Every node maps to a chunk in use (neither free nor being removed)
    /// that records that node.
    pub closed spec fn wf(&self) -> bool {
        forall|n: u64|
            #[trigger] index_entries(self.entities).contains_key(n) ==> {
                let i = index_entries(self.entities)[n] as int;
                &&& 0 <= i < self.chunks@.len()
                &&& self.chunks@[i].node == Some(n)
                &&& self.chunks@[i].state != ChunkState::Free
                &&& self.chunks@[i].state != ChunkState::PendingRemoval
            }
    }

    /// An empty table.
    pub fn new() -> (r: ChunkTable)
        ensures
            r.wf(),
            r.chunks_view() == Seq::<Chunk>::empty(),
            r.nodes_view() == Map::<u64, usize>::empty(),
            r.per_allocation() == 0,
    {
        ChunkTable { chunks: Vec::new(), entities: index_map_new(), chunks_per_allocation: 0 }
    }

    /// The chunks.
    pub fn chunks(&self) -> (r: &Vec<Chunk>)
        ensures
            r@ == self.chunks_view(),
    {
        &self.chunks
    }

    /// The number of chunks allocated per memory allocation.
    pub fn chunks_per_allocation(&self) -> (r: usize)
        ensures
            r == self.per_allocation(),
    {
        self.chunks_per_allocation
    }

    /// The chunk that stands for an octree node, if any.
    pub fn chunk_of(&self, node: u64) -> (r: Option<usize>)
        ensures
            r == (if self.nodes_view().contains_key(node) {
                Some(self.nodes_view()[node])
            } else {
                None
            }),
    {
        index_map_get(&self.entities, node)
    }

    /// Counts the chunks that the next octree update must wait for: those
    /// on their way to a mesh, and those being removed.
    pub fn unfinished_count(&self) -> (r: usize)
        ensures
            r == unfinished_count(self.chunks_view()),
    {
        let mut n: usize = 0;
        let mut i: usize = 0;
        while i < self.chunks.len()
            invariant
                i <= self.chunks@.len(),
                n == unfinished_count(self.chunks@.subrange(0, i as int)),
                n <= i,
            decreases self.chunks@.len() - i,
        {
            proof {
                assert(self.chunks@.subrange(0, i + 1).drop_last() =~= self.chunks@.subrange(
                    0,
                    i as int,
                ));
            }
            let c = self.chunks[i];
            if c.state == ChunkState::Pending || c.state == ChunkState::Dirty || c.state
                == ChunkState::PendingReadbackStart || c.state == ChunkState::PendingReadbackData
                || c.state == ChunkState::PendingRemoval {
                n = n + 1;
            }
            i = i + 1;
        }
        assert(self.chunks@.subrange(0, self.chunks@.len() as int) =~= self.chunks@);
        n
    }

    /// Counts the free chunks.
    pub fn free_count(&self) -> (r: usize)
        ensures
            r == free_indices(self.chunks_view()).len(),
    {
        let mut n: usize = 0;
        let mut i: usize = 0;
        while i < self.chunks.len()
            invariant
                i <= self.chunks@.len(),
                n == free_indices(self.chunks@.subrange(0, i as int)).len(),
                n <= i,
            decreases self.chunks@.len() - i,
        {
            proof {
                assert(self.chunks@.subrange(0, i + 1).drop_last() =~= self.chunks@.subrange(
                    0,
                    i as int,
                ));
            }
            if self.chunks[i].state == ChunkState::Free {
                n = n + 1;
            }
            i = i + 1;
        }
        assert(self.chunks@.subrange(0, self.chunks@.len() as int) =~= self.chunks@);
        n
    }

    /// The octree nodes in `removed` lose their chunk, which is marked for
    /// removal; nodes without a chunk are skipped.
    pub fn remove_nodes(&mut self, removed: &Vec<u64>)
        requires
            old(self).wf(),
        ensures
            final(self).wf(),
            final(self).per_allocation() == old(self).per_allocation(),
            final(self).nodes_view() == old(self).nodes_view().remove_keys(removed@.to_set()),
            final(self).chunks_view() == after_removal(old(self).chunks_view(), old(self).nodes_view(), removed@.to_set()),
    {
        let ghost old_chunks = self.chunks@;
        let ghost old_map = index_entries(self.entities);
        let mut k: usize = 0;
        while k < removed.len()
            invariant
                self.wf(),
                k <= removed@.len(),
                self.chunks_per_allocation == old(self).chunks_per_allocation,
                old_chunks == old(self).chunks@,
                old_map == index_entries(old(self).entities),
                forall|n: u64| #[trigger] old_map.contains_key(n) ==> {
                    let j = old_map[n] as int;
                    &&& 0 <= j < old_chunks.len()
                    &&& old_chunks[j].node == Some(n)
                },
                index_entries(self.entities) == old_map.remove_keys(removed@.subrange(0, k as int).to_set()),
                self.chunks@.len() == old_chunks.len(),
                forall|i: int|
                    0 <= i < old_chunks.len() ==> #[trigger] self.chunks@[i] == if loses_node(
                        old_map,
                        removed@.subrange(0, k as int).to_set(),
                        old_chunks[i],
                        i,
                    ) {
                        Chunk { state: ChunkState::PendingRemoval, ..old_chunks[i] }
                    } else {
                        old_chunks[i]
                    },
            decreases removed@.len() - k,
        {
            let node = removed[k];
            let ghost pre = index_entries(self.entities);
            let ghost pre_chunks = self.chunks@;
            let ghost before = removed@.subrange(0, k as int).to_set();
            let ghost after = removed@.subrange(0, k + 1).to_set();
            proof {
                assert(removed@.subrange(0, k + 1) =~= removed@.subrange(0, k as int).push(node));
                removed@.subrange(0, k as int).lemma_push_to_set_commute(node);
                assert(after =~= before.insert(node));
            }
            match index_map_remove(&mut self.entities, node) {
                Some(i) => {
                    let c = self.chunks[i];
                    self.chunks.set(i, Chunk { state: ChunkState::PendingRemoval, ..c });
                    proof {
                        assert(pre.contains_key(node) && pre[node] == i);
                        assert forall|n: u64| #[trigger] index_entries(self.entities).contains_key(n) implies {
                            let j = index_entries(self.entities)[n] as int;
                            &&& 0 <= j < self.chunks@.len()
                            &&& self.chunks@[j].node == Some(n)
                            &&& self.chunks@[j].state != ChunkState::Free
                            &&& self.chunks@[j].state != ChunkState::PendingRemoval
                        } by {
                            assert(pre.contains_key(n));
                            if pre[n] == i {
                                assert(pre_chunks[i as int].node == Some(n));
                            }
                        }
                        assert(index_entries(self.entities) =~= old_map.remove_keys(after));
                        assert forall|j: int| 0 <= j < old_chunks.len() implies #[trigger] self.chunks@[j]
                            == if loses_node(old_map, after, old_chunks[j], j) {
                            Chunk { state: ChunkState::PendingRemoval, ..old_chunks[j] }
                        } else {
                            old_chunks[j]
                        } by {
                            if j == i as int {
                                assert(old_chunks[j].node == Some(node));
                                if loses_node(old_map, before, old_chunks[j], j) {
                                    assert(before.contains(node));
                                    assert(!pre.contains_key(node));
                                }
                            }
                        }
                    }
                },
                None => {
                    proof {
                        assert(index_entries(self.entities) =~= old_map.remove_keys(after));
                        assert forall|j: int| 0 <= j < old_chunks.len() implies #[trigger] self.chunks@[j]
                            == if loses_node(old_map, after, old_chunks[j], j) {
                            Chunk { state: ChunkState::PendingRemoval, ..old_chunks[j] }
                        } else {
                            old_chunks[j]
                        } by {
                            if loses_node(old_map, after, old_chunks[j], j) && !loses_node(old_map, before, old_chunks[j], j) {
                                assert(old_chunks[j].node == Some(node));
                                assert(old_map.contains_key(node));
                                assert(!before.contains(node));
                                assert(pre.contains_key(node));
                            }
                        }
                    }
                },
            }
            k = k + 1;
        }
        assert(removed@.subrange(0, removed@.len() as int) =~= removed@);
        assert(self.chunks@ =~= after_removal(old_chunks, old_map, removed@.to_set()));
    }

    /// Hands the free chunks, in order, to the `added` octree nodes: the k-th
    /// free chunk becomes dirty and records the k-th node. Returns the chunks
    /// handed out, in the order of `added`.
    pub fn assign_free_chunks(&mut self, added: &Vec<u64>) -> (r: Vec<usize>)
        requires
            old(self).wf(),
            free_indices(old(self).chunks_view()).len() >= added@.len(),
            added@.no_duplicates(),
            forall|k: int| 0 <= k < added@.len() ==> !old(self).nodes_view().contains_key(#[trigger] added@[k]),
        ensures
            final(self).wf(),
            final(self).per_allocation() == old(self).per_allocation(),
            r@.len() == added@.len(),
            forall|k: int| 0 <= k < added@.len() ==> #[trigger] r@[k] as int == free_indices(old(self).chunks_view())[k],
            final(self).chunks_view().len() == old(self).chunks_view().len(),
            forall|k: int|
                0 <= k < added@.len() ==> final(self).chunks_view()[#[trigger] r@[k] as int] == (Chunk {
                    state: ChunkState::Dirty,
                    node: Some(added@[k]),
                    ..old(self).chunks_view()[r@[k] as int]
                }),
            forall|j: int|
                0 <= j < old(self).chunks_view().len() && (forall|k: int| 0 <= k < added@.len() ==> #[trigger] r@[k] as int != j)
                    ==> #[trigger] final(self).chunks_view()[j] == old(self).chunks_view()[j],
            forall|k: int|
                0 <= k < added@.len() ==> final(self).nodes_view().contains_key(#[trigger] added@[k])
                    && final(self).nodes_view()[added@[k]] == r@[k],
            final(self).nodes_view().remove_keys(added@.to_set()) == old(self).nodes_view(),
    {
        let ghost old_chunks = self.chunks@;
        let ghost old_map = index_entries(self.entities);
        let ghost fi = free_indices(old_chunks);
        proof {
            lemma_free_indices_bounds(old_chunks);
        }
        let mut out: Vec<usize> = Vec::new();
        let mut i: usize = 0;
        let total = self.chunks.len();
        while out.len() < added.len()
            invariant
                total == old_chunks.len(),
                self.wf(),
                self.chunks_per_allocation == old(self).chunks_per_allocation,
                old_chunks == old(self).chunks@,
                old_map == index_entries(old(self).entities),
                fi == free_indices(old_chunks),
                forall|k: int| 0 <= k < fi.len() ==> 0 <= #[trigger] fi[k] < old_chunks.len()
                    && old_chunks[fi[k]].state == ChunkState::Free,
                forall|k1: int, k2: int| 0 <= k1 < k2 < fi.len() ==> #[trigger] fi[k1] < #[trigger] fi[k2],
                self.chunks@.len() == old_chunks.len(),
                i <= old_chunks.len(),
                out@.len() <= added@.len(),
                fi.len() >= added@.len(),
                added@.no_duplicates(),
                forall|k: int| 0 <= k < added@.len() ==> !old_map.contains_key(#[trigger] added@[k]),
                free_indices(old_chunks.subrange(0, i as int)).len() == out@.len(),
                forall|k: int| 0 <= k < out@.len() ==> #[trigger] out@[k] as int == fi[k],
                forall|k: int| 0 <= k < out@.len() ==> #[trigger] out@[k] < i,
                out@.len() < fi.len() ==> fi[out@.len() as int] >= i,
                forall|k: int|
                    0 <= k < out@.len() ==> self.chunks@[#[trigger] out@[k] as int] == (Chunk {
                        state: ChunkState::Dirty,
                        node: Some(added@[k]),
                        ..old_chunks[out@[k] as int]
                    }),
                forall|j: int|
                    0 <= j < old_chunks.len() && (forall|k: int| 0 <= k < out@.len() ==> #[trigger] out@[k] as int != j)
                        ==> #[trigger] self.chunks@[j] == old_chunks[j],
                forall|k: int|
                    0 <= k < out@.len() ==> index_entries(self.entities).contains_key(#[trigger] added@[k])
                        && index_entries(self.entities)[added@[k]] == out@[k],
                forall|n: u64|
                    #[trigger] old_map.contains_key(n) ==> index_entries(self.entities).contains_key(n)
                        && index_entries(self.entities)[n] == old_map[n],
                forall|n: u64|
                    #[trigger] index_entries(self.entities).contains_key(n) ==> old_map.contains_key(n)
                        || added@.subrange(0, out@.len() as int).contains(n),
            decreases old_chunks.len() - i,
        {
            proof {
                if i == old_chunks.len() {
                    assert(old_chunks.subrange(0, i as int) =~= old_chunks);
                    assert(free_indices(old_chunks).len() == out@.len());
                    assert(false);
                }
                assert(old_chunks.subrange(0, i + 1).drop_last() =~= old_chunks.subrange(0, i as int));
                assert(free_indices(old_chunks.subrange(0, i + 1)) == free_indices(old_chunks.subrange(0, i as int)) + if old_chunks[i as int].state == ChunkState::Free {
                    seq![i as int]
                } else {
                    Seq::<int>::empty()
                });
            }
            let c = self.chunks[i];
            proof {
                assert(c == old_chunks[i as int]);
            }
            if c.state == ChunkState::Free {
                let k = out.len();
                let node = added[k];
                let ghost pre_out = out@;
                let ghost pre_map = index_entries(self.entities);
                let ghost pre_chunks = self.chunks@;
                proof {
                    lemma_free_indices_prefix(old_chunks, i + 1);
                    assert(free_indices(old_chunks.subrange(0, i + 1))[k as int] == i as int);
                    assert(fi[k as int] == i as int);
                }
                self.chunks.set(i, Chunk { state: ChunkState::Dirty, node: Some(node), ..c });
                index_map_insert(&mut self.entities, node, i);
                out.push(i);
                proof {
                    assert(!pre_map.contains_key(node)) by {
                        assert(!added@.subrange(0, k as int).contains(node)) by {
                            if added@.subrange(0, k as int).contains(node) {
                                let t = added@.subrange(0, k as int).index_of(node);
                                assert(added@[t] == added@[k as int]);
                            }
                        }
                    }
                    assert forall|n: u64| #[trigger] index_entries(self.entities).contains_key(n) implies {
                        let j = index_entries(self.entities)[n] as int;
                        &&& 0 <= j < self.chunks@.len()
                        &&& self.chunks@[j].node == Some(n)
                        &&& self.chunks@[j].state != ChunkState::Free
                        &&& self.chunks@[j].state != ChunkState::PendingRemoval
                    } by {
                        if n != node {
                            assert(pre_map.contains_key(n));
                            let j = pre_map[n] as int;
                            assert(pre_chunks[j].state != ChunkState::Free);
                            assert(j != i as int);
                        }
                    }
                    assert forall|n: u64| #[trigger] old_map.contains_key(n) implies index_entries(self.entities).contains_key(n)
                        && index_entries(self.entities)[n] == old_map[n] by {
                        assert(pre_map.contains_key(n));
                        assert(n != node);
                    }
                    assert forall|n: u64|
                        #[trigger] index_entries(self.entities).contains_key(n) implies old_map.contains_key(n)
                            || added@.subrange(0, out@.len() as int).contains(n) by {
                        assert(out@.len() == k + 1);
                        if n == node {
                            assert(added@.subrange(0, k + 1)[k as int] == node);
                        } else {
                            assert(pre_map.contains_key(n));
                            if added@.subrange(0, k as int).contains(n) {
                                let t = added@.subrange(0, k as int).index_of(n);
                                assert(added@.subrange(0, k + 1)[t] == n);
                            }
                        }
                    }
                    assert forall|t: int|
                        0 <= t < out@.len() implies index_entries(self.entities).contains_key(#[trigger] added@[t])
                            && index_entries(self.entities)[added@[t]] == out@[t] by {
                        if t < k {
                            assert(added@[t] != node);
                        }
                    }
                    assert forall|t: int|
                        0 <= t < out@.len() implies self.chunks@[#[trigger] out@[t] as int] == (Chunk {
                            state: ChunkState::Dirty,
                            node: Some(added@[t]),
                            ..old_chunks[out@[t] as int]
                        }) by {
                        if t < k {
                            assert(pre_out[t] < i);
                        }
                    }
                    assert forall|j: int|
                        0 <= j < old_chunks.len() && (forall|t: int| 0 <= t < out@.len() ==> #[trigger] out@[t] as int != j)
                            implies #[trigger] self.chunks@[j] == old_chunks[j] by {
                        assert(out@[k as int] as int != j);
                        assert forall|t: int| 0 <= t < pre_out.len() implies #[trigger] pre_out[t] as int != j by {
                            assert(out@[t] == pre_out[t]);
                        }
                    }
                    if k + 1 < fi.len() {
                        assert(fi[k as int] < fi[k + 1]);
                    }
                }
            } else {
                proof {
                    if out@.len() < fi.len() {
                        let m = out@.len() as int;
                        if fi[m] == i as int {
                            assert(old_chunks[fi[m]].state == ChunkState::Free);
                        }
                    }
                }
            }
            i = i + 1;
        }
        proof {
            assert(added@.subrange(0, out@.len() as int) =~= added@);
            assert forall|n: u64| #[trigger] old_map.contains_key(n) implies !added@.to_set().contains(n) by {
                if added@.contains(n) {
                    let t = added@.index_of(n);
                    assert(!old_map.contains_key(added@[t]));
                }
            }
            assert(index_entries(self.entities).remove_keys(added@.to_set()) =~= old_map);
        }
        out
    }

    /// Starts the generation of every dirty chunk (see
    /// `lifecycle::begin_generation`).
    pub fn begin_generation(&mut self) -> (r: (Vec<(usize, u32, u32)>, Vec<(usize, usize)>))
        requires
            old(self).wf(),
        ensures
            final(self).wf(),
            final(self).nodes_view() == old(self).nodes_view(),
            final(self).per_allocation() == old(self).per_allocation(),
            final(self).chunks_view() == Seq::new(old(self).chunks_view().len(), |i: int| started(old(self).chunks_view()[i])),
            r.0@ == released_ranges(old(self).chunks_view()),
            r.1@ == dirty_slots(old(self).chunks_view()),
    {
        let r = begin_generation(&mut self.chunks);
        proof {
            assert(self.chunks@ =~= Seq::new(old(self).chunks@.len(), |i: int| started(old(self).chunks@[i])));
            ChunkTable::lemma_wf_same_nodes(*old(self), *self);
        }
        r
    }

    /// Picks the next chunk to generate (see `lifecycle::generate_next`).
    pub fn generate_next(&mut self, keys: &Vec<u32>) -> (r: Option<usize>)
        requires
            old(self).wf(),
            keys@.len() == old(self).chunks_view().len(),
        ensures
            final(self).wf(),
            final(self).nodes_view() == old(self).nodes_view(),
            final(self).per_allocation() == old(self).per_allocation(),
            r is None <==> (!any_pending(old(self).chunks_view()) || count_state(
                old(self).chunks_view(),
                ChunkState::PendingReadbackStart,
            ) >= 1),
            r is None ==> final(self).chunks_view() == old(self).chunks_view(),
            r matches Some(i) ==> next_to_generate(old(self).chunks_view(), keys@, i as int)
                && final(self).chunks_view() == old(self).chunks_view().update(
                i as int,
                Chunk { state: ChunkState::PendingReadbackStart, ..old(self).chunks_view()[i as int] },
            ),
            r is Some ==> count_state(final(self).chunks_view(), ChunkState::PendingReadbackStart)
                == 1,
            count_state(old(self).chunks_view(), ChunkState::PendingReadbackStart) <= 1 ==> count_state(
                final(self).chunks_view(),
                ChunkState::PendingReadbackStart,
            ) <= 1,
    {
        let r = generate_next(&mut self.chunks, keys);
        proof {
            ChunkTable::lemma_wf_same_nodes(*old(self), *self);
        }
        r
    }

    /// Starts the readback of the first chunk that awaits it (see
    /// `lifecycle::begin_readback`).
    pub fn begin_readback(&mut self, collisions: bool) -> (r: Option<usize>)
        requires
            old(self).wf(),
        ensures
            final(self).wf(),
            final(self).nodes_view() == old(self).nodes_view(),
            final(self).per_allocation() == old(self).per_allocation(),
            r is None ==> final(self).chunks_view() == old(self).chunks_view() && forall|j: int|
                0 <= j < old(self).chunks_view().len() ==> old(self).chunks_view()[j].state
                    != ChunkState::PendingReadbackStart,
            r matches Some(i) ==> first_awaiting_readback(old(self).chunks_view(), i as int)
                && final(self).chunks_view() == old(self).chunks_view().update(
                i as int,
                Chunk {
                    state: ChunkState::PendingReadbackData,
                    mesh_readback_state: if collisions && old(self).chunks_view()[i as int].collider {
                        Some(MeshReadbackState::PendingReadbackData)
                    } else {
                        old(self).chunks_view()[i as int].mesh_readback_state
                    },
                    ..old(self).chunks_view()[i as int]
                },
            ),
    {
        let r = begin_readback(&mut self.chunks, collisions);
        proof {
            ChunkTable::lemma_wf_same_nodes(*old(self), *self);
        }
        r
    }

    /// Takes in the mesh counters read back for chunk `i` (see
    /// `Chunk::finish_readback`).
    pub fn finish_readback(
        &mut self,
        i: usize,
        offset: (u32, u32),
        count: (u32, u32),
        vertices_per_sub_allocation: u32,
        triangles_per_sub_allocation: u32,
    ) -> (r: Option<(usize, usize)>)
        requires
            old(self).wf(),
            i < old(self).chunks_view().len(),
            vertices_per_sub_allocation >= 1,
            triangles_per_sub_allocation >= 1,
            offset.0 <= u32::MAX - vertices_per_sub_allocation,
            offset.1 <= u32::MAX - triangles_per_sub_allocation,
            sub_allocations_used(count, vertices_per_sub_allocation, triangles_per_sub_allocation)
                + offset.0 / vertices_per_sub_allocation <= u32::MAX,
        ensures
            final(self).wf(),
            final(self).nodes_view() == old(self).nodes_view(),
            final(self).per_allocation() == old(self).per_allocation(),
            ({
                let used = sub_allocations_used(count, vertices_per_sub_allocation, triangles_per_sub_allocation);
                let start = offset.0 / vertices_per_sub_allocation;
                let c = old(self).chunks_view()[i as int];
                &&& final(self).chunks_view() == old(self).chunks_view().update(
                    i as int,
                    Chunk {
                        state: ChunkState::Generated { empty: used == 0 },
                        ranges: if used > 0 {
                            Some((start as u32, (start + used) as u32))
                        } else {
                            None
                        },
                        ..c
                    },
                )
                &&& r == (if used > 0 {
                    Some((c.allocation, c.local_index))
                } else {
                    None
                })
            }),
    {
        let mut c = self.chunks[i];
        let r = c.finish_readback(offset, count, vertices_per_sub_allocation, triangles_per_sub_allocation);
        self.chunks.set(i, c);
        proof {
            ChunkTable::lemma_wf_same_nodes(*old(self), *self);
        }
        r
    }

    /// Records that the mesh of chunk `i`, which stands for a node, reached
    /// the CPU.
    pub fn complete_mesh_readback(&mut self, i: usize)
        requires
            old(self).wf(),
            i < old(self).chunks_view().len(),
            old(self).chunks_view()[i as int].node is Some,
        ensures
            final(self).wf(),
            final(self).nodes_view() == old(self).nodes_view(),
            final(self).per_allocation() == old(self).per_allocation(),
            final(self).chunks_view() == old(self).chunks_view().update(
                i as int,
                Chunk { mesh_readback_state: Some(MeshReadbackState::Complete), ..old(self).chunks_view()[i as int] },
            ),
    {
        let mut c = self.chunks[i];
        c.complete_mesh_readback();
        self.chunks.set(i, c);
        proof {
            ChunkTable::lemma_wf_same_nodes(*old(self), *self);
        }
    }

    /// Forces the regeneration of chunk `i` by making it dirty, whatever its
    /// state.
    pub fn regenerate(&mut self, i: usize)
        requires
            old(self).wf(),
            i < old(self).chunks_view().len(),
        ensures
            final(self).wf(),
            final(self).nodes_view() == old(self).nodes_view(),
            final(self).per_allocation() == old(self).per_allocation(),
            final(self).chunks_view() == old(self).chunks_view().update(
                i as int,
                Chunk { state: ChunkState::Dirty, ..old(self).chunks_view()[i as int] },
            ),
    {
        let mut c = self.chunks[i];
        c.regenerate();
        self.chunks.set(i, c);
        proof {
            ChunkTable::lemma_wf_same_nodes(*old(self), *self);
        }
    }

    /// Forces the regeneration of every generated chunk (after the voxel
    /// shader was reloaded): each becomes dirty.
    pub fn regenerate_generated(&mut self)
        requires
            old(self).wf(),
        ensures
            final(self).wf(),
            final(self).nodes_view() == old(self).nodes_view(),
            final(self).per_allocation() == old(self).per_allocation(),
            final(self).chunks_view().len() == old(self).chunks_view().len(),
            forall|j: int|
                0 <= j < old(self).chunks_view().len() ==> #[trigger] final(self).chunks_view()[j] == (Chunk {
                    state: if old(self).chunks_view()[j].state is Generated {
                        ChunkState::Dirty
                    } else {
                        old(self).chunks_view()[j].state
                    },
                    ..old(self).chunks_view()[j]
                }),
    {
        let len = self.chunks.len();
        let mut i: usize = 0;
        while i < len
            invariant
                len == self.chunks@.len(),
                len == old(self).chunks@.len(),
                i <= len,
                self.wf(),
                index_entries(self.entities) == index_entries(old(self).entities),
                self.chunks_per_allocation == old(self).chunks_per_allocation,
                forall|j: int|
                    0 <= j < len ==> #[trigger] self.chunks@[j] == if j < i {
                        Chunk {
                            state: if old(self).chunks@[j].state is Generated {
                                ChunkState::Dirty
                            } else {
                                old(self).chunks@[j].state
                            },
                            ..old(self).chunks@[j]
                        }
                    } else {
                        old(self).chunks@[j]
                    },
            decreases len - i,
        {
            if let ChunkState::Generated { .. } = self.chunks[i].state {
                self.regenerate(i);
            }
            i = i + 1;
        }
    }

    /// Whether the octree must be rebuilt: the viewer is new or moved, and
    /// no chunk is still on its way to a mesh or being removed.
    pub fn needs_rebuild(&self, viewer_added: bool, viewer_moved: bool) -> (r: bool)
        ensures
            r == ((viewer_added || viewer_moved) && unfinished_count(self.chunks_view()) == 0),
    {
        (viewer_added || viewer_moved) && self.unfinished_count() == 0
    }

    /// Adds `count` free chunks to each of the `allocation_count`
    /// allocations, in the order that `order` gives (an arrangement of the
    /// new chunks, see `new_chunk`), and counts `count` more chunks per
    /// allocation. Returns false, and changes nothing, where `order` is no
    /// arrangement of `count * allocation_count` chunks or a count would not
    /// fit in a `usize`.
    pub fn add_free_chunks(&mut self, allocation_count: usize, count: usize, order: &Vec<usize>) -> (r: bool)
        requires
            old(self).wf(),
            allocation_count >= 1,
        ensures
            final(self).wf(),
            r == (is_arrangement(order@, (count * allocation_count) as nat)
                && count * allocation_count <= usize::MAX
                && old(self).chunks_view().len() + count * allocation_count <= usize::MAX
                && old(self).per_allocation() + count * allocation_count <= usize::MAX),
            r ==> final(self).chunks_view() == old(self).chunks_view() + new_chunks(
                old(self).per_allocation(),
                allocation_count as nat,
                count as nat,
                order@,
            ),
            r ==> final(self).per_allocation() == old(self).per_allocation() + count,
            !r ==> final(self).chunks_view() == old(self).chunks_view(),
            !r ==> final(self).per_allocation() == old(self).per_allocation(),
            final(self).nodes_view() == old(self).nodes_view(),
    {
        let total = match count.checked_mul(allocation_count) {
            Some(t) => t,
            None => {
                return false;
            },
        };
        if self.chunks.len() > usize::MAX - total || self.chunks_per_allocation > usize::MAX - total {
            return false;
        }
        if order.len() != total {
            return false;
        }
        if !is_arrangement_of(order, total) {
            return false;
        }
        let ghost old_chunks = self.chunks@;
        let per_allocation = self.chunks_per_allocation;
        let first_local = per_allocation / allocation_count;
        proof {
            assert(is_arrangement(order@, total as nat));
            assert(count <= total) by (nonlinear_arith)
                requires total == count * allocation_count, allocation_count >= 1;
        }
        let mut k: usize = 0;
        while k < total
            invariant
                k <= total,
                order@.len() == total,
                total == count * allocation_count,
                count <= total,
                per_allocation == old(self).chunks_per_allocation,
                first_local == per_allocation / allocation_count,
                allocation_count >= 1,
                old_chunks == old(self).chunks@,
                old_chunks.len() + total <= usize::MAX,
                per_allocation + total <= usize::MAX,
                is_arrangement(order@, total as nat),
                index_entries(self.entities) == index_entries(old(self).entities),
                self.chunks_per_allocation == per_allocation,
                self.wf(),
                self.chunks@ == old_chunks + new_chunks(
                    per_allocation as nat,
                    allocation_count as nat,
                    count as nat,
                    order@.subrange(0, k as int),
                ),
            decreases total - k,
        {
            let m = order[k];
            proof {
                assert(m < total);
                assert(count > 0) by {
                    if count == 0 {
                        assert(total == 0) by (nonlinear_arith)
                            requires total == count * allocation_count, count == 0;
                    }
                }
                assert(m / count < allocation_count) by (nonlinear_arith)
                    requires m < count * allocation_count, count > 0;
                assert(m % count < count) by (nonlinear_arith)
                    requires count > 0;
                assert(first_local <= per_allocation) by (nonlinear_arith)
                    requires first_local == per_allocation / allocation_count, allocation_count >= 1;
            }
            let c = Chunk {
                allocation: m / count,
                local_index: first_local + m % count,
                global_index: per_allocation + m,
                ranges: None,
                state: ChunkState::Free,
                node: None,
                collider: false,
                mesh_readback_state: None,
            };
            self.chunks.push(c);
            proof {
                assert(order@.subrange(0, k + 1) =~= order@.subrange(0, k as int).push(m));
                assert(self.chunks@ =~= old_chunks + new_chunks(
                    per_allocation as nat,
                    allocation_count as nat,
                    count as nat,
                    order@.subrange(0, k + 1),
                ));
            }
            k = k + 1;
        }
        self.chunks_per_allocation = per_allocation + count;
        proof {
            assert(order@.subrange(0, total as int) =~= order@);
            assert(count <= total) by (nonlinear_arith)
                requires total == count * allocation_count, allocation_count >= 1;
        }
        true
    }

    /// Marks as free the chunks being removed whose node no longer waits
    /// for children (is not in `waiting`). Returns the slots
    /// `(allocation, local_index)` of those chunks, in chunk order, to hide.
    pub fn release_removed(&mut self, waiting: &ChildCounter) -> (r: Vec<(usize, usize)>)
        requires
            old(self).wf(),
        ensures
            final(self).wf(),
            final(self).nodes_view() == old(self).nodes_view(),
            final(self).per_allocation() == old(self).per_allocation(),
            final(self).chunks_view() == released(old(self).chunks_view(), waiting.view().dom()),
            r@ == released_slots(old(self).chunks_view(), waiting.view().dom()),
    {
        let ghost old_chunks = self.chunks@;
        let mut out: Vec<(usize, usize)> = Vec::new();
        let mut i: usize = 0;
        let len = self.chunks.len();
        while i < len
            invariant
                len == old_chunks.len(),
                old_chunks == old(self).chunks@,
                i <= len,
                index_entries(self.entities) == index_entries(old(self).entities),
                self.chunks_per_allocation == old(self).chunks_per_allocation,
                self.wf(),
                self.chunks@ == released(old_chunks.subrange(0, i as int), waiting.view().dom()) + old_chunks.subrange(i as int, len as int),
                out@ == released_slots(old_chunks.subrange(0, i as int), waiting.view().dom()),
            decreases len - i,
        {
            proof {
                assert(old_chunks.subrange(0, i + 1).drop_last() =~= old_chunks.subrange(0, i as int));
                assert(self.chunks@[i as int] == old_chunks[i as int]);
            }
            let c = self.chunks[i];
            let free_it = match c.node {
                Some(n) => c.state == ChunkState::PendingRemoval && !waiting.waits(n),
                None => false,
            };
            if free_it {
                self.chunks.set(i, Chunk { state: ChunkState::Free, ..c });
                out.push((c.allocation, c.local_index));
            }
            proof {
                assert(self.chunks@ =~= released(old_chunks.subrange(0, i + 1), waiting.view().dom()) + old_chunks.subrange(i + 1, len as int));
            }
            i = i + 1;
        }
        proof {
            assert(old_chunks.subrange(0, len as int) =~= old_chunks);
            assert(self.chunks@ =~= released(old_chunks, waiting.view().dom()));
        }
        out
    }

    /// Takes in one rebuild of the octree: the leaf nodes `added` and the
    /// nodes `removed`. Where nothing was added, nothing changes. Else the
    /// chunks of the removed nodes are marked for removal, the table grows
    /// by `spec_extra_chunk_count` chunks per allocation where there are
    /// fewer free chunks than added nodes (in the order `order`, an
    /// arrangement of the new chunks), and the free chunks in order are
    /// handed to the added nodes. Returns the chunks handed out, in the
    /// order of `added`, or `None`, changing nothing, where a growth is
    /// needed and `order` is no arrangement of it or it would overflow.
    pub fn apply_octree_delta(
        &mut self,
        allocation_count: usize,
        added: &Vec<u64>,
        removed: &Vec<u64>,
        order: &Vec<usize>,
    ) -> (r: Option<Vec<usize>>)
        requires
            old(self).wf(),
            allocation_count >= 1,
            added@.no_duplicates(),
            forall|k: int|
                0 <= k < added@.len() ==> !old(self).nodes_view().remove_keys(removed@.to_set()).contains_key(
                    #[trigger] added@[k],
                ),
            added@.len() <= usize::MAX / 2,
        ensures
            final(self).wf(),
            ({
                let free = free_indices(old(self).chunks_view()).len();
                let extra = spec_extra_chunk_count(added@.len(), free);
                let grows = added@.len() > 0 && extra > 0;
                let staged = after_removal(old(self).chunks_view(), old(self).nodes_view(), removed@.to_set())
                    + if grows {
                    new_chunks(old(self).per_allocation(), allocation_count as nat, extra, order@)
                } else {
                    Seq::empty()
                };
                let ok = !grows || (is_arrangement(order@, (extra * allocation_count) as nat)
                    && extra * allocation_count <= usize::MAX
                    && old(self).chunks_view().len() + extra * allocation_count <= usize::MAX
                    && old(self).per_allocation() + extra * allocation_count <= usize::MAX);
                &&& (added@.len() == 0 || !ok) ==> r is None && final(self).chunks_view() == old(self).chunks_view()
                    && final(self).nodes_view() == old(self).nodes_view()
                    && final(self).per_allocation() == old(self).per_allocation()
                &&& (added@.len() > 0 && ok) ==> {
                    &&& r matches Some(out)
                    &&& final(self).per_allocation() == old(self).per_allocation() + extra
                    &&& out@.len() == added@.len()
                    &&& final(self).chunks_view().len() == staged.len()
                    &&& forall|k: int| 0 <= k < added@.len() ==> #[trigger] out@[k] as int == free_indices(staged)[k]
                    &&& forall|k1: int, k2: int| 0 <= k1 < k2 < added@.len() ==> #[trigger] out@[k1] < #[trigger] out@[k2]
                    &&& forall|k: int|
                        0 <= k < added@.len() ==> final(self).chunks_view()[#[trigger] out@[k] as int] == (Chunk {
                            state: ChunkState::Dirty,
                            node: Some(added@[k]),
                            ..staged[out@[k] as int]
                        })
                    &&& forall|j: int|
                        0 <= j < staged.len() && (forall|k: int| 0 <= k < added@.len() ==> #[trigger] out@[k] as int != j)
                            ==> #[trigger] final(self).chunks_view()[j] == staged[j]
                    &&& forall|k: int|
                        0 <= k < added@.len() ==> final(self).nodes_view().contains_key(#[trigger] added@[k])
                            && final(self).nodes_view()[added@[k]] == out@[k]
                    &&& final(self).nodes_view().remove_keys(added@.to_set()) == old(self).nodes_view().remove_keys(removed@.to_set())
                }
            }),
    {
        if added.len() == 0 {
            return None;
        }
        let free = self.free_count();
        let grows = added.len() > free;
        let extra = extra_chunk_count(added.len(), free);
        let ghost old_chunks = self.chunks@;
        if grows {
            // Check the growth before anything changes.
            let total = match extra.checked_mul(allocation_count) {
                Some(t) => t,
                None => {
                    return None;
                },
            };
            if self.chunks.len() > usize::MAX - total || self.chunks_per_allocation > usize::MAX - total
                || order.len() != total {
                return None;
            }
            if !is_arrangement_of(order, total) {
                return None;
            }
        }
        self.remove_nodes(removed);
        let ghost removed_chunks = self.chunks@;
        let ghost removed_nodes = self.nodes_view();
        proof {
            lemma_removal_keeps_free(old_chunks, old(self).nodes_view(), removed@.to_set());
        }
        if grows {
            let grown = self.add_free_chunks(allocation_count, extra, order);
            proof {
                assert(grown);
                lemma_free_tail(removed_chunks, new_chunks(old(self).per_allocation(), allocation_count as nat, extra as nat, order@));
                assert(extra <= extra * allocation_count) by (nonlinear_arith)
                    requires allocation_count >= 1;
            }
        } else {
            proof {
                assert(self.chunks@ =~= removed_chunks + Seq::<Chunk>::empty());
            }
        }
        let ghost staged = self.chunks@;
        let out = self.assign_free_chunks(added);
        proof {
            lemma_free_indices_bounds(staged);
            let removed_set = removed@.to_set();
            let m0 = old(self).nodes_view();
            assert(removed_nodes == m0.remove_keys(removed_set));
        }
        Some(out)
    }
}

/// The free indices of a prefix are a prefix of the free indices.
proof fn lemma_free_indices_prefix(s: Seq<Chunk>, i: int)
    requires
        0 <= i <= s.len(),
    ensures
        free_indices(s.subrange(0, i)).len() <= free_indices(s).len(),
        forall|k: int|
            0 <= k < free_indices(s.subrange(0, i)).len() ==> #[trigger] free_indices(s.subrange(0, i))[k]
                == free_indices(s)[k],
    decreases s.len() - i,
{
    if i < s.len() {
        lemma_free_indices_prefix(s, i + 1);
        assert(s.subrange(0, i + 1).drop_last() =~= s.subrange(0, i));
        assert(free_indices(s.subrange(0, i + 1)) == free_indices(s.subrange(0, i)) + if s[i].state == ChunkState::Free {
            seq![i]
        } else {
            Seq::<int>::empty()
        });
        assert forall|k: int|
            0 <= k < free_indices(s.subrange(0, i)).len() implies #[trigger] free_indices(s.subrange(0, i))[k]
                == free_indices(s)[k] by {
            assert(free_indices(s.subrange(0, i))[k] == free_indices(s.subrange(0, i + 1))[k]);
        }
    } else {
        assert(s.subrange(0, i) =~= s);
    }
}


/// A chunk as `release_removed` leaves it.
pub open spec fn released_chunk(c: Chunk, waiting: Set<u64>) -> Chunk {
    match c.node {
        Some(n) => if c.state == ChunkState::PendingRemoval && !waiting.contains(n) {
            Chunk { state: ChunkState::Free, ..c }
        } else {
            c
        },
        None => c,
    }
}

/// The chunks as `release_removed` leaves them.
pub open spec fn released(s: Seq<Chunk>, waiting: Set<u64>) -> Seq<Chunk> {
    Seq::new(s.len(), |i: int| released_chunk(s[i], waiting))
}

/// The slots of the chunks that `release_removed` frees, in chunk order.
pub open spec fn released_slots(s: Seq<Chunk>, waiting: Set<u64>) -> Seq<(usize, usize)>
    decreases s.len(),
{
    if s.len() == 0 {
        Seq::empty()
    } else {
        let c = s.last();
        released_slots(s.drop_last(), waiting) + if released_chunk(c, waiting).state != c.state {
            seq![(c.allocation, c.local_index)]
        } else {
            Seq::empty()
        }
    }
}

/// How many chunks per allocation to add when `added` nodes need a chunk
/// and `free` chunks are free.
pub fn extra_chunk_count(added: usize, free: usize) -> (r: usize)
    requires
        added <= usize::MAX / 2,
    ensures
        r == spec_extra_chunk_count(added as nat, free as nat),
{
    if added > free {
        let twice = (added - free) * 2;
        if twice >= 128 {
            twice
        } else {
            128
        }
    } else {
        0
    }
}

/// Whether `order` is an arrangement of `0..n`.
fn is_arrangement_of(order: &Vec<usize>, n: usize) -> (r: bool)
    ensures
        r == is_arrangement(order@, n as nat),
{
    if order.len() != n {
        return false;
    }
    let mut seen: Vec<bool> = Vec::new();
    let mut j: usize = 0;
    while j < n
        invariant
            j <= n,
            seen@.len() == j,
            forall|t: int| 0 <= t < j ==> !#[trigger] seen@[t],
        decreases n - j,
    {
        seen.push(false);
        j = j + 1;
    }
    let mut k: usize = 0;
    while k < n
        invariant
            k <= n,
            order@.len() == n,
            seen@.len() == n,
            forall|t: int| 0 <= t < k ==> #[trigger] order@[t] < n,
            forall|t1: int, t2: int| 0 <= t1 < t2 < k ==> #[trigger] order@[t1] != #[trigger] order@[t2],
            forall|m: int| 0 <= m < n ==> (#[trigger] seen@[m] <==> exists|t: int| 0 <= t < k && order@[t] == m),
        decreases n - k,
    {
        let m = order[k];
        if m >= n {
            return false;
        }
        if seen[m] {
            proof {
                let t = choose|t: int| 0 <= t < k && order@[t] == m;
                assert(order@[t] == order@[k as int]);
            }
            return false;
        }
        seen.set(m, true);
        proof {
            assert forall|mm: int| 0 <= mm < n implies (#[trigger] seen@[mm] <==> exists|t: int|
                0 <= t < k + 1 && order@[t] == mm) by {
                if mm == m as int {
                    assert(order@[k as int] == mm);
                } else if seen@[mm] {
                    let t = choose|t: int| 0 <= t < k && order@[t] == mm;
                    assert(0 <= t < k + 1 && order@[t] == mm);
                }
            }
            assert forall|t1: int, t2: int| 0 <= t1 < t2 < k + 1 implies #[trigger] order@[t1] != #[trigger] order@[t2] by {
                if t2 == k as int && order@[t1] == m {
                    assert(0 <= t1 < k && order@[t1] == m as int);
                }
            }
        }
        k = k + 1;
    }
    true
}

/// Whether two sequences of chunks agree on which chunks are free.
pub open spec fn same_free(a: Seq<Chunk>, b: Seq<Chunk>) -> bool {
    a.len() == b.len() && forall|i: int| 0 <= i < a.len() ==> (#[trigger] a[i].state == ChunkState::Free) == (b[i].state
        == ChunkState::Free)
}

/// Sequences that agree on which chunks are free have the same free indices.
proof fn lemma_same_free(a: Seq<Chunk>, b: Seq<Chunk>)
    requires
        same_free(a, b),
    ensures
        free_indices(a) == free_indices(b),
    decreases a.len(),
{
    if a.len() > 0 {
        assert(same_free(a.drop_last(), b.drop_last())) by {
            assert forall|i: int| 0 <= i < a.drop_last().len() implies (#[trigger] a.drop_last()[i].state
                == ChunkState::Free) == (b.drop_last()[i].state == ChunkState::Free) by {
                assert(a.drop_last()[i] == a[i]);
                assert(b.drop_last()[i] == b[i]);
            }
        }
        lemma_same_free(a.drop_last(), b.drop_last());
        assert(a.last().state == ChunkState::Free <==> b.last().state == ChunkState::Free) by {
            assert(a.last() == a[a.len() - 1]);
        }
    }
}

/// Marking the chunks of removed nodes for removal frees no chunk and takes
/// none, in a well formed table.
proof fn lemma_removal_keeps_free(s: Seq<Chunk>, nodes: Map<u64, usize>, removed: Set<u64>)
    requires
        forall|n: u64|
            #[trigger] nodes.contains_key(n) ==> {
                let i = nodes[n] as int;
                &&& 0 <= i < s.len()
                &&& s[i].node == Some(n)
                &&& s[i].state != ChunkState::Free
            },
    ensures
        free_indices(after_removal(s, nodes, removed)) == free_indices(s),
{
    let t = after_removal(s, nodes, removed);
    assert forall|i: int| 0 <= i < t.len() implies (#[trigger] t[i].state == ChunkState::Free) == (s[i].state
        == ChunkState::Free) by {
        if loses_node(nodes, removed, s[i], i) {
            let n = s[i].node.unwrap();
            assert(nodes.contains_key(n));
        }
    }
    lemma_same_free(t, s);
}

/// Appending free chunks adds as many free indices.
proof fn lemma_free_tail(s: Seq<Chunk>, t: Seq<Chunk>)
    requires
        forall|i: int| 0 <= i < t.len() ==> (#[trigger] t[i]).state == ChunkState::Free,
    ensures
        free_indices(s + t).len() == free_indices(s).len() + t.len(),
    decreases t.len(),
{
    if t.len() == 0 {
        assert(s + t =~= s);
    } else {
        lemma_free_tail(s, t.drop_last());
        assert((s + t).drop_last() =~= s + t.drop_last());
        assert((s + t).last() == t.last());
    }
}

/// `SliceRandom::shuffle` with `rand::thread_rng()`: the same values, in an
/// order drawn at random.
#[verifier::external_body]
fn shuffle(v: &mut Vec<usize>)
    ensures
        final(v)@.to_multiset() == old(v)@.to_multiset(),
{
    v.shuffle(&mut rand::thread_rng());
}

/// The numbers `0..n` in a random order: an arrangement of them, whichever
/// order was drawn.
pub fn random_order(n: usize) -> (r: Vec<usize>)
    ensures
        is_arrangement(r@, n as nat),
{
    let mut v: Vec<usize> = Vec::new();
    let mut i: usize = 0;
    while i < n
        invariant
            i <= n,
            v@ == Seq::new(i as nat, |k: int| k as usize),
        decreases n - i,
    {
        v.push(i);
        proof {
            assert(v@ =~= Seq::new((i + 1) as nat, |k: int| k as usize));
        }
        i = i + 1;
    }
    let ghost ident = v@;
    proof {
        assert(ident.no_duplicates());
        ident.lemma_multiset_has_no_duplicates();
    }
    shuffle(&mut v);
    proof {
        let m = ident.to_multiset();
        ident.to_multiset_ensures();
        v@.to_multiset_ensures();
        assert forall|x: usize| v@.to_multiset().contains(x) implies v@.to_multiset().count(x) == 1 by {
            assert(m.contains(x));
        }
        v@.lemma_multiset_has_no_duplicates_conv();
        assert forall|k: int| 0 <= k < v@.len() implies #[trigger] v@[k] < n by {
            assert(v@.contains(v@[k]));
            assert(v@.to_multiset().count(v@[k]) > 0);
            assert(ident.contains(v@[k]));
        }
    }
    v
}

/// The table `after` is what a rebuild makes of `before` when the new
/// chunks come in the order `order` and the added leaves get the chunks
/// `out`: the chunks of the removed nodes are marked for removal, the new
/// chunks (where the table grows) are appended, each added leaf's chunk
/// becomes dirty with the leaf as its node, and every other chunk is left
/// as it was; the other nodes keep their chunks.
pub open spec fn rebuilt(
    before: ChunkTable,
    after: ChunkTable,
    allocation_count: usize,
    added: Seq<u64>,
    removed: Seq<u64>,
    order: Seq<usize>,
    out: Seq<usize>,
) -> bool {
    let free = free_indices(before.chunks_view()).len();
    let extra = spec_extra_chunk_count(added.len(), free);
    let grows = added.len() > 0 && extra > 0;
    let staged = after_removal(before.chunks_view(), before.nodes_view(), removed.to_set()) + if grows {
        new_chunks(before.per_allocation(), allocation_count as nat, extra, order)
    } else {
        Seq::empty()
    };
    &&& after.per_allocation() == before.per_allocation() + extra
    &&& out.len() == added.len()
    &&& after.chunks_view().len() == staged.len()
    &&& forall|k: int| 0 <= k < added.len() ==> #[trigger] out[k] as int == free_indices(staged)[k]
    &&& forall|k1: int, k2: int| 0 <= k1 < k2 < added.len() ==> #[trigger] out[k1] < #[trigger] out[k2]
    &&& forall|k: int|
        0 <= k < added.len() ==> after.chunks_view()[#[trigger] out[k] as int] == (Chunk {
            state: ChunkState::Dirty,
            node: Some(added[k]),
            ..staged[out[k] as int]
        })
    &&& forall|j: int|
        0 <= j < staged.len() && (forall|k: int| 0 <= k < added.len() ==> #[trigger] out[k] as int != j)
            ==> #[trigger] after.chunks_view()[j] == staged[j]
    &&& forall|k: int|
        0 <= k < added.len() ==> after.nodes_view().contains_key(#[trigger] added[k])
            && after.nodes_view()[added[k]] == out[k]
    &&& after.nodes_view().remove_keys(added.to_set()) == before.nodes_view().remove_keys(removed.to_set())
}

/// Takes in one rebuild of the octree: the added leaf nodes, the added
/// parent nodes and the removed nodes. Exactly the added parents wait for
/// their children (see `ChildCounter::reset`). Where leaves were added,
/// the table takes them in (see `apply_octree_delta`), its new chunks, if
/// any, in a random order that spreads the allocations: whatever order was
/// drawn, the table is rebuilt by that order (see `rebuilt`). Where none
/// was added, or the table could not grow, it is left as it is.
pub fn apply_rebuild(
    table: &mut ChunkTable,
    counter: &mut ChildCounter,
    allocation_count: usize,
    added_leaves: &Vec<u64>,
    added_parents: &Vec<u64>,
    removed: &Vec<u64>,
) -> (r: Option<Vec<usize>>)
    requires
        old(table).wf(),
        added_leaves@.len() > 0 ==> allocation_count >= 1,
        added_leaves@.no_duplicates(),
        forall|k: int|
            0 <= k < added_leaves@.len() ==> !old(table).nodes_view().remove_keys(removed@.to_set()).contains_key(
                #[trigger] added_leaves@[k],
            ),
        added_leaves@.len() <= usize::MAX / 2,
    ensures
        final(counter).wf(),
        final(counter).view() == Map::new(|k: u64| added_parents@.contains(k), |k: u64| (0u32, Seq::<usize>::empty())),
        final(table).wf(),
        ({
            let free = free_indices(old(table).chunks_view()).len();
            let extra = spec_extra_chunk_count(added_leaves@.len(), free);
            let grows = extra > 0;
            let fits = extra * allocation_count <= usize::MAX
                && old(table).chunks_view().len() + extra * allocation_count <= usize::MAX
                && old(table).per_allocation() + extra * allocation_count <= usize::MAX;
            &&& (added_leaves@.len() == 0 || (grows && !fits)) ==> r is None && final(table).chunks_view()
                == old(table).chunks_view() && final(table).nodes_view() == old(table).nodes_view()
                && final(table).per_allocation() == old(table).per_allocation()
            &&& (added_leaves@.len() > 0 && (!grows || fits)) ==> {
                &&& r matches Some(out)
                &&& exists|order: Seq<usize>|
                    #[trigger] is_arrangement(order, (extra * allocation_count) as nat) && rebuilt(
                        *old(table),
                        *final(table),
                        allocation_count,
                        added_leaves@,
                        removed@,
                        order,
                        out@,
                    )
            }
        }),
{
    counter.reset(added_parents);
    if added_leaves.len() == 0 {
        return None;
    }
    let extra = extra_chunk_count(added_leaves.len(), table.free_count());
    let count = match extra.checked_mul(allocation_count) {
        Some(c) => c,
        None => 0,
    };
    let order = random_order(count);
    let r = table.apply_octree_delta(allocation_count, added_leaves, removed, &order);
    proof {
        if r is Some {
            assert(count == extra * allocation_count);
            assert(is_arrangement(order@, (extra * allocation_count) as nat));
            assert(rebuilt(*old(table), *table, allocation_count, added_leaves@, removed@, order@, r->Some_0@));
        }
    }
    r
}

/// A chunk in use (neither free nor being removed) that stays in use with
/// the same node, in a table of chunks of the same length.
pub open spec fn keeps_in_use(a: Seq<Chunk>, b: Seq<Chunk>) -> bool {
    &&& a.len() == b.len()
    &&& forall|i: int|
        0 <= i < a.len() && a[i].state != ChunkState::Free && a[i].state != ChunkState::PendingRemoval
            ==> #[trigger] b[i].node == a[i].node && b[i].state != ChunkState::Free && b[i].state
            != ChunkState::PendingRemoval
}

impl ChunkTable {
    /// A table whose nodes are unchanged and whose chunks in use stay in
    /// use with their nodes stays well formed.
    proof fn lemma_wf_same_nodes(before: ChunkTable, after: ChunkTable)
        requires
            before.wf(),
            index_entries(after.entities) == index_entries(before.entities),
            keeps_in_use(before.chunks@, after.chunks@),
        ensures
            after.wf(),
    {
        assert forall|n: u64| #[trigger] index_entries(after.entities).contains_key(n) implies {
            let i = index_entries(after.entities)[n] as int;
            &&& 0 <= i < after.chunks@.len()
            &&& after.chunks@[i].node == Some(n)
            &&& after.chunks@[i].state != ChunkState::Free
            &&& after.chunks@[i].state != ChunkState::PendingRemoval
        } by {
            assert(index_entries(before.entities).contains_key(n));
            let i = index_entries(before.entities)[n] as int;
            assert(after.chunks@[i].node == before.chunks@[i].node);
        }
    }
}

} // verus!
