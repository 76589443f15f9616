//! The count of finished children of the parent nodes of the last octree
//! rebuild. When all eight children of a parent are done, the parent's
//! tally is handed on to its own parent, and where there is none its chunks
//! are shown; a chunk being removed is freed once its node no longer waits.
use vstd::prelude::*;
use ahash::AHashMap;
use crate::maps::{
    list_entries, list_map_clear, list_map_insert, list_map_new, list_map_remove, u32_entries, u32_map_clear,
    u32_map_get, u32_map_insert, u32_map_new, u32_map_remove,
};

verus! {


/// The tally of a waiting parent node: its finished children, and the
/// chunks to show once it is done.
pub type Tally = (u32, Seq<usize>);

/// One step of the back propagation, over a parent node and its own
/// parent, if any: a node with eight finished children hands its chunks on
/// to its parent, which gains a finished child, or, where its parent does
/// not wait, has its chunks shown; the node then stops waiting. Returns the
/// new tallies and the chunks shown.
pub open spec fn propagate_step(s: Map<u64, Tally>, node: u64, parent: Option<u64>) -> (Map<u64, Tally>, Seq<usize>) {
    if s.contains_key(node) && s[node].0 == 8 {
        let this = s[node];
        match parent {
            Some(p) => if s.contains_key(p) {
                (s.insert(p, ((s[p].0 + 1) as u32, s[p].1 + this.1)).remove(node), Seq::empty())
            } else {
                (s.remove(node), this.1)
            },
            None => (s.remove(node), this.1),
        }
    } else {
        (s, Seq::empty())
    }
}

/// The back propagation over the parent nodes in order.
pub open spec fn propagate(s: Map<u64, Tally>, nodes: Seq<(u64, Option<u64>)>) -> (Map<u64, Tally>, Seq<usize>)
    decreases nodes.len(),
{
    if nodes.len() == 0 {
        (s, Seq::empty())
    } else {
        let (m, shown) = propagate(s, nodes.drop_last());
        let (m2, more) = propagate_step(m, nodes.last().0, nodes.last().1);
        (m2, shown + more)
    }
}

/// The tallies of the parent nodes that wait for their children.
pub struct ChildCounter {
    counts: AHashMap<u64, u32>,
    chunks: AHashMap<u64, Vec<usize>>,
}

impl ChildCounter {
    /// The tally of each waiting node.
    pub closed spec fn view(&self) -> Map<u64, Tally> {
        Map::new(|k: u64| u32_entries(self.counts).contains_key(k), |k: u64| (u32_entries(self.counts)[k], list_entries(self.chunks)[k]))
    }

    /// Both maps name the same nodes.
    pub closed spec fn wf(&self) -> bool {
        u32_entries(self.counts).dom() == list_entries(self.chunks).dom()
    }

    /// No node waits.
    pub fn new() -> (r: ChildCounter)
        ensures
            r.wf(),
            r.view() == Map::<u64, Tally>::empty(),
    {
        let r = ChildCounter { counts: u32_map_new(), chunks: list_map_new() };
        proof {
            assert(r.view() =~= Map::<u64, Tally>::empty());
        }
        r
    }

    /// Whether a node waits for its children.
    pub fn waits(&self, node: u64) -> (r: bool)
        ensures
            r == self.view().contains_key(node),
    {
        u32_map_get(&self.counts, node).is_some()
    }

    /// After a rebuild of the octree: exactly the added `parents` wait,
    /// with no finished child and no chunk. Where `parents` names a node
    /// twice it waits once.
    pub fn reset(&mut self, parents: &Vec<u64>)
        ensures
            final(self).wf(),
            final(self).view() == Map::new(|k: u64| parents@.contains(k), |k: u64| (0u32, Seq::<usize>::empty())),
    {
        u32_map_clear(&mut self.counts);
        list_map_clear(&mut self.chunks);
        let mut i: usize = 0;
        while i < parents.len()
            invariant
                i <= parents@.len(),
                u32_entries(self.counts).dom() == list_entries(self.chunks).dom(),
                forall|k: u64| #[trigger] u32_entries(self.counts).contains_key(k) <==> parents@.subrange(0, i as int).contains(k),
                forall|k: u64| #[trigger] u32_entries(self.counts).contains_key(k) ==> u32_entries(self.counts)[k] == 0 && list_entries(self.chunks)[k] == Seq::<usize>::empty(),
            decreases parents@.len() - i,
        {
            let p = parents[i];
            u32_map_insert(&mut self.counts, p, 0);
            list_map_insert(&mut self.chunks, p, Vec::new());
            proof {
                assert forall|k: u64| #[trigger] u32_entries(self.counts).contains_key(k) <==> parents@.subrange(0, i + 1).contains(k) by {
                    if k == p {
                        assert(parents@.subrange(0, i + 1)[i as int] == p);
                    } else if parents@.subrange(0, i + 1).contains(k) {
                        let j = parents@.subrange(0, i + 1).index_of(k);
                        assert(parents@.subrange(0, i as int)[j] == k);
                    } else if parents@.subrange(0, i as int).contains(k) {
                        let j = parents@.subrange(0, i as int).index_of(k);
                        assert(parents@.subrange(0, i + 1)[j] == k);
                    }
                }
                assert(u32_entries(self.counts).dom() =~= list_entries(self.chunks).dom());
            }
            i = i + 1;
        }
        proof {
            assert(parents@.subrange(0, parents@.len() as int) =~= parents@);
            assert(self.view() =~= Map::new(|k: u64| parents@.contains(k), |k: u64| (0u32, Seq::<usize>::empty())));
        }
    }

    /// Back propagates the finished tallies over the parent nodes of the
    /// octree in order, each given with its own parent. Returns the chunks
    /// to show.
    pub fn backpropagate(&mut self, nodes: &Vec<(u64, Option<u64>)>) -> (r: Vec<usize>)
        requires
            old(self).wf(),
            forall|k: u64| #[trigger] old(self).view().contains_key(k) ==> old(self).view()[k].0 + nodes@.len() <= u32::MAX,
        ensures
            final(self).wf(),
            final(self).view() == propagate(old(self).view(), nodes@).0,
            r@ == propagate(old(self).view(), nodes@).1,
    {
        let ghost start = self.view();
        let mut shown: Vec<usize> = Vec::new();
        let mut i: usize = 0;
        while i < nodes.len()
            invariant
                i <= nodes@.len(),
                self.wf(),
                start == old(self).view(),
                forall|k: u64| #[trigger] start.contains_key(k) ==> start[k].0 + nodes@.len() <= u32::MAX,
                forall|k: u64| #[trigger] self.view().contains_key(k) ==> start.contains_key(k) && self.view()[k].0 <= start[k].0 + i,
                self.view() == propagate(start, nodes@.subrange(0, i as int)).0,
                shown@ == propagate(start, nodes@.subrange(0, i as int)).1,
            decreases nodes@.len() - i,
        {
            let (node, parent) = nodes[i];
            let ghost before = self.view();
            proof {
                assert(nodes@.subrange(0, i + 1).drop_last() =~= nodes@.subrange(0, i as int));
            }
            let ready = match u32_map_get(&self.counts, node) {
                Some(c) => c == 8,
                None => false,
            };
            if ready {
                let waiting_parent = match parent {
                    Some(p) => if u32_map_get(&self.counts, p).is_some() {
                        Some(p)
                    } else {
                        None
                    },
                    None => None,
                };
                let mut this = match list_map_remove(&mut self.chunks, node) {
                    Some(v) => v,
                    None => Vec::new(),
                };
                match waiting_parent {
                    Some(p) => {
                        if p != node {
                            let c = match u32_map_get(&self.counts, p) {
                                Some(c) => c,
                                None => 0,
                            };
                            let mut theirs = match list_map_remove(&mut self.chunks, p) {
                                Some(v) => v,
                                None => Vec::new(),
                            };
                            theirs.append(&mut this);
                            proof {
                                assert(before.contains_key(p));
                                assert(c == before[p].0);
                                assert(start.contains_key(p));
                            }
                            u32_map_insert(&mut self.counts, p, c + 1);
                            list_map_insert(&mut self.chunks, p, theirs);
                        }
                    },
                    None => {
                        shown.append(&mut this);
                    },
                }
                u32_map_remove(&mut self.counts, node);
            }
            proof {
                let (m2, more) = propagate_step(before, node, parent);
                assert(u32_entries(self.counts).dom() =~= list_entries(self.chunks).dom());
                assert(self.view() =~= m2);
                assert(shown@ =~= propagate(start, nodes@.subrange(0, i as int)).1 + more);
            }
            i = i + 1;
        }
        proof {
            assert(nodes@.subrange(0, nodes@.len() as int) =~= nodes@);
        }
        shown
    }
}

} // verus!
