//! The handle counts of a storage: each element of a storage is kept while
//! some handle to it lives, and an element without handles is removed at
//! the end of the frame. Elements are known by the key of their slot.
use vstd::prelude::*;
use ahash::AHashMap;
use crate::maps::{u32_entries, u32_map_get, u32_map_insert, u32_map_keys, u32_map_new, u32_map_remove};

verus! {

/// The live handles of each element of a storage.
pub struct HandleTracker {
    counts: AHashMap<u64, u32>,
}

/// The handle counts that the end of a frame leaves: those of the elements
/// that still have a handle.
pub open spec fn kept(counts: Map<u64, u32>) -> Map<u64, u32> {
    Map::new(|k: u64| counts.contains_key(k) && counts[k] != 0, |k: u64| counts[k])
}

/// The elements that the end of a frame removes: those without a handle.
pub open spec fn unhandled(counts: Map<u64, u32>) -> Set<u64> {
    Set::new(|k: u64| counts.contains_key(k) && counts[k] == 0)
}

impl HandleTracker {
    /// The number of live handles of each element.
    pub closed spec fn view(&self) -> Map<u64, u32> {
        u32_entries(self.counts)
    }

    /// No element.
    pub fn new() -> (r: HandleTracker)
        ensures
            r.view() == Map::<u64, u32>::empty(),
    {
        let r = HandleTracker { counts: u32_map_new() };
        proof {
            assert(r.view() =~= Map::<u64, u32>::empty());
        }
        r
    }

    /// The number of live handles of an element, if it is stored.
    pub fn count(&self, key: u64) -> (r: Option<u32>)
        ensures
            r == (if self.view().contains_key(key) {
                Some(self.view()[key])
            } else {
                None
            }),
    {
        u32_map_get(&self.counts, key)
    }

    /// A new element is stored, with the one handle that its insertion
    /// gives out.
    pub fn insert(&mut self, key: u64)
        ensures
            final(self).view() == old(self).view().insert(key, 1),
    {
        u32_map_insert(&mut self.counts, key, 1);
    }

    /// A handle is cloned: its element has one more handle.
    pub fn clone_handle(&mut self, key: u64)
        requires
            old(self).view().contains_key(key),
            old(self).view()[key] < u32::MAX,
        ensures
            final(self).view() == old(self).view().insert(key, (old(self).view()[key] + 1) as u32),
    {
        let c = match u32_map_get(&self.counts, key) {
            Some(c) => c,
            None => 0,
        };
        u32_map_insert(&mut self.counts, key, c + 1);
    }

    /// A handle is dropped: its element has one handle less.
    pub fn drop_handle(&mut self, key: u64)
        requires
            old(self).view().contains_key(key),
            old(self).view()[key] > 0,
        ensures
            final(self).view() == old(self).view().insert(key, (old(self).view()[key] - 1) as u32),
    {
        let c = match u32_map_get(&self.counts, key) {
            Some(c) => c,
            None => 1,
        };
        u32_map_insert(&mut self.counts, key, c - 1);
    }

    /// The end of a frame: every element without a live handle is removed,
    /// and its key is returned (in no particular order) for its slot to be
    /// freed; the elements with a handle are kept, with their counts.
    pub fn end_frame(&mut self) -> (r: Vec<u64>)
        ensures
            final(self).view() == kept(old(self).view()),
            r@.no_duplicates(),
            r@.to_set() == unhandled(old(self).view()),
    {
        let ghost start = self.view();
        let keys = u32_map_keys(&self.counts);
        let mut removed: Vec<u64> = Vec::new();
        let mut i: usize = 0;
        while i < keys.len()
            invariant
                i <= keys@.len(),
                keys@.no_duplicates(),
                keys@.to_set() == start.dom(),
                start == old(self).view(),
                self.view() == Map::new(
                    |k: u64| start.contains_key(k) && !(keys@.subrange(0, i as int).contains(k) && start[k] == 0),
                    |k: u64| start[k],
                ),
                removed@.no_duplicates(),
                forall|k: u64| #[trigger] removed@.contains(k) <==> (keys@.subrange(0, i as int).contains(k) && start.contains_key(k) && start[k] == 0),
            decreases keys@.len() - i,
        {
            let key = keys[i];
            proof {
                assert(keys@.to_set().contains(key));
                assert(keys@.subrange(0, i + 1) =~= keys@.subrange(0, i as int).push(key));
                assert forall|k: u64| #[trigger] keys@.subrange(0, i + 1).contains(k) <==> (keys@.subrange(0, i as int).contains(k)
                    || k == key) by {
                    if keys@.subrange(0, i + 1).contains(k) && k != key {
                        let j = keys@.subrange(0, i + 1).index_of(k);
                        assert(keys@.subrange(0, i as int)[j] == k);
                    }
                    if keys@.subrange(0, i as int).contains(k) {
                        let j = keys@.subrange(0, i as int).index_of(k);
                        assert(keys@.subrange(0, i + 1)[j] == k);
                    }
                    if k == key {
                        assert(keys@.subrange(0, i + 1)[i as int] == k);
                    }
                }
                assert(!keys@.subrange(0, i as int).contains(key)) by {
                    if keys@.subrange(0, i as int).contains(key) {
                        let j = keys@.subrange(0, i as int).index_of(key);
                        assert(keys@[j] == keys@[i as int]);
                    }
                }
            }
            let ghost before = self.view();
            let ghost pre = removed@;
            proof {
                assert(before.contains_key(key));
                assert(before[key] == start[key]);
                assert(!pre.contains(key));
            }
            match u32_map_get(&self.counts, key) {
                Some(c) => {
                    if c == 0 {
                        u32_map_remove(&mut self.counts, key);
                        removed.push(key);
                        proof {
                            assert(self.view() == before.remove(key));
                            assert forall|a: int, b: int| 0 <= a < b < removed@.len() implies removed@[a] != removed@[b] by {
                                if b == removed@.len() - 1 {
                                    assert(pre[a] == removed@[a]);
                                    assert(pre.contains(removed@[a]));
                                }
                            }
                            assert(self.view() =~= Map::new(
                                |k: u64| start.contains_key(k) && !(keys@.subrange(0, i + 1).contains(k) && start[k] == 0),
                                |k: u64| start[k],
                            ));
                            assert(removed@ == pre.push(key));
                            assert forall|k: u64| #[trigger] removed@.contains(k) <==> (keys@.subrange(0, i + 1).contains(k)
                                && start.contains_key(k) && start[k] == 0) by {
                                if k == key {
                                    assert(removed@[removed@.len() - 1] == key);
                                } else {
                                    if removed@.contains(k) {
                                        let j = removed@.index_of(k);
                                        assert(j < pre.len());
                                        assert(pre[j] == k);
                                        assert(pre.contains(k));
                                    }
                                    if pre.contains(k) {
                                        let j = pre.index_of(k);
                                        assert(removed@[j] == k);
                                    }
                                }
                            }
                        }
                    } else {
                        proof {
                            assert(self.view() =~= Map::new(
                                |k: u64| start.contains_key(k) && !(keys@.subrange(0, i + 1).contains(k) && start[k] == 0),
                                |k: u64| start[k],
                            ));
                        }
                    }
                },
                None => {
                    proof {
                        assert(false);
                    }
                },
            }
            i = i + 1;
        }
        proof {
            assert(keys@.subrange(0, keys@.len() as int) =~= keys@);
            assert forall|k: u64| start.contains_key(k) implies keys@.contains(k) by {
                assert(keys@.to_set().contains(k));
            }
            assert(self.view() =~= kept(start));
            assert(removed@.to_set() =~= unhandled(start));
        }
        removed
    }
}

} // verus!
