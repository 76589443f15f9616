//! The per frame decisions of the terrain systems over the list of chunks:
//! which dirty chunks start over, which chunk is generated next, which one is
//! read back, which chunks are recycled and which are handed new nodes.
use vstd::prelude::*;
use crate::chunk::{Chunk, ChunkState, MeshReadbackState};

verus! {

/// A chunk as the generation step leaves it: dirty chunks become pending and
/// lose their range.
pub open spec fn started(c: Chunk) -> Chunk {
    if c.state == ChunkState::Dirty {
        Chunk { state: ChunkState::Pending, ranges: None, ..c }
    } else {
        c
    }
}

/// The sub-allocation ranges `(allocation, start, end)` that dirty chunks
/// release, in chunk order; empty ranges release nothing.
pub open spec fn released_ranges(s: Seq<Chunk>) -> Seq<(usize, u32, u32)>
    decreases s.len(),
{
    if s.len() == 0 {
        Seq::empty()
    } else {
        let c = s.last();
        let here = match c.ranges {
            Some(range) => if c.state == ChunkState::Dirty && range.1 > range.0 {
                seq![(c.allocation, range.0, range.1)]
            } else {
                Seq::empty()
            },
            None => Seq::empty(),
        };
        released_ranges(s.drop_last()) + here
    }
}

/// The `(allocation, local_index)` of the dirty chunks, in chunk order.
pub open spec fn dirty_slots(s: Seq<Chunk>) -> Seq<(usize, usize)>
    decreases s.len(),
{
    if s.len() == 0 {
        Seq::empty()
    } else {
        let c = s.last();
        dirty_slots(s.drop_last()) + if c.state == ChunkState::Dirty {
            seq![(c.allocation, c.local_index)]
        } else {
            Seq::empty()
        }
    }
}

/// Starts the generation of every dirty chunk: it becomes pending and its
/// range is dropped. Returns the ranges to clear in the sub-allocation
/// tables, and the slots to hide until the new mesh is ready.
pub fn begin_generation(chunks: &mut Vec<Chunk>) -> (r: (Vec<(usize, u32, u32)>, Vec<(usize, usize)>))
    ensures
        final(chunks)@.len() == old(chunks)@.len(),
        forall|i: int| 0 <= i < old(chunks)@.len() ==> #[trigger] final(chunks)@[i] == started(old(chunks)@[i]),
        r.0@ == released_ranges(old(chunks)@),
        r.1@ == dirty_slots(old(chunks)@),
{
    let ghost before = chunks@;
    let mut resets: Vec<(usize, u32, u32)> = Vec::new();
    let mut hidden: Vec<(usize, usize)> = Vec::new();
    let mut i: usize = 0;
    while i < chunks.len()
        invariant
            chunks@.len() == before.len(),
            i <= chunks@.len(),
            forall|j: int| 0 <= j < i ==> #[trigger] chunks@[j] == started(before[j]),
            forall|j: int| i <= j < chunks@.len() ==> #[trigger] chunks@[j] == before[j],
            resets@ == released_ranges(before.subrange(0, i as int)),
            hidden@ == dirty_slots(before.subrange(0, i as int)),
        decreases chunks@.len() - i,
    {
        let c = chunks[i];
        proof {
            assert(before.subrange(0, i + 1).drop_last() =~= before.subrange(0, i as int));
            assert(before.subrange(0, i + 1).last() == c);
        }
        if c.state == ChunkState::Dirty {
            if let Some(range) = c.ranges {
                if range.1 > range.0 {
                    resets.push((c.allocation, range.0, range.1));
                }
            }
            hidden.push((c.allocation, c.local_index));
            chunks.set(i, Chunk { state: ChunkState::Pending, ranges: None, ..c });
        }
        i = i + 1;
    }
    assert(before.subrange(0, before.len() as int) =~= before);
    (resets, hidden)
}

/// The number of chunks in state `st`.
pub open spec fn count_state(s: Seq<Chunk>, st: ChunkState) -> nat
    decreases s.len(),
{
    if s.len() == 0 {
        0
    } else {
        count_state(s.drop_last(), st) + if s.last().state == st {
            1nat
        } else {
            0nat
        }
    }
}

/// Replacing one chunk changes the count of a state by what leaves and what
/// comes in.
proof fn lemma_count_update(s: Seq<Chunk>, i: int, c: Chunk, st: ChunkState)
    requires
        0 <= i < s.len(),
    ensures
        count_state(s.update(i, c), st) + (if s[i].state == st { 1int } else { 0int })
            == count_state(s, st) + (if c.state == st { 1int } else { 0int }),
    decreases s.len(),
{
    let t = s.update(i, c);
    if i == s.len() - 1 {
        assert(t.drop_last() =~= s.drop_last());
    } else {
        assert(t.drop_last() =~= s.drop_last().update(i, c));
        lemma_count_update(s.drop_last(), i, c, st);
    }
}

/// Counts the chunks in state `st`.
pub fn count_in_state(chunks: &Vec<Chunk>, st: ChunkState) -> (r: usize)
    ensures
        r == count_state(chunks@, st),
{
    let mut n: usize = 0;
    let mut i: usize = 0;
    while i < chunks.len()
        invariant
            i <= chunks@.len(),
            n == count_state(chunks@.subrange(0, i as int), st),
            n <= i,
        decreases chunks@.len() - i,
    {
        proof {
            assert(chunks@.subrange(0, i + 1).drop_last() =~= chunks@.subrange(0, i as int));
        }
        if chunks[i].state == st {
            n = n + 1;
        }
        i = i + 1;
    }
    assert(chunks@.subrange(0, chunks@.len() as int) =~= chunks@);
    n
}

/// `i` is the pending chunk generated next: the highest key among pending
/// chunks, and among equal keys the one that comes last.
pub open spec fn next_to_generate(s: Seq<Chunk>, keys: Seq<u32>, i: int) -> bool {
    &&& 0 <= i < s.len()
    &&& s[i].state == ChunkState::Pending
    &&& forall|j: int|
        0 <= j < s.len() && s[j].state == ChunkState::Pending ==> keys[j] < keys[i] || (keys[j]
            == keys[i] && j <= i)
}

/// Whether some chunk is pending.
pub open spec fn any_pending(s: Seq<Chunk>) -> bool {
    exists|j: int| 0 <= j < s.len() && s[j].state == ChunkState::Pending
}

/// Picks the next chunk to generate and marks it as awaiting its readback.
///
/// `keys` orders the chunks by generation priority (a higher key is more
/// urgent). Nothing is picked when no chunk is pending, or while a chunk
/// already awaits the start of its readback: at most one chunk is ever in
/// that state.
pub fn generate_next(chunks: &mut Vec<Chunk>, keys: &Vec<u32>) -> (r: Option<usize>)
    requires
        keys@.len() == old(chunks)@.len(),
    ensures
        r is None <==> (!any_pending(old(chunks)@) || count_state(
            old(chunks)@,
            ChunkState::PendingReadbackStart,
        ) >= 1),
        r is None ==> final(chunks)@ == old(chunks)@,
        r matches Some(i) ==> next_to_generate(old(chunks)@, keys@, i as int) && final(chunks)@
            == old(chunks)@.update(
            i as int,
            Chunk { state: ChunkState::PendingReadbackStart, ..old(chunks)@[i as int] },
        ),
        r is Some ==> count_state(final(chunks)@, ChunkState::PendingReadbackStart) == 1,
        count_state(old(chunks)@, ChunkState::PendingReadbackStart) <= 1 ==> count_state(
            final(chunks)@,
            ChunkState::PendingReadbackStart,
        ) <= 1,
{
    let mut best: Option<usize> = None;
    let mut i: usize = 0;
    while i < chunks.len()
        invariant
            keys@.len() == chunks@.len(),
            i <= chunks@.len(),
            best is None ==> forall|j: int| 0 <= j < i ==> chunks@[j].state != ChunkState::Pending,
            best matches Some(b) ==> b < i && next_to_generate(chunks@.subrange(0, i as int), keys@.subrange(0, i as int), b as int),
        decreases chunks@.len() - i,
    {
        if chunks[i].state == ChunkState::Pending {
            match best {
                Some(b) => {
                    if keys[i] >= keys[b] {
                        best = Some(i);
                    }
                },
                None => {
                    best = Some(i);
                },
            }
        }
        i = i + 1;
    }
    assert(chunks@.subrange(0, chunks@.len() as int) =~= chunks@);
    assert(keys@.subrange(0, keys@.len() as int) =~= keys@);
    match best {
        None => {
            None
        },
        Some(b) => {
            let waiting = count_in_state(chunks, ChunkState::PendingReadbackStart);
            if waiting >= 1 {
                return None;
            }
            let c = chunks[b];
            proof {
                lemma_count_update(
                    chunks@,
                    b as int,
                    Chunk { state: ChunkState::PendingReadbackStart, ..c },
                    ChunkState::PendingReadbackStart,
                );
            }
            chunks.set(b, Chunk { state: ChunkState::PendingReadbackStart, ..c });
            Some(b)
        },
    }
}

/// The first chunk awaiting the start of its readback.
pub open spec fn first_awaiting_readback(s: Seq<Chunk>, i: int) -> bool {
    &&& 0 <= i < s.len()
    &&& s[i].state == ChunkState::PendingReadbackStart
    &&& forall|j: int| 0 <= j < i ==> s[j].state != ChunkState::PendingReadbackStart
}

/// Starts the readback of the first chunk that awaits it: its state moves on,
/// and, when collisions are on and the chunk has a collider, so does the
/// readback of its mesh. Returns that chunk.
pub fn begin_readback(chunks: &mut Vec<Chunk>, collisions: bool) -> (r: Option<usize>)
    ensures
        r is None ==> final(chunks)@ == old(chunks)@ && forall|j: int|
            0 <= j < old(chunks)@.len() ==> old(chunks)@[j].state != ChunkState::PendingReadbackStart,
        r matches Some(i) ==> first_awaiting_readback(old(chunks)@, i as int) && final(chunks)@
            == old(chunks)@.update(
            i as int,
            Chunk {
                state: ChunkState::PendingReadbackData,
                mesh_readback_state: if collisions && old(chunks)@[i as int].collider {
                    Some(MeshReadbackState::PendingReadbackData)
                } else {
                    old(chunks)@[i as int].mesh_readback_state
                },
                ..old(chunks)@[i as int]
            },
        ),
{
    let mut i: usize = 0;
    while i < chunks.len()
        invariant
            chunks@ == old(chunks)@,
            i <= chunks@.len(),
            forall|j: int| 0 <= j < i ==> chunks@[j].state != ChunkState::PendingReadbackStart,
        decreases chunks@.len() - i,
    {
        let c = chunks[i];
        if c.state == ChunkState::PendingReadbackStart {
            let mesh_readback_state = if collisions && c.collider {
                Some(MeshReadbackState::PendingReadbackData)
            } else {
                c.mesh_readback_state
            };
            chunks.set(
                i,
                Chunk { state: ChunkState::PendingReadbackData, mesh_readback_state, ..c },
            );
            return Some(i);
        }
        i = i + 1;
    }
    None
}

/// The key under which a chunk's priority, given by the bits of its float,
/// is ordered: a positive float (sign bit clear) gets its sign bit set, a
/// negative one has all its bits flipped.
pub open spec fn spec_priority_key(bits: u32) -> u32 {
    if bits & 0x8000_0000 != 0 {
        !bits
    } else {
        bits | 0x8000_0000
    }
}

/// The key of a priority, from the bits of its float (see
/// `spec_priority_key`).
pub fn priority_key(bits: u32) -> (r: u32)
    ensures
        r == spec_priority_key(bits),
{
    if bits & 0x8000_0000 != 0 {
        !bits
    } else {
        bits | 0x8000_0000
    }
}

/// The keys order priorities as `f32::total_cmp` orders floats by their
/// bits: among positive floats the larger bits rank higher, among negative
/// ones the larger bits (a larger magnitude) rank lower, and every negative
/// float ranks below every positive one.
pub proof fn law_priority_key_order(a: u32, b: u32)
    ensures
        a < 0x8000_0000 && b < 0x8000_0000 ==> (a < b <==> spec_priority_key(a) < spec_priority_key(b)),
        a >= 0x8000_0000 && b >= 0x8000_0000 ==> (a < b <==> spec_priority_key(a) > spec_priority_key(b)),
        a >= 0x8000_0000 && b < 0x8000_0000 ==> spec_priority_key(a) < spec_priority_key(b),
{
    assert(a < 0x8000_0000u32 ==> a & 0x8000_0000u32 == 0 && a | 0x8000_0000u32 == a + 0x8000_0000u32) by (bit_vector);
    assert(b < 0x8000_0000u32 ==> b & 0x8000_0000u32 == 0 && b | 0x8000_0000u32 == b + 0x8000_0000u32) by (bit_vector);
    assert(a >= 0x8000_0000u32 ==> a & 0x8000_0000u32 != 0 && !a == 0xffff_ffffu32 - a) by (bit_vector);
    assert(b >= 0x8000_0000u32 ==> b & 0x8000_0000u32 != 0 && !b == 0xffff_ffffu32 - b) by (bit_vector);
}

} // verus!
