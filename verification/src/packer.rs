//! Bookkeeping of the resource packer: the log of when each packed file was
//! last packed, which files need packing again, and the names under which
//! resources are packed.
//!
//! The log is a sequence of records of 16 bytes: the hashed name of a packed
//! resource and the time (in seconds) it was last packed, both 64 bit little
//! endian. Names and paths are byte strings.
use vstd::prelude::*;
use std::collections::HashMap;
use std::collections::hash_map::DefaultHasher;
use std::hash::Hasher;
use vstd::std_specs::hash::DefaultHasherAdditionalSpecFns;
use vstd::utf8::encode_utf8;
use vstd::std_specs::hash::spec_keys_iter;
use vstd::std_specs::iter::IteratorSpec;
use crate::packing::shader_type_of;
use crate::bytes::{str_eq, le_u64_at, u64_bytes, push_u64, read_u64_at, lemma_u64_roundtrip};
use vstd::string::{StrSliceExecFns, StringExecFns};

verus! {

broadcast use vstd::std_specs::hash::group_hash_axioms;

/// The timestamps that the first `n` records of a log give: a later record
/// of a name overrides an earlier one.
pub open spec fn log_map(b: Seq<u8>, n: nat) -> Map<u64, u64>
    decreases n,
{
    if n == 0 {
        Map::empty()
    } else {
        let p = 16 * (n - 1);
        log_map(b, (n - 1) as nat).insert(le_u64_at(b, p), le_u64_at(b, p + 8))
    }
}

/// Whether a log can be read: after its whole records there is no record
/// that was begun but holds no timestamp (a partial name is ignored).
pub open spec fn log_readable(b: Seq<u8>) -> bool {
    b.len() % 16 < 8
}

/// The bytes of the records of `keys`, in order, with their timestamps in `m`.
pub open spec fn log_bytes(keys: Seq<u64>, m: Map<u64, u64>) -> Seq<u8>
    decreases keys.len(),
{
    if keys.len() == 0 {
        Seq::empty()
    } else {
        log_bytes(keys.drop_last(), m) + u64_bytes(keys.last()) + u64_bytes(m[keys.last()])
    }
}

/// Whether a resource needs packing: it was never packed, or it changed
/// after it was last packed.
pub open spec fn spec_needs_packing(log: Map<u64, u64>, hashed: u64, modified: u64) -> bool {
    !log.contains_key(hashed) || modified > log[hashed]
}

/// The log of the resource packer: when each packed resource, by its hashed
/// name, was last packed.
pub struct PackLog {
    timestamps: HashMap<u64, u64>,
}

impl PackLog {
    /// The timestamp of each hashed name.
    pub closed spec fn view(&self) -> Map<u64, u64> {
        self.timestamps@
    }

    /// An empty log.
    pub fn new() -> (r: PackLog)
        ensures
            r.view() == Map::<u64, u64>::empty(),
    {
        PackLog { timestamps: HashMap::new() }
    }

    /// Reads a log: `None` where a record holds a name and no timestamp.
    pub fn parse(bytes: &[u8]) -> (r: Option<PackLog>)
        ensures
            r is Some <==> log_readable(bytes@),
            r matches Some(log) ==> log.view() == log_map(bytes@, bytes@.len() / 16),
    {
        let len = bytes.len();
        let mut timestamps: HashMap<u64, u64> = HashMap::new();
        let mut n: usize = 0;
        while len - 16 * n >= 8
            invariant
                len == bytes@.len(),
                16 * n <= len,
                timestamps@ == log_map(bytes@, n as nat),
            decreases len - 16 * n,
        {
            if len - 16 * n < 16 {
                return None;
            }
            let hashed = read_u64_at(bytes, 16 * n);
            let stamp = read_u64_at(bytes, 16 * n + 8);
            timestamps.insert(hashed, stamp);
            n = n + 1;
        }
        proof {
            assert(n == len / 16) by (nonlinear_arith)
                requires 16 * n <= len, len - 16 * n < 8;
            assert(len % 16 == len - 16 * n) by (nonlinear_arith)
                requires 16 * n <= len, len - 16 * n < 8;
        }
        Some(PackLog { timestamps })
    }

    /// Whether the resource with this hashed name, last modified at
    /// `modified`, needs packing.
    pub fn needs_packing(&self, hashed: u64, modified: u64) -> (r: bool)
        ensures
            r == spec_needs_packing(self.view(), hashed, modified),
    {
        match self.timestamps.get(&hashed) {
            Some(packed) => modified > *packed,
            None => true,
        }
    }

    /// Records that the resource with this hashed name was packed at `time`.
    pub fn record(&mut self, hashed: u64, time: u64)
        ensures
            final(self).view() == old(self).view().insert(hashed, time),
    {
        self.timestamps.insert(hashed, time);
    }

    /// Forgets the resources that are not in `present`. Returns the hashed
    /// names forgotten, each once, in no particular order.
    pub fn retain_present(&mut self, present: &Vec<u64>) -> (r: Vec<u64>)
        ensures
            final(self).view() == old(self).view().restrict(present@.to_set()),
            r@.no_duplicates(),
            r@.to_set() == old(self).view().dom().difference(present@.to_set()),
    {
        let ghost old_map = self.timestamps@;
        let mut stale: Vec<u64> = Vec::new();
        let ghost mut seen: Seq<u64> = Seq::empty();
        let keys = self.timestamps.keys();
        proof {
            assert(spec_keys_iter(&self.timestamps).remaining().unref().to_set() == old_map.dom());
        }
        for k in iter: keys
            invariant
                iter.seq() == spec_keys_iter(&self.timestamps).remaining(),
                self.timestamps@ == old_map,
                iter.seq().unref().to_set() == old_map.dom(),
                iter.seq().unref().no_duplicates(),
                iter.seq().len() == old_map.dom().len(),
                seen == iter.seq().unref().subrange(0, iter.index() as int),
                seen.len() == iter.index(),
                stale@.no_duplicates(),
                forall|i: int| 0 <= i < stale@.len() ==> seen.contains(#[trigger] stale@[i]) && !present@.contains(stale@[i]),
                forall|j: int| 0 <= j < seen.len() && !present@.contains(#[trigger] seen[j]) ==> stale@.contains(seen[j]),
        {
            let ghost all = iter.seq().unref();
            let ghost next = all.subrange(0, iter.index() + 1);
            proof {
                assert(all[iter.index() as int] == *k);
                assert(next.drop_last() =~= seen);
                assert(!seen.contains(*k)) by {
                    if seen.contains(*k) {
                        let j = seen.index_of(*k);
                        assert(all[j] == all[iter.index() as int]);
                    }
                }
            }
            if !contains_u64(present, *k) {
                let ghost before = stale@;
                stale.push(*k);
                proof {
                    assert forall|i: int| 0 <= i < stale@.len() implies next.contains(#[trigger] stale@[i]) && !present@.contains(stale@[i]) by {
                        if i < stale@.len() - 1 {
                            let j = seen.index_of(stale@[i]);
                            assert(next[j] == seen[j]);
                        } else {
                            assert(next[iter.index() as int] == *k);
                        }
                    }
                    assert forall|j: int| 0 <= j < next.len() && !present@.contains(#[trigger] next[j]) implies stale@.contains(next[j]) by {
                        if j < seen.len() {
                            assert(next[j] == seen[j]);
                            assert(before.contains(seen[j]));
                            let i = before.index_of(seen[j]);
                            assert(stale@[i] == seen[j]);
                        } else {
                            assert(next[j] == *k);
                            assert(stale@[stale@.len() - 1] == *k);
                        }
                    }
                }
            } else {
                proof {
                    assert forall|i: int| 0 <= i < stale@.len() implies next.contains(#[trigger] stale@[i]) && !present@.contains(stale@[i]) by {
                        let j = seen.index_of(stale@[i]);
                        assert(next[j] == seen[j]);
                    }
                    assert forall|j: int| 0 <= j < next.len() && !present@.contains(#[trigger] next[j]) implies stale@.contains(next[j]) by {
                        if j < seen.len() {
                            assert(next[j] == seen[j]);
                        } else {
                            assert(next[j] == *k);
                        }
                    }
                }
            }
            proof {
                assert(next =~= seen.push(*k));
                seen = seen.push(*k);
            }
        }
        proof {
            lemma_full_keys(seen, old_map.dom());
        }
        let mut i: usize = 0;
        while i < stale.len()
            invariant
                i <= stale@.len(),
                self.timestamps@ == old_map.remove_keys(stale@.subrange(0, i as int).to_set()),
            decreases stale@.len() - i,
        {
            let ghost before = stale@.subrange(0, i as int);
            proof {
                assert(stale@.subrange(0, i + 1) =~= before.push(stale@[i as int]));
                before.lemma_push_to_set_commute(stale@[i as int]);
            }
            self.timestamps.remove(&stale[i]);
            proof {
                assert(self.timestamps@ =~= old_map.remove_keys(stale@.subrange(0, i + 1).to_set()));
            }
            i = i + 1;
        }
        proof {
            assert(stale@.subrange(0, stale@.len() as int) =~= stale@);
            assert forall|k: u64| #[trigger] stale@.to_set().contains(k) <==> old_map.dom().difference(present@.to_set()).contains(k) by {
                if stale@.contains(k) {
                    let i = stale@.index_of(k);
                    assert(seen.contains(stale@[i]));
                }
                if old_map.dom().contains(k) && !present@.contains(k) {
                    assert(seen.to_set().contains(k));
                    let j = seen.index_of(k);
                    assert(stale@.contains(seen[j]));
                }
            }
        }
        assert(self.timestamps@ =~= old_map.restrict(present@.to_set()));
        stale
    }

    /// The bytes of the log: one record per hashed name, in no particular
    /// order.
    pub fn to_bytes(&self) -> (r: Vec<u8>)
        ensures
            exists|keys: Seq<u64>|
                keys.no_duplicates() && keys.to_set() == self.view().dom() && r@ == log_bytes(keys, self.view()),
    {
        let mut out: Vec<u8> = Vec::new();
        let ghost mut done: Seq<u64> = Seq::empty();
        let keys = self.timestamps.keys();
        proof {
            assert(spec_keys_iter(&self.timestamps).remaining().unref().to_set() == self.timestamps@.dom());
        }
        for k in iter: keys
            invariant
                iter.seq() == spec_keys_iter(&self.timestamps).remaining(),
                iter.seq().unref().to_set() == self.timestamps@.dom(),
                iter.seq().unref().no_duplicates(),
                iter.seq().len() == self.timestamps@.dom().len(),
                done == iter.seq().unref().subrange(0, iter.index() as int),
                done.len() == iter.index(),
                done.no_duplicates(),
                forall|i: int| 0 <= i < done.len() ==> self.timestamps@.dom().contains(#[trigger] done[i]),
                out@ == log_bytes(done, self.timestamps@),
        {
            let stamp = match self.timestamps.get(k) {
                Some(t) => *t,
                None => 0,
            };
            proof {
                assert(self.timestamps@.dom().contains(*k)) by {
                    assert(iter.seq().unref()[iter.index() as int] == *k);
                }
            }
            push_u64(&mut out, *k);
            push_u64(&mut out, stamp);
            proof {
                let all = iter.seq().unref();
                let next = all.subrange(0, iter.index() + 1);
                assert(next.drop_last() =~= done);
                assert(next.last() == *k);
                assert(all[iter.index() as int] == *k);
                assert(!done.contains(*k)) by {
                    if done.contains(*k) {
                        let j = done.index_of(*k);
                        assert(all[j] == all[iter.index() as int]);
                    }
                }
                assert(done.push(*k).drop_last() =~= done);
                assert(stamp == self.timestamps@[*k]);
                assert(next =~= done.push(*k));
                done = done.push(*k);
            }
        }
        proof {
            lemma_full_keys(done, self.timestamps@.dom());
        }
        out
    }
}

/// A sequence without duplicates, of as many elements of a finite set as
/// the set has, lists the whole set.
proof fn lemma_full_keys(s: Seq<u64>, d: Set<u64>)
    requires
        s.no_duplicates(),
        d.finite(),
        s.len() == d.len(),
        forall|i: int| 0 <= i < s.len() ==> d.contains(#[trigger] s[i]),
    ensures
        s.to_set() == d,
{
    s.unique_seq_to_set();
    assert(s.to_set().subset_of(d)) by {
        assert forall|k: u64| #[trigger] s.to_set().contains(k) implies d.contains(k) by {
            let i = s.index_of(k);
        }
    }
    vstd::set_lib::lemma_len_subset(s.to_set(), d);
    vstd::set_lib::lemma_subset_equality(s.to_set(), d);
}

/// Whether `v` holds `x`.
fn contains_u64(v: &Vec<u64>, x: u64) -> (r: bool)
    ensures
        r == v@.contains(x),
{
    let mut i: usize = 0;
    while i < v.len()
        invariant
            i <= v@.len(),
            forall|j: int| 0 <= j < i ==> v@[j] != x,
        decreases v@.len() - i,
    {
        if v[i] == x {
            return true;
        }
        i = i + 1;
    }
    false
}

/// What a log read back gives of a log written: the same timestamps.
pub proof fn law_log_roundtrip(keys: Seq<u64>, m: Map<u64, u64>)
    requires
        keys.to_set() == m.dom(),
    ensures
        log_readable(log_bytes(keys, m)),
        log_map(log_bytes(keys, m), log_bytes(keys, m).len() / 16) == m,
{
    assert forall|i: int| 0 <= i < keys.len() implies m.contains_key(#[trigger] keys[i]) by {
        assert(keys.to_set().contains(keys[i]));
    }
    lemma_log_bytes(keys, m);
    let b = log_bytes(keys, m);
    assert(b.len() / 16 == keys.len()) by (nonlinear_arith)
        requires b.len() == 16 * keys.len();
    assert(b.len() % 16 == 0) by (nonlinear_arith)
        requires b.len() == 16 * keys.len();
    assert(m.restrict(keys.to_set()) =~= m);
}

/// A resource just recorded as packed at `time` needs no packing while it
/// was not modified after that time, and needs it once it was.
pub proof fn law_recorded_not_repacked(log: Map<u64, u64>, hashed: u64, time: u64, modified: u64)
    ensures
        spec_needs_packing(log.insert(hashed, time), hashed, modified) == (modified > time),
{
}

/// The records of `keys` read back give their timestamps in `m`.
proof fn lemma_log_bytes(keys: Seq<u64>, m: Map<u64, u64>)
    requires
        forall|i: int| 0 <= i < keys.len() ==> m.contains_key(#[trigger] keys[i]),
    ensures
        log_bytes(keys, m).len() == 16 * keys.len(),
        log_map(log_bytes(keys, m), keys.len()) == m.restrict(keys.to_set()),
    decreases keys.len(),
{
    if keys.len() == 0 {
        assert(m.restrict(keys.to_set()) =~= Map::<u64, u64>::empty());
    } else {
        let front = keys.drop_last();
        let last = keys.last();
        assert forall|i: int| 0 <= i < front.len() implies m.contains_key(#[trigger] front[i]) by {
            assert(front[i] == keys[i]);
        }
        lemma_log_bytes(front, m);
        let b = log_bytes(keys, m);
        let bf = log_bytes(front, m);
        let n = keys.len();
        let p = 16 * (n - 1);
        assert(b.len() == 16 * n);
        assert forall|q: int| 0 <= q < 16 * (n - 1) implies #[trigger] b[q] == bf[q] by {}
        lemma_log_map_prefix(b, bf, (n - 1) as nat, (n - 1) as nat);
        assert(b.subrange(p, p + 8) =~= u64_bytes(last));
        assert(b.subrange(p + 8, p + 16) =~= u64_bytes(m[last]));
        lemma_u64_roundtrip(last, b, p);
        lemma_u64_roundtrip(m[last], b, p + 8);
        assert(keys =~= front.push(last));
        front.lemma_push_to_set_commute(last);
        assert(m.restrict(front.to_set()).insert(last, m[last]) =~= m.restrict(keys.to_set()));
    }
}

/// Two byte sequences that agree on their first `16 * n` bytes give the
/// same first `n` records.
proof fn lemma_log_map_prefix(b: Seq<u8>, c: Seq<u8>, n: nat, limit: nat)
    requires
        16 * limit <= c.len(),
        16 * limit <= b.len(),
        forall|p: int| 0 <= p < 16 * limit ==> #[trigger] b[p] == c[p],
    ensures
        n <= limit ==> log_map(b, n) == log_map(c, n),
    decreases n,
{
    if n > 0 && n <= limit {
        lemma_log_map_prefix(b, c, (n - 1) as nat, limit);
        let p = 16 * (n - 1);
        assert(le_u64_at(b, p) == le_u64_at(c, p));
        assert(le_u64_at(b, p + 8) == le_u64_at(c, p + 8));
    }
}

/// The position of the first `sep` in `s`, if any.
pub open spec fn first_of(s: Seq<char>, sep: char) -> Option<int>
    decreases s.len(),
{
    if s.len() == 0 {
        None
    } else if s[0] == sep {
        Some(0)
    } else {
        match first_of(s.drop_first(), sep) {
            Some(i) => Some(i + 1),
            None => None,
        }
    }
}

/// The name of a file: all before its first dot.
pub open spec fn file_stem(s: Seq<char>) -> Seq<char> {
    match first_of(s, '.') {
        Some(i) => s.subrange(0, i),
        None => s,
    }
}

/// The extension of a file: all after its first dot, or nothing.
pub open spec fn file_extension(s: Seq<char>) -> Seq<char> {
    match first_of(s, '.') {
        Some(i) => s.subrange(i + 1, s.len() as int),
        None => Seq::empty(),
    }
}

/// The position of the first `sep` in `s`, if any.
pub fn find_first(s: &str, sep: char) -> (r: Option<usize>)
    ensures
        match r {
            Some(i) => first_of(s@, sep) == Some(i as int) && i < s@.len(),
            None => first_of(s@, sep) is None,
        },
{
    let n = s.unicode_len();
    let mut i: usize = 0;
    while i < n
        invariant
            n == s@.len(),
            i <= n,
            forall|j: int| 0 <= j < i ==> s@[j] != sep,
        decreases n - i,
    {
        if s.get_char(i) == sep {
            proof {
                lemma_first_of(s@, sep, i as int);
            }
            return Some(i);
        }
        i = i + 1;
    }
    proof {
        lemma_first_of(s@, sep, n as int);
    }
    None
}

/// Where no `sep` comes before position `i`, the first `sep` is at `i` if
/// there is one there, and there is none if `i` is the end.
proof fn lemma_first_of(s: Seq<char>, sep: char, i: int)
    requires
        0 <= i <= s.len(),
        forall|j: int| 0 <= j < i ==> s[j] != sep,
    ensures
        i < s.len() && s[i] == sep ==> first_of(s, sep) == Some(i),
        i == s.len() ==> first_of(s, sep) is None,
    decreases i,
{
    if i > 0 {
        lemma_first_of(s.drop_first(), sep, i - 1);
    }
}

/// Splits a file name at its first dot: the name before it and the
/// extension after it.
pub fn split_file_name(file_name: &str) -> (r: (String, String))
    ensures
        r.0@ == file_stem(file_name@),
        r.1@ == file_extension(file_name@),
{
    let n = file_name.unicode_len();
    match find_first(file_name, '.') {
        Some(i) => (
            String::from_str(file_name.substring_char(0, i)),
            String::from_str(file_name.substring_char(i + 1, n)),
        ),
        None => {
            proof {
                assert(file_name@.subrange(0, n as int) =~= file_name@);
            }
            (String::from_str(file_name.substring_char(0, n)), String::new())
        },
    }
}

/// The decimal digits of `n`.
pub open spec fn decimal(n: u64) -> Seq<char>
    decreases n,
{
    if n < 10 {
        seq![digit_char(n as nat)]
    } else {
        decimal(n / 10) + seq![digit_char((n % 10) as nat)]
    }
}

/// The character of a decimal digit.
pub open spec fn digit_char(d: nat) -> char {
    if d == 0 {
        '0'
    } else if d == 1 {
        '1'
    } else if d == 2 {
        '2'
    } else if d == 3 {
        '3'
    } else if d == 4 {
        '4'
    } else if d == 5 {
        '5'
    } else if d == 6 {
        '6'
    } else if d == 7 {
        '7'
    } else if d == 8 {
        '8'
    } else {
        '9'
    }
}

/// The string of one decimal digit.
fn digit_str(d: u64) -> (r: &'static str)
    requires
        d < 10,
    ensures
        r@ == seq![digit_char(d as nat)],
{
    proof {
        reveal_strlit("0");
        reveal_strlit("1");
        reveal_strlit("2");
        reveal_strlit("3");
        reveal_strlit("4");
        reveal_strlit("5");
        reveal_strlit("6");
        reveal_strlit("7");
        reveal_strlit("8");
        reveal_strlit("9");
    }
    if d == 0 {
        "0"
    } else if d == 1 {
        "1"
    } else if d == 2 {
        "2"
    } else if d == 3 {
        "3"
    } else if d == 4 {
        "4"
    } else if d == 5 {
        "5"
    } else if d == 6 {
        "6"
    } else if d == 7 {
        "7"
    } else if d == 8 {
        "8"
    } else {
        "9"
    }
}

/// Appends the decimal digits of `n` to `out`.
pub fn push_decimal(out: &mut String, n: u64)
    ensures
        final(out)@ == old(out)@ + decimal(n),
    decreases n,
{
    if n >= 10 {
        push_decimal(out, n / 10);
    }
    out.append(digit_str(n % 10));
    proof {
        assert(final(out)@ =~= old(out)@ + decimal(n));
    }
}

/// The name a resource is packed under, before hashing: its subdirectory,
/// its name, a dot and its extension.
pub open spec fn spec_resource_key(subdirectory: Seq<char>, name: Seq<char>, extension: Seq<char>) -> Seq<char> {
    subdirectory + name + seq!['.'] + extension
}

/// The name a resource is packed under, before hashing.
pub fn resource_key(subdirectory: &str, name: &str, extension: &str) -> (r: String)
    ensures
        r@ == spec_resource_key(subdirectory@, name@, extension@),
{
    let mut out = String::from_str(subdirectory);
    out.append(name);
    proof {
        reveal_strlit(".");
    }
    out.append(".");
    out.append(extension);
    proof {
        assert(out@ =~= spec_resource_key(subdirectory@, name@, extension@));
    }
    out
}

/// The hashed name of a resource, from its path relative to the resources
/// folder: what `std`'s `DefaultHasher` finishes with after it is fed the
/// path as `str::hash` feeds it, its UTF-8 bytes and then the byte `0xff`.
pub open spec fn hashed_name(path: Seq<char>) -> u64 {
    DefaultHasher::spec_finish(seq![encode_utf8(path), seq![0xffu8]])
}

/// Hashes a resource path with `std`'s `DefaultHasher`, as `str::hash`
/// does: the packer and the loader name the packed file of a resource by
/// this number.
pub(crate) fn calculate_hashed_name(path: &str) -> (r: u64)
    ensures
        r == hashed_name(path@),
{
    let mut hasher = DefaultHasher::new();
    let bytes = path.as_bytes();
    hasher.write(bytes);
    let mut end: Vec<u8> = Vec::new();
    end.push(0xffu8);
    hasher.write(end.as_slice());
    proof {
        assert(bytes@ == encode_utf8(path@));
        assert(end@ =~= seq![0xffu8]);
        assert(hasher@ =~= seq![encode_utf8(path@), seq![0xffu8]]);
    }
    hasher.finish()
}

/// The hashed name under which a resource is packed.
pub fn packed_hashed_name(subdirectory: &str, name: &str, extension: &str) -> (r: u64)
    ensures
        r == hashed_name(spec_resource_key(subdirectory@, name@, extension@)),
{
    let key = resource_key(subdirectory, name, extension);
    calculate_hashed_name(key.as_str())
}

/// The path of the packed file of a resource: its folder, the decimal
/// hashed name and `.pkg`.
pub open spec fn spec_packed_file_path(folder: Seq<char>, hashed: u64) -> Seq<char> {
    folder + decimal(hashed) + seq!['.', 'p', 'k', 'g']
}

/// The path of the packed file of a resource.
pub fn packed_file_path(folder: &str, hashed: u64) -> (r: String)
    ensures
        r@ == spec_packed_file_path(folder@, hashed),
{
    let mut out = String::from_str(folder);
    push_decimal(&mut out, hashed);
    proof {
        reveal_strlit(".pkg");
    }
    out.append(".pkg");
    proof {
        assert(out@ =~= spec_packed_file_path(folder@, hashed));
    }
    out
}

/// How the packer converts a source file, by its extension.
#[derive(Clone, Copy, PartialEq, Eq, Structural, Debug)]
pub enum SourceKind {
    /// A vertex, fragment, compute or function shader.
    Shader,
    /// A mdl3d model.
    Model,
    /// A PNG texture.
    Texture,
    /// A font, packed as its bytes.
    Font,
    /// Nothing the packer knows how to convert.
    Unknown,
}

/// The kind of a source file with extension `e`.
pub open spec fn spec_source_kind(e: Seq<char>) -> SourceKind {
    if shader_type_of(e) >= 0 {
        SourceKind::Shader
    } else if e == "mdl3d"@ {
        SourceKind::Model
    } else if e == "png"@ {
        SourceKind::Texture
    } else if e == "font"@ {
        SourceKind::Font
    } else {
        SourceKind::Unknown
    }
}

/// The kind of a source file, by its extension (see `spec_source_kind`).
pub fn source_kind(extension: &str) -> (r: SourceKind)
    ensures
        r == spec_source_kind(extension@),
{
    if str_eq(extension, "vrsh.glsl") || str_eq(extension, "frsh.glsl") || str_eq(extension, "cmpt.glsl")
        || str_eq(extension, "func.glsl") {
        SourceKind::Shader
    } else if str_eq(extension, "mdl3d") {
        SourceKind::Model
    } else if str_eq(extension, "png") {
        SourceKind::Texture
    } else if str_eq(extension, "font") {
        SourceKind::Font
    } else {
        SourceKind::Unknown
    }
}

/// `p` occurs in `s` at position `i`.
pub open spec fn occurs_at(s: Seq<char>, p: Seq<char>, i: int) -> bool {
    0 <= i && i + p.len() <= s.len() && s.subrange(i, i + p.len()) == p
}

/// The first position from `i` on where `p` occurs in `s`, if any.
pub open spec fn find_from(s: Seq<char>, p: Seq<char>, i: int) -> Option<int>
    decreases s.len() + 1 - i,
{
    if i < 0 || i + p.len() > s.len() {
        None
    } else if occurs_at(s, p, i) {
        Some(i)
    } else {
        find_from(s, p, i + 1)
    }
}

/// The second piece of `s` split at `p`, as `str::split` and `nth(1)` give
/// it: the text between the first occurrence of `p` and the next one (or
/// the end); `None` where `p` does not occur. An empty `p` splits before
/// each character, so the second piece is the first character.
pub open spec fn second_piece(s: Seq<char>, p: Seq<char>) -> Option<Seq<char>> {
    if p.len() == 0 {
        Some(if s.len() > 0 { s.subrange(0, 1) } else { s })
    } else {
        match find_from(s, p, 0) {
            None => None,
            Some(f1) => {
                let e1 = f1 + p.len();
                match find_from(s, p, e1) {
                    None => Some(s.subrange(e1, s.len() as int)),
                    Some(f2) => Some(s.subrange(e1, f2)),
                }
            },
        }
    }
}

/// `s` with every occurrence of `p` taken out, from left to right, as
/// `str::replace` with an empty replacement does.
pub open spec fn without(s: Seq<char>, p: Seq<char>) -> Seq<char>
    decreases s.len(),
{
    if p.len() == 0 || s.len() < p.len() {
        s
    } else if s.subrange(0, p.len() as int) == p {
        without(s.subrange(p.len() as int, s.len() as int), p)
    } else {
        seq![s[0]] + without(s.drop_first(), p)
    }
}

/// The subdirectory of a source file, as the packer names it: the part of
/// the file's path after the resources folder (up to any later occurrence
/// of that folder), with the file's name and extension taken out.
pub open spec fn spec_subdirectory(path: Seq<char>, root: Seq<char>, file: Seq<char>) -> Option<Seq<char>> {
    match second_piece(path, root) {
        Some(rest) => Some(without(rest, file)),
        None => None,
    }
}

/// The first position from `from` on where `p` occurs in `s`.
fn find_str_from(s: &str, p: &str, from: usize) -> (r: Option<usize>)
    requires
        from <= s@.len(),
    ensures
        match r {
            Some(i) => find_from(s@, p@, from as int) == Some(i as int) && from <= i && i + p@.len() <= s@.len(),
            None => find_from(s@, p@, from as int) is None,
        },
{
    let n = s.unicode_len();
    let m = p.unicode_len();
    if m == 0 {
        proof {
            assert(s@.subrange(from as int, from as int) =~= p@);
        }
        return Some(from);
    }
    if m > n {
        return None;
    }
    let mut i = from;
    while i <= n - m
        invariant
            n == s@.len(),
            m == p@.len(),
            1 <= m <= n,
            from <= i,
            i <= n,
            find_from(s@, p@, i as int) == find_from(s@, p@, from as int),
        decreases n + 1 - i,
    {
        if str_eq(s.substring_char(i, i + m), p) {
            return Some(i);
        }
        i = i + 1;
    }
    None
}

/// The second piece of `s` split at `p` (see `second_piece`).
fn split_second(s: &str, p: &str) -> (r: Option<String>)
    ensures
        match second_piece(s@, p@) {
            Some(t) => r matches Some(x) && x@ == t,
            None => r is None,
        },
{
    let n = s.unicode_len();
    let m = p.unicode_len();
    if m == 0 {
        if n > 0 {
            return Some(String::from_str(s.substring_char(0, 1)));
        } else {
            return Some(String::from_str(s));
        }
    }
    match find_str_from(s, p, 0) {
        None => None,
        Some(f1) => {
            let e1 = f1 + m;
            match find_str_from(s, p, e1) {
                None => Some(String::from_str(s.substring_char(e1, n))),
                Some(f2) => Some(String::from_str(s.substring_char(e1, f2))),
            }
        },
    }
}

/// `s` with every occurrence of `p` taken out (see `without`).
fn remove_all(s: &str, p: &str) -> (r: String)
    ensures
        r@ == without(s@, p@),
{
    let n = s.unicode_len();
    let m = p.unicode_len();
    if m == 0 {
        return String::from_str(s);
    }
    let mut out = String::new();
    let mut i: usize = 0;
    proof {
        assert(s@.subrange(0, n as int) =~= s@);
        assert(out@ + without(s@, p@) =~= without(s@, p@));
    }
    while i < n
        invariant
            n == s@.len(),
            m == p@.len(),
            m > 0,
            i <= n,
            out@ + without(s@.subrange(i as int, n as int), p@) == without(s@, p@),
        decreases n - i,
    {
        let ghost t = s@.subrange(i as int, n as int);
        if m <= n - i && str_eq(s.substring_char(i, i + m), p) {
            proof {
                assert(t.subrange(0, m as int) =~= s@.subrange(i as int, i + m));
                assert(t.subrange(m as int, t.len() as int) =~= s@.subrange(i + m, n as int));
            }
            i = i + m;
        } else {
            proof {
                assert(t.drop_first() =~= s@.subrange(i + 1, n as int));
                if t.len() >= m {
                    assert(t.subrange(0, m as int) =~= s@.subrange(i as int, i + m));
                } else {
                    assert(without(t.drop_first(), p@) == t.drop_first());
                    assert(t =~= seq![t[0]] + t.drop_first());
                }
                assert(s@.subrange(i as int, i + 1) =~= seq![t[0]]);
            }
            out.append(s.substring_char(i, i + 1));
            proof {
                assert(out@ + without(s@.subrange(i + 1, n as int), p@) =~= without(s@, p@));
            }
            i = i + 1;
        }
    }
    proof {
        assert(s@.subrange(n as int, n as int) =~= Seq::<char>::empty());
        assert(out@ + Seq::<char>::empty() =~= out@);
    }
    out
}

/// The subdirectory of a source file whose path is `path`, under the
/// resources folder `root`, named `file` with its extension (see
/// `spec_subdirectory`); `None` where the path does not hold the folder.
pub fn subdirectory_name(path: &str, root: &str, file: &str) -> (r: Option<String>)
    ensures
        match spec_subdirectory(path@, root@, file@) {
            Some(t) => r matches Some(x) && x@ == t,
            None => r is None,
        },
{
    match split_second(path, root) {
        None => None,
        Some(rest) => Some(remove_all(rest.as_str(), file)),
    }
}

} // verus!
