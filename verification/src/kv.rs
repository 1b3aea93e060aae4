//! The key-value interface the TTL layer filters over: a snapshot with point
//! lookups and a cursor-style iterator ordered by key, plus a small sorted
//! in-memory store implementing both.

use vstd::prelude::*;

verus! {

/// Strict lexicographic order on byte strings: a proper prefix comes first.
pub open spec fn spec_bytes_lt(a: Seq<u8>, b: Seq<u8>) -> bool
    decreases a.len(),
{
    if b.len() == 0 {
        false
    } else if a.len() == 0 {
        true
    } else if a[0] < b[0] {
        true
    } else if a[0] > b[0] {
        false
    } else {
        spec_bytes_lt(a.drop_first(), b.drop_first())
    }
}

/// Lexicographic order, allowing equality.
pub open spec fn spec_bytes_le(a: Seq<u8>, b: Seq<u8>) -> bool {
    a == b || spec_bytes_lt(a, b)
}

/// Of two distinct byte strings, exactly one comes first.
pub proof fn lemma_bytes_lt_trichotomy(a: Seq<u8>, b: Seq<u8>)
    ensures
        a == b || spec_bytes_lt(a, b) || spec_bytes_lt(b, a),
        !(spec_bytes_lt(a, b) && spec_bytes_lt(b, a)),
        spec_bytes_lt(a, b) ==> a != b,
    decreases a.len(),
{
    if a.len() > 0 && b.len() > 0 && a[0] == b[0] {
        lemma_bytes_lt_trichotomy(a.drop_first(), b.drop_first());
        if a.drop_first() == b.drop_first() {
            assert forall|i: int| 0 <= i < a.len() implies a[i] == b[i] by {
                if i > 0 {
                    assert(a.drop_first()[i - 1] == b.drop_first()[i - 1]);
                }
            }
            assert(a =~= b);
        }
        if a == b {
            assert(a.drop_first() =~= b.drop_first());
        }
    } else if a == b {
        assert(a.len() == b.len());
        if a.len() > 0 {
            assert(a[0] == b[0]);
        }
    }
}

/// The order is transitive.
pub proof fn lemma_bytes_lt_trans(a: Seq<u8>, b: Seq<u8>, c: Seq<u8>)
    requires
        spec_bytes_lt(a, b),
        spec_bytes_lt(b, c),
    ensures
        spec_bytes_lt(a, c),
    decreases a.len(),
{
    if a.len() > 0 && b.len() > 0 && c.len() > 0 && a[0] == b[0] && b[0] == c[0] {
        lemma_bytes_lt_trans(a.drop_first(), b.drop_first(), c.drop_first());
    }
}

/// Compare two byte strings for strict lexicographic order.
pub fn bytes_lt(a: &[u8], b: &[u8]) -> (r: bool)
    ensures
        r == spec_bytes_lt(a@, b@),
{
    let na = a.len();
    let nb = b.len();
    proof {
        assert(a@.skip(0) =~= a@);
        assert(b@.skip(0) =~= b@);
    }
    let mut i: usize = 0;
    while i < na && i < nb
        invariant
            na == a@.len(),
            nb == b@.len(),
            i <= na,
            i <= nb,
            spec_bytes_lt(a@, b@) == spec_bytes_lt(a@.skip(i as int), b@.skip(i as int)),
        decreases na - i,
    {
        proof {
            assert(a@.skip(i as int).drop_first() =~= a@.skip(i + 1));
            assert(b@.skip(i as int).drop_first() =~= b@.skip(i + 1));
        }
        if a[i] < b[i] {
            return true;
        }
        if a[i] > b[i] {
            return false;
        }
        i = i + 1;
    }
    proof {
        if i >= na {
            assert(a@.skip(i as int).len() == 0);
        } else {
            assert(b@.skip(i as int).len() == 0);
        }
    }
    na < nb
}

/// Compare two byte strings for lexicographic order, allowing equality.
pub fn bytes_le(a: &[u8], b: &[u8]) -> (r: bool)
    ensures
        r == spec_bytes_le(a@, b@),
{
    proof {
        lemma_bytes_lt_trichotomy(a@, b@);
    }
    !bytes_lt(b, a)
}

/// The value stored under `k`, scanning entries front to back.
pub open spec fn spec_lookup(s: Seq<(Seq<u8>, Seq<u8>)>, k: Seq<u8>) -> Option<Seq<u8>>
    decreases s.len(),
{
    if s.len() == 0 {
        Option::None
    } else if s[0].0 == k {
        Option::Some(s[0].1)
    } else {
        spec_lookup(s.drop_first(), k)
    }
}

/// Entries as a map from key to stored value.
pub open spec fn spec_entries_map(s: Seq<(Seq<u8>, Seq<u8>)>) -> Map<Seq<u8>, Seq<u8>> {
    Map::new(|k: Seq<u8>| spec_lookup(s, k) is Some, |k: Seq<u8>| spec_lookup(s, k)->Some_0)
}

/// Entries in strictly ascending key order (keys unique by implication).
pub open spec fn spec_sorted(s: Seq<(Seq<u8>, Seq<u8>)>) -> bool {
    forall|i: int, j: int| 0 <= i < j < s.len() ==> spec_bytes_lt(#[trigger] s[i].0, #[trigger] s[j].0)
}

/// The position a seek lands on: the first entry at or after `key`, or one
/// past the end.
pub open spec fn spec_seek_pos(s: Seq<(Seq<u8>, Seq<u8>)>, key: Seq<u8>) -> int
    decreases s.len(),
{
    if s.len() == 0 {
        0
    } else if spec_bytes_le(key, s[0].0) {
        0
    } else {
        1 + spec_seek_pos(s.drop_first(), key)
    }
}

/// The position a reverse seek lands on: the last entry at or before `key`,
/// or one before the start.
pub open spec fn spec_seek_prev_pos(s: Seq<(Seq<u8>, Seq<u8>)>, key: Seq<u8>) -> int
    decreases s.len(),
{
    if s.len() == 0 {
        -1
    } else if spec_bytes_le(s.last().0, key) {
        s.len() - 1
    } else {
        spec_seek_prev_pos(s.drop_last(), key)
    }
}

/// A point-in-time, read-only view of a key-value store, modelled as a map
/// from key to stored value. The engine behind it is outside this crate; an
/// implementation states through `inv` when its entries are ordered.
pub trait Snapshot: Sized {
    /// The snapshot's contents.
    spec fn view(&self) -> Map<Seq<u8>, Seq<u8>>;

    /// Whether this snapshot value upholds its implementation's own
    /// invariant.
    spec fn inv(&self) -> bool;

    /// The iterator type this snapshot hands out.
    type Iter: KvIterator;

    /// Point lookup of a stored value.
    fn get(&self, key: &[u8]) -> (r: Option<Vec<u8>>)
        ensures
            match r {
                Some(v) => self.view().contains_key(key@) && v@ == self.view()[key@],
                None => !self.view().contains_key(key@),
            },
    ;

    /// A cursor over the entries, initially past the end (not valid); under
    /// the invariant its entries are exactly the contents, in ascending key
    /// order.
    fn iter(&self) -> (it: Self::Iter)
        ensures
            it.inv() == self.inv(),
            it.pos() == it.entries().len(),
            self.inv() ==> spec_sorted(it.entries()) && spec_entries_map(it.entries())
                == self.view(),
    ;
}

/// A cursor over ordered (key, stored value) entries. A position of -1 or
/// one past the end is "not valid"; reading requires a valid position.
pub trait KvIterator: Sized {
    /// The entries this cursor walks.
    spec fn entries(&self) -> Seq<(Seq<u8>, Seq<u8>)>;

    /// The current position, in `[-1, entries().len()]`.
    spec fn pos(&self) -> int;

    /// Whether this cursor value upholds its implementation's own invariant
    /// (its entries being in ascending key order).
    spec fn inv(&self) -> bool;

    /// Whether the cursor stands on an entry.
    fn valid(&self) -> (r: bool)
        ensures
            r == (0 <= self.pos() < self.entries().len()),
    ;

    /// Step forward; the result says whether an entry is under the cursor.
    fn next(&mut self) -> (r: bool)
        requires
            0 <= old(self).pos() < old(self).entries().len(),
        ensures
            final(self).entries() == old(self).entries(),
            final(self).inv() == old(self).inv(),
            final(self).pos() == old(self).pos() + 1,
            r == (final(self).pos() < final(self).entries().len()),
    ;

    /// Step backward; the result says whether an entry is under the cursor.
    fn prev(&mut self) -> (r: bool)
        requires
            0 <= old(self).pos() < old(self).entries().len(),
        ensures
            final(self).entries() == old(self).entries(),
            final(self).inv() == old(self).inv(),
            final(self).pos() == old(self).pos() - 1,
            r == (final(self).pos() >= 0),
    ;

    /// Jump to the first entry at or after `key` (under the invariant).
    fn seek(&mut self, key: &[u8]) -> (r: bool)
        ensures
            final(self).entries() == old(self).entries(),
            final(self).inv() == old(self).inv(),
            0 <= final(self).pos() <= final(self).entries().len(),
            old(self).inv() ==> final(self).pos() == spec_seek_pos(
                old(self).entries(),
                key@,
            ),
            r == (final(self).pos() < final(self).entries().len()),
    ;

    /// Jump to the last entry at or before `key` (under the invariant).
    fn seek_for_prev(&mut self, key: &[u8]) -> (r: bool)
        ensures
            final(self).entries() == old(self).entries(),
            final(self).inv() == old(self).inv(),
            -1 <= final(self).pos() < final(self).entries().len()
                || (final(self).entries().len() == 0 && final(self).pos() == -1),
            old(self).inv() ==> final(self).pos() == spec_seek_prev_pos(
                old(self).entries(),
                key@,
            ),
            r == (0 <= final(self).pos() < final(self).entries().len()),
    ;

    /// Jump to the first entry.
    fn seek_to_first(&mut self) -> (r: bool)
        ensures
            final(self).entries() == old(self).entries(),
            final(self).inv() == old(self).inv(),
            final(self).pos() == 0,
            r == (final(self).entries().len() > 0),
    ;

    /// Jump to the last entry.
    fn seek_to_last(&mut self) -> (r: bool)
        ensures
            final(self).entries() == old(self).entries(),
            final(self).inv() == old(self).inv(),
            final(self).pos() == final(self).entries().len() - 1,
            r == (final(self).entries().len() > 0),
    ;

    /// The key under the cursor.
    fn key<'a>(&'a self) -> (r: &'a [u8])
        requires
            0 <= self.pos() < self.entries().len(),
        ensures
            r@ == self.entries()[self.pos()].0,
    ;

    /// The stored value under the cursor.
    fn value<'a>(&'a self) -> (r: &'a [u8])
        requires
            0 <= self.pos() < self.entries().len(),
        ensures
            r@ == self.entries()[self.pos()].1,
    ;
}

/// Positions before the first entry and after each index agree with a first
/// occurrence scan: what `spec_seek_pos` gives is the first index whose key
/// is at or after the sought key.
pub proof fn lemma_seek_pos_char(s: Seq<(Seq<u8>, Seq<u8>)>, key: Seq<u8>)
    ensures
        0 <= spec_seek_pos(s, key) <= s.len(),
        forall|j: int| 0 <= j < spec_seek_pos(s, key) ==> !spec_bytes_le(key, #[trigger] s[j].0),
        spec_seek_pos(s, key) < s.len() ==> spec_bytes_le(key, s[spec_seek_pos(s, key)].0),
    decreases s.len(),
{
    if s.len() > 0 && !spec_bytes_le(key, s[0].0) {
        lemma_seek_pos_char(s.drop_first(), key);
        assert forall|j: int|
            0 <= j < spec_seek_pos(s, key) implies !spec_bytes_le(key, #[trigger] s[j].0) by {
            if j > 0 {
                assert(s.drop_first()[j - 1] == s[j]);
            }
        }
        if spec_seek_pos(s, key) < s.len() {
            assert(s.drop_first()[spec_seek_pos(s, key) - 1] == s[spec_seek_pos(s, key)]);
        }
    }
}

/// What `spec_seek_prev_pos` gives is the last index whose key is at or
/// before the sought key.
pub proof fn lemma_seek_prev_pos_char(s: Seq<(Seq<u8>, Seq<u8>)>, key: Seq<u8>)
    ensures
        -1 <= spec_seek_prev_pos(s, key) < s.len(),
        forall|j: int|
            spec_seek_prev_pos(s, key) < j < s.len() ==> !spec_bytes_le(#[trigger] s[j].0, key),
        spec_seek_prev_pos(s, key) >= 0 ==> spec_bytes_le(s[spec_seek_prev_pos(s, key)].0, key),
    decreases s.len(),
{
    if s.len() > 0 && !spec_bytes_le(s.last().0, key) {
        lemma_seek_prev_pos_char(s.drop_last(), key);
        assert forall|j: int|
            spec_seek_prev_pos(s, key) < j < s.len() implies !spec_bytes_le(
            #[trigger] s[j].0,
            key,
        ) by {
            if j < s.len() - 1 {
                assert(s.drop_last()[j] == s[j]);
            }
        }
        if spec_seek_prev_pos(s, key) >= 0 {
            assert(s.drop_last()[spec_seek_prev_pos(s, key)] == s[spec_seek_prev_pos(s, key)]);
        }
    }
}

/// Inserting an entry whose key does not occur before position `i` makes a
/// lookup of that key find it, and leaves every other key's lookup alone.
proof fn lemma_lookup_insert(s: Seq<(Seq<u8>, Seq<u8>)>, i: int, kv: (Seq<u8>, Seq<u8>))
    requires
        0 <= i <= s.len(),
        forall|j: int| 0 <= j < i ==> (#[trigger] s[j]).0 != kv.0,
    ensures
        forall|k: Seq<u8>|
            #[trigger] spec_lookup(s.insert(i, kv), k) == if k == kv.0 {
                Option::Some(kv.1)
            } else {
                spec_lookup(s, k)
            },
    decreases i,
{
    if i == 0 {
        assert forall|k: Seq<u8>|
            #[trigger] spec_lookup(s.insert(0, kv), k) == (if k == kv.0 {
                Option::Some(kv.1)
            } else {
                spec_lookup(s, k)
            }) by {
            assert(s.insert(0, kv)[0] == kv);
            assert(s.insert(0, kv).drop_first() =~= s);
        }
    } else {
        lemma_lookup_insert(s.drop_first(), i - 1, kv);
        assert forall|k: Seq<u8>|
            #[trigger] spec_lookup(s.insert(i, kv), k) == (if k == kv.0 {
                Option::Some(kv.1)
            } else {
                spec_lookup(s, k)
            }) by {
            assert(s.insert(i, kv)[0] == s[0]);
            assert(s.insert(i, kv).drop_first() =~= s.drop_first().insert(i - 1, kv));
            assert(s[0].0 != kv.0);
            assert(spec_lookup(s.drop_first().insert(i - 1, kv), k) == (if k == kv.0 {
                Option::Some(kv.1)
            } else {
                spec_lookup(s.drop_first(), k)
            }));
        }
    }
}

/// Overwriting the first entry that carries a key makes a lookup of that key
/// find the new value, and leaves every other key's lookup alone.
proof fn lemma_lookup_update(s: Seq<(Seq<u8>, Seq<u8>)>, i: int, kv: (Seq<u8>, Seq<u8>))
    requires
        0 <= i < s.len(),
        s[i].0 == kv.0,
        forall|j: int| 0 <= j < i ==> (#[trigger] s[j]).0 != kv.0,
    ensures
        forall|k: Seq<u8>|
            #[trigger] spec_lookup(s.update(i, kv), k) == if k == kv.0 {
                Option::Some(kv.1)
            } else {
                spec_lookup(s, k)
            },
    decreases i,
{
    if i == 0 {
        assert forall|k: Seq<u8>|
            #[trigger] spec_lookup(s.update(0, kv), k) == (if k == kv.0 {
                Option::Some(kv.1)
            } else {
                spec_lookup(s, k)
            }) by {
            assert(s.update(0, kv)[0] == kv);
            assert(s.update(0, kv).drop_first() =~= s.drop_first());
        }
    } else {
        lemma_lookup_update(s.drop_first(), i - 1, kv);
        assert forall|k: Seq<u8>|
            #[trigger] spec_lookup(s.update(i, kv), k) == (if k == kv.0 {
                Option::Some(kv.1)
            } else {
                spec_lookup(s, k)
            }) by {
            assert(s.update(i, kv)[0] == s[0]);
            assert(s.update(i, kv).drop_first() =~= s.drop_first().update(i - 1, kv));
            assert(s[0].0 != kv.0);
            assert(spec_lookup(s.drop_first().update(i - 1, kv), k) == (if k == kv.0 {
                Option::Some(kv.1)
            } else {
                spec_lookup(s.drop_first(), k)
            }));
        }
    }
}

/// A small in-memory key-value store holding its entries sorted by key; it
/// serves both as a reference implementation and as the engine behind tests.
pub struct MemSnapshot {
    entries: Vec<(Vec<u8>, Vec<u8>)>,
}

impl MemSnapshot {
    /// The entries, by their byte-string views, in storage order.
    pub closed spec fn entry_seq(self) -> Seq<(Seq<u8>, Seq<u8>)> {
        self.entries@.map_values(|e: (Vec<u8>, Vec<u8>)| (e.0@, e.1@))
    }

    /// Entries sorted strictly ascending by key.
    pub open spec fn wf(self) -> bool {
        spec_sorted(self.entry_seq())
    }

    /// An empty store.
    pub fn new() -> (s: MemSnapshot)
        ensures
            s.wf(),
            s.entry_seq().len() == 0,
            s.view() == Map::<Seq<u8>, Seq<u8>>::empty(),
    {
        let s = MemSnapshot { entries: Vec::new() };
        proof {
            assert(s.view() =~= Map::<Seq<u8>, Seq<u8>>::empty());
        }
        s
    }

    /// Store a value under a key, inserting in key order or overwriting in
    /// place.
    pub fn put(&mut self, key: Vec<u8>, value: Vec<u8>)
        requires
            old(self).wf(),
        ensures
            final(self).wf(),
            final(self).view() == old(self).view().insert(key@, value@),
    {
        let ghost s0 = self.entry_seq();
        let n = self.entries.len();
        let mut i: usize = 0;
        while i < n
            invariant
                n == s0.len(),
                self.entry_seq() == s0,
                i <= n,
                forall|j: int| 0 <= j < i ==> spec_bytes_lt((#[trigger] s0[j]).0, key@),
            ensures
                n == s0.len(),
                self.entry_seq() == s0,
                i <= n,
                forall|j: int| 0 <= j < i ==> spec_bytes_lt((#[trigger] s0[j]).0, key@),
                i < n ==> !spec_bytes_lt(s0[i as int].0, key@),
            decreases n - i,
        {
            if !crate::kv::bytes_lt(self.entries[i].0.as_slice(), key.as_slice()) {
                break ;
            }
            i = i + 1;
        }
        if i < n && crate::names::bytes_eq(self.entries[i].0.as_slice(), key.as_slice()) {
            proof {
                assert forall|j: int| 0 <= j < i implies (#[trigger] s0[j]).0 != key@ by {
                    lemma_bytes_lt_trichotomy(s0[j].0, key@);
                }
                lemma_lookup_update(s0, i as int, (key@, value@));
            }
            self.entries[i] = (key, value);
            proof {
                assert(self.entry_seq() =~= s0.update(i as int, (key@, value@)));
                assert(self.view() =~= old(self).view().insert(key@, value@));
            }
        } else {
            proof {
                assert forall|j: int| 0 <= j < i implies (#[trigger] s0[j]).0 != key@ by {
                    lemma_bytes_lt_trichotomy(s0[j].0, key@);
                }
                lemma_lookup_insert(s0, i as int, (key@, value@));
                if i < n {
                    lemma_bytes_lt_trichotomy(s0[i as int].0, key@);
                    assert(!spec_bytes_lt(s0[i as int].0, key@) && s0[i as int].0 != key@);
                    assert(spec_bytes_lt(key@, s0[i as int].0));
                }
            }
            self.entries.insert(i, (key, value));
            proof {
                assert(self.entry_seq() =~= s0.insert(i as int, (key@, value@)));
                assert(self.view() =~= old(self).view().insert(key@, value@));
                let s1 = self.entry_seq();
                assert forall|a: int, b: int|
                    0 <= a < b < s1.len() implies spec_bytes_lt(
                    (#[trigger] s1[a]).0,
                    (#[trigger] s1[b]).0,
                ) by {
                    let ii = i as int;
                    if b < ii {
                        assert(s1[a] == s0[a] && s1[b] == s0[b]);
                    } else if a < ii && b == ii {
                        assert(s1[a] == s0[a] && s1[b].0 == key@);
                    } else if a < ii && b > ii {
                        assert(s1[a] == s0[a] && s1[b] == s0[b - 1]);
                    } else if a == ii {
                        assert(s1[a].0 == key@ && s1[b] == s0[b - 1]);
                        assert(ii <= b - 1 < n);
                        assert(spec_bytes_lt(key@, s0[ii].0));
                        if b - 1 > ii {
                            lemma_bytes_lt_trans(key@, s0[ii].0, s0[b - 1].0);
                        }
                    } else {
                        assert(s1[a] == s0[a - 1] && s1[b] == s0[b - 1]);
                    }
                }
            }
        }
    }
}

impl Snapshot for MemSnapshot {
    closed spec fn view(&self) -> Map<Seq<u8>, Seq<u8>> {
        spec_entries_map(self.entry_seq())
    }

    open spec fn inv(&self) -> bool {
        self.wf()
    }

    type Iter = MemIter;

    fn get(&self, key: &[u8]) -> (r: Option<Vec<u8>>) {
        let ghost s0 = self.entry_seq();
        proof {
            assert(s0.skip(0) =~= s0);
        }
        let n = self.entries.len();
        let mut i: usize = 0;
        while i < n
            invariant
                n == s0.len(),
                self.entry_seq() == s0,
                i <= n,
                spec_lookup(s0.skip(i as int), key@) == spec_lookup(s0, key@),
            decreases n - i,
        {
            proof {
                assert(s0.skip(i as int)[0] == s0[i as int]);
                assert(s0.skip(i as int).drop_first() =~= s0.skip(i + 1));
            }
            if crate::names::bytes_eq(self.entries[i].0.as_slice(), key) {
                let v = self.entries[i].1.clone();
                proof {
                    assert(v@ =~= s0[i as int].1);
                }
                return Some(v);
            }
            i = i + 1;
        }
        proof {
            assert(s0.skip(n as int).len() == 0);
        }
        None
    }

    fn iter(&self) -> (it: MemIter) {
        let n = self.entries.len();
        let mut entries: Vec<(Vec<u8>, Vec<u8>)> = Vec::new();
        let mut i: usize = 0;
        while i < n
            invariant
                n == self.entries@.len(),
                i <= n,
                entries@.len() == i,
                forall|j: int|
                    0 <= j < i ==> (#[trigger] entries@[j]).0@ == self.entries@[j].0@
                        && entries@[j].1@ == self.entries@[j].1@,
            decreases n - i,
        {
            let k = self.entries[i].0.clone();
            let v = self.entries[i].1.clone();
            proof {
                assert(k@ =~= self.entries@[i as int].0@);
                assert(v@ =~= self.entries@[i as int].1@);
            }
            entries.push((k, v));
            i = i + 1;
        }
        let it = MemIter { entries, pos: n, before: false };
        proof {
            assert(it.entries() =~= self.entry_seq());
        }
        it
    }
}

/// A cursor over a sorted copy of a store's entries.
pub struct MemIter {
    entries: Vec<(Vec<u8>, Vec<u8>)>,
    pos: usize,
    before: bool,
}

impl KvIterator for MemIter {
    closed spec fn entries(&self) -> Seq<(Seq<u8>, Seq<u8>)> {
        self.entries@.map_values(|e: (Vec<u8>, Vec<u8>)| (e.0@, e.1@))
    }

    closed spec fn pos(&self) -> int {
        if self.before {
            -1
        } else {
            self.pos as int
        }
    }

    open spec fn inv(&self) -> bool {
        spec_sorted(self.entries())
    }

    fn valid(&self) -> (r: bool) {
        !self.before && self.pos < self.entries.len()
    }

    fn next(&mut self) -> (r: bool) {
        let n = self.entries.len();
        proof {
            assert(!self.before && self.pos < n);
        }
        self.pos = self.pos + 1;
        self.pos < n
    }

    fn prev(&mut self) -> (r: bool) {
        if self.pos == 0 {
            self.before = true;
            false
        } else {
            self.pos = self.pos - 1;
            true
        }
    }

    fn seek(&mut self, key: &[u8]) -> (r: bool) {
        let ghost s0 = self.entries();
        let n = self.entries.len();
        let mut i: usize = 0;
        while i < n
            invariant
                n == s0.len(),
                self.entries() == s0,
                i <= n,
                forall|j: int| 0 <= j < i ==> !spec_bytes_le(key@, (#[trigger] s0[j]).0),
            ensures
                n == s0.len(),
                self.entries() == s0,
                i <= n,
                forall|j: int| 0 <= j < i ==> !spec_bytes_le(key@, (#[trigger] s0[j]).0),
                i < n ==> spec_bytes_le(key@, s0[i as int].0),
            decreases n - i,
        {
            if bytes_le(key, self.entries[i].0.as_slice()) {
                break ;
            }
            i = i + 1;
        }
        self.before = false;
        self.pos = i;
        proof {
            lemma_seek_pos_char(s0, key@);
            let p = spec_seek_pos(s0, key@);
            if p < i {
                assert(!spec_bytes_le(key@, s0[p].0));
            }
            if (i as int) < p {
                assert(!spec_bytes_le(key@, s0[i as int].0));
            }
        }
        self.pos < n
    }

    fn seek_for_prev(&mut self, key: &[u8]) -> (r: bool) {
        let ghost s0 = self.entries();
        let n = self.entries.len();
        let mut i: usize = n;
        while i > 0
            invariant
                n == s0.len(),
                self.entries() == s0,
                i <= n,
                forall|j: int| i <= j < n ==> !spec_bytes_le((#[trigger] s0[j]).0, key@),
            ensures
                n == s0.len(),
                self.entries() == s0,
                i <= n,
                forall|j: int| i <= j < n ==> !spec_bytes_le((#[trigger] s0[j]).0, key@),
                i > 0 ==> spec_bytes_le(s0[i - 1].0, key@),
            decreases i,
        {
            if bytes_le(self.entries[i - 1].0.as_slice(), key) {
                break ;
            }
            i = i - 1;
        }
        proof {
            lemma_seek_prev_pos_char(s0, key@);
            let p = spec_seek_prev_pos(s0, key@);
            if i > 0 {
                if p < i - 1 {
                    assert(!spec_bytes_le(s0[i - 1].0, key@));
                }
                if p > i - 1 {
                    assert(!spec_bytes_le(s0[p].0, key@));
                }
            } else {
                if p >= 0 {
                    assert(!spec_bytes_le(s0[p].0, key@));
                }
            }
        }
        if i == 0 {
            self.before = true;
            self.pos = 0;
            false
        } else {
            self.before = false;
            self.pos = i - 1;
            true
        }
    }

    fn seek_to_first(&mut self) -> (r: bool) {
        self.before = false;
        self.pos = 0;
        self.pos < self.entries.len()
    }

    fn seek_to_last(&mut self) -> (r: bool) {
        let n = self.entries.len();
        if n == 0 {
            self.before = true;
            self.pos = 0;
            false
        } else {
            self.before = false;
            self.pos = n - 1;
            true
        }
    }

    fn key<'a>(&'a self) -> (r: &'a [u8]) {
        self.entries[self.pos].0.as_slice()
    }

    fn value<'a>(&'a self) -> (r: &'a [u8]) {
        self.entries[self.pos].1.as_slice()
    }
}

} // verus!
