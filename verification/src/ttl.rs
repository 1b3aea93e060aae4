//! Time-to-live filtering over a key-value snapshot: every stored value
//! carries its expiry timestamp in its last eight bytes (big endian, 0 for
//! "never"), and reads hide entries whose expiry lies before the current
//! time, stripping the timestamp from what they return.

use vstd::prelude::*;

use crate::kv::{spec_seek_pos, spec_seek_prev_pos, KvIterator, Snapshot};

verus! {

/// An error raised by the TTL layer itself: a stored value too short to
/// carry the eight-byte expiry timestamp.
#[derive(Clone, Copy, PartialEq, Eq, Debug)]
pub enum TtlError {
    ValueTooShort,
}

/// The eight big-endian bytes of a timestamp.
pub open spec fn spec_be_bytes(ts: u64) -> Seq<u8> {
    seq![
        (ts >> 56u64) as u8,
        (ts >> 48u64) as u8,
        (ts >> 40u64) as u8,
        (ts >> 32u64) as u8,
        (ts >> 24u64) as u8,
        (ts >> 16u64) as u8,
        (ts >> 8u64) as u8,
        ts as u8,
    ]
}

/// The timestamp eight big-endian bytes hold.
pub open spec fn spec_be_u64(b: Seq<u8>) -> u64
    recommends
        b.len() == 8,
{
    (((b[0] as u64) << 56u64) | ((b[1] as u64) << 48u64) | ((b[2] as u64) << 40u64) | ((
    b[3] as u64) << 32u64) | ((b[4] as u64) << 24u64) | ((b[5] as u64) << 16u64) | ((
    b[6] as u64) << 8u64) | (b[7] as u64)) as u64
}

/// Writing a timestamp and reading it back is the identity.
pub proof fn lemma_be_round_trip(ts: u64)
    ensures
        spec_be_u64(spec_be_bytes(ts)) == ts,
{
    assert((((((ts >> 56u64) as u8) as u64) << 56u64) | ((((ts >> 48u64) as u8) as u64) << 48u64)
        | ((((ts >> 40u64) as u8) as u64) << 40u64) | ((((ts >> 32u64) as u8) as u64) << 32u64)
        | ((((ts >> 24u64) as u8) as u64) << 24u64) | ((((ts >> 16u64) as u8) as u64) << 16u64)
        | ((((ts >> 8u64) as u8) as u64) << 8u64) | ((ts as u8) as u64)) == ts) by (bit_vector);
}

/// The expiry timestamp a stored value carries in its last eight bytes.
pub open spec fn spec_expire_ts(v: Seq<u8>) -> u64
    recommends
        v.len() >= 8,
{
    spec_be_u64(v.subrange(v.len() - 8, v.len() as int))
}

/// The user data of a stored value: everything before the timestamp.
pub open spec fn spec_strip(v: Seq<u8>) -> Seq<u8>
    recommends
        v.len() >= 8,
{
    v.subrange(0, v.len() - 8)
}

/// Whether a stored value is expired at time `now`: a timestamp of 0 means
/// "never expires".
pub open spec fn spec_expired(v: Seq<u8>, now: u64) -> bool
    recommends
        v.len() >= 8,
{
    spec_expire_ts(v) != 0 && spec_expire_ts(v) < now
}

/// Append the expiry timestamp to a user value, making it a stored value.
pub fn append_expire_ts(value: &mut Vec<u8>, expire_ts: u64)
    requires
        old(value)@.len() + 8 <= usize::MAX,
    ensures
        final(value)@ == old(value)@ + spec_be_bytes(expire_ts),
        spec_strip(final(value)@) == old(value)@,
        spec_expire_ts(final(value)@) == expire_ts,
{
    value.push((expire_ts >> 56) as u8);
    value.push((expire_ts >> 48) as u8);
    value.push((expire_ts >> 40) as u8);
    value.push((expire_ts >> 32) as u8);
    value.push((expire_ts >> 24) as u8);
    value.push((expire_ts >> 16) as u8);
    value.push((expire_ts >> 8) as u8);
    value.push(expire_ts as u8);
    proof {
        assert(value@ =~= old(value)@ + spec_be_bytes(expire_ts));
        assert(spec_strip(value@) =~= old(value)@);
        assert(value@.subrange(value@.len() - 8, value@.len() as int) =~= spec_be_bytes(
            expire_ts,
        ));
        lemma_be_round_trip(expire_ts);
    }
}

/// Read the expiry timestamp out of a stored value; a value too short to
/// carry one is malformed.
pub fn get_expire_ts(value: &[u8]) -> (r: Result<u64, TtlError>)
    ensures
        value@.len() >= 8 ==> r == Ok::<u64, TtlError>(spec_expire_ts(value@)),
        value@.len() < 8 ==> r == Err::<u64, TtlError>(TtlError::ValueTooShort),
{
    let n = value.len();
    if n < 8 {
        return Err(TtlError::ValueTooShort);
    }
    let r = ((value[n - 8] as u64) << 56) | ((value[n - 7] as u64) << 48) | ((value[n
        - 6] as u64) << 40) | ((value[n - 5] as u64) << 32) | ((value[n - 4] as u64) << 24) | ((
    value[n - 3] as u64) << 16) | ((value[n - 2] as u64) << 8) | (value[n - 1] as u64);
    proof {
        let b = value@.subrange(value@.len() - 8, value@.len() as int);
        assert(b[0] == value@[n - 8] && b[1] == value@[n - 7] && b[2] == value@[n - 6] && b[3]
            == value@[n - 5] && b[4] == value@[n - 4] && b[5] == value@[n - 3] && b[6] == value@[n
            - 2] && b[7] == value@[n - 1]);
    }
    Ok(r)
}

/// Cut the expiry timestamp off a stored value, in place.
pub fn truncate_expire_ts(value: &mut Vec<u8>) -> (r: Result<(), TtlError>)
    ensures
        old(value)@.len() >= 8 ==> r == Ok::<(), TtlError>(()) && final(value)@ == spec_strip(
            old(value)@,
        ),
        old(value)@.len() < 8 ==> r == Err::<(), TtlError>(TtlError::ValueTooShort)
            && final(value)@ == old(value)@,
{
    let n = value.len();
    if n < 8 {
        return Err(TtlError::ValueTooShort);
    }
    value.truncate(n - 8);
    proof {
        assert(value@ =~= spec_strip(old(value)@));
    }
    Ok(())
}

/// Cut the expiry timestamp off a stored value, borrowing.
pub fn strip_expire_ts(value: &[u8]) -> (r: &[u8])
    requires
        value@.len() >= 8,
    ensures
        r@ == spec_strip(value@),
{
    let r = &value[0..value.len() - 8];
    proof {
        assert(r@ =~= spec_strip(value@));
    }
    r
}

/// A TTL-filtering wrapper around a snapshot: reads hide expired entries and
/// return user data without the trailing timestamp. The current time is
/// fixed at construction; obtaining it from a clock is the caller's concern.
pub struct TTLSnapshot<S: Snapshot> {
    s: S,
    current_ts: u64,
}

impl<S: Snapshot> TTLSnapshot<S> {
    /// The wrapped snapshot's contents.
    pub closed spec fn inner(self) -> Map<Seq<u8>, Seq<u8>> {
        self.s.view()
    }

    /// The time this snapshot filters against.
    pub closed spec fn ts(self) -> u64 {
        self.current_ts
    }

    /// Wrap a snapshot, filtering against the given current time (seconds).
    pub fn new(s: S, current_ts: u64) -> (r: TTLSnapshot<S>)
        ensures
            r.inner() == s.view(),
            r.ts() == current_ts,
            r.inv() == s.inv(),
    {
        TTLSnapshot { s, current_ts }
    }

    /// Whether the wrapped snapshot upholds its invariant.
    pub closed spec fn inv(self) -> bool {
        self.s.inv()
    }

    /// The time this snapshot filters against.
    pub fn current_ts(&self) -> (r: u64)
        ensures
            r == self.ts(),
    {
        self.current_ts
    }

    /// Look a key up: an expired entry reads as absent, a live one comes
    /// back without its timestamp, and a stored value too short to carry a
    /// timestamp is an error.
    pub fn get(&self, key: &[u8]) -> (r: Result<Option<Vec<u8>>, TtlError>)
        ensures
            match r {
                Ok(Some(v)) => self.inner().contains_key(key@) && self.inner()[key@].len() >= 8
                    && !spec_expired(self.inner()[key@], self.ts()) && v@ == spec_strip(
                    self.inner()[key@],
                ),
                Ok(None) => !self.inner().contains_key(key@) || (self.inner()[key@].len() >= 8
                    && spec_expired(self.inner()[key@], self.ts())),
                Err(e) => e == TtlError::ValueTooShort && self.inner().contains_key(key@)
                    && self.inner()[key@].len() < 8,
            },
    {
        let got = self.s.get(key);
        match got {
            None => Ok(None),
            Some(mut v) => {
                let expire_ts = match get_expire_ts(v.as_slice()) {
                    Ok(ts) => ts,
                    Err(e) => {
                        return Err(e);
                    },
                };
                if expire_ts != 0 && expire_ts < self.current_ts {
                    return Ok(None);
                }
                match truncate_expire_ts(&mut v) {
                    Ok(_) => Ok(Some(v)),
                    Err(e) => Err(e),
                }
            },
        }
    }
}

/// Whether an entry is hidden by the TTL filter: well formed, but expired.
pub open spec fn spec_entry_expired(e: (Seq<u8>, Seq<u8>), now: u64) -> bool {
    e.1.len() >= 8 && spec_expired(e.1, now)
}

/// The first position at or after `p` that the filter does not hide (the
/// length when none is left). A malformed value — too short for a timestamp
/// — is not hidden: the scan stops on it and reading it errors.
pub open spec fn spec_scan_fwd(entries: Seq<(Seq<u8>, Seq<u8>)>, now: u64, p: int) -> int
    recommends
        0 <= p <= entries.len(),
    decreases entries.len() - p,
    when p <= entries.len()
{
    if p < 0 || p >= entries.len() {
        entries.len() as int
    } else if spec_entry_expired(entries[p], now) {
        spec_scan_fwd(entries, now, p + 1)
    } else {
        p
    }
}

/// The first position at or before `p` that the filter does not hide (-1
/// when none is left).
pub open spec fn spec_scan_bwd(entries: Seq<(Seq<u8>, Seq<u8>)>, now: u64, p: int) -> int
    recommends
        -1 <= p < entries.len(),
    decreases p + 1,
    when -1 <= p
{
    if p < 0 || p >= entries.len() {
        -1
    } else if spec_entry_expired(entries[p], now) {
        spec_scan_bwd(entries, now, p - 1)
    } else {
        p
    }
}

/// A TTL-filtering cursor: every positioning operation of the underlying
/// cursor is followed by a scan that skips expired entries in the operation's
/// direction, and values are returned without their timestamp.
pub struct TTLIterator<I: KvIterator> {
    i: I,
    current_ts: u64,
}

impl<I: KvIterator> TTLIterator<I> {
    /// The underlying entries, timestamps included.
    pub closed spec fn entries(self) -> Seq<(Seq<u8>, Seq<u8>)> {
        self.i.entries()
    }

    /// The underlying cursor position.
    pub closed spec fn pos(self) -> int {
        self.i.pos()
    }

    /// The time this cursor filters against.
    pub closed spec fn ts(self) -> u64 {
        self.current_ts
    }

    /// Whether the underlying cursor upholds its implementation's invariant.
    pub closed spec fn inv(self) -> bool {
        self.i.inv()
    }

    /// Wrap a cursor, filtering against the given current time (seconds).
    pub fn new(i: I, current_ts: u64) -> (r: TTLIterator<I>)
        ensures
            r.entries() == i.entries(),
            r.pos() == i.pos(),
            r.ts() == current_ts,
            r.inv() == i.inv(),
    {
        TTLIterator { i, current_ts }
    }

    /// What one filtered positioning step guarantees: the cursor lands on
    /// the scan's stop position, and the result reports a live entry, the
    /// end, or a malformed value.
    pub open spec fn spec_scan_result(
        entries: Seq<(Seq<u8>, Seq<u8>)>,
        now: u64,
        q: int,
        r: Result<bool, TtlError>,
    ) -> bool {
        if 0 <= q < entries.len() {
            if entries[q].1.len() >= 8 {
                r == Ok::<bool, TtlError>(true) && !spec_expired(entries[q].1, now)
            } else {
                r == Err::<bool, TtlError>(TtlError::ValueTooShort)
            }
        } else {
            r == Ok::<bool, TtlError>(false)
        }
    }

    /// Skip expired entries in the given direction until a live entry, a
    /// malformed value, or the end of the range.
    fn find_valid_value(&mut self, res: bool, forward: bool) -> (r: Result<bool, TtlError>)
        requires
            res == (0 <= old(self).pos() < old(self).entries().len()),
            forward ==> 0 <= old(self).pos() <= old(self).entries().len(),
            !forward ==> -1 <= old(self).pos() < old(self).entries().len(),
        ensures
            final(self).entries() == old(self).entries(),
            final(self).ts() == old(self).ts(),
            final(self).inv() == old(self).inv(),
            final(self).pos() == if forward {
                spec_scan_fwd(old(self).entries(), old(self).ts(), old(self).pos())
            } else {
                spec_scan_bwd(old(self).entries(), old(self).ts(), old(self).pos())
            },
            Self::spec_scan_result(
                old(self).entries(),
                old(self).ts(),
                final(self).pos(),
                r,
            ),
    {
        let ghost e0 = self.i.entries();
        let ghost ts0 = self.current_ts;
        let ghost p0 = self.i.pos();
        let ghost inv0 = self.i.inv();
        let mut valid = res;
        loop
            invariant
                e0 == old(self).entries(),
                ts0 == old(self).ts(),
                p0 == old(self).pos(),
                inv0 == old(self).inv(),
                res == (0 <= p0 < e0.len()),
                forward ==> 0 <= p0 <= e0.len(),
                !forward ==> -1 <= p0 < e0.len(),
                self.i.entries() == e0,
                self.current_ts == ts0,
                self.i.inv() == inv0,
                valid == (0 <= self.i.pos() < e0.len()),
                forward ==> 0 <= self.i.pos() <= e0.len(),
                !forward ==> -1 <= self.i.pos() < e0.len(),
                forward ==> spec_scan_fwd(e0, ts0, self.i.pos()) == spec_scan_fwd(e0, ts0, p0),
                !forward ==> spec_scan_bwd(e0, ts0, self.i.pos()) == spec_scan_bwd(e0, ts0, p0),
            ensures
                self.i.entries() == e0,
                self.current_ts == ts0,
                self.i.inv() == inv0,
                valid == (0 <= self.i.pos() < e0.len()),
                self.i.pos() == if forward {
                    spec_scan_fwd(e0, ts0, p0)
                } else {
                    spec_scan_bwd(e0, ts0, p0)
                },
                valid ==> e0[self.i.pos()].1.len() >= 8 && !spec_expired(
                    e0[self.i.pos()].1,
                    ts0,
                ),
            decreases (if forward {
                e0.len() - self.i.pos()
            } else {
                self.i.pos() + 1
            }),
        {
            if !valid {
                break ;
            }
            let v = self.i.value();
            let expire_ts = match get_expire_ts(v) {
                Ok(ts) => ts,
                Err(e) => {
                    return Err(e);
                },
            };
            if expire_ts != 0 && expire_ts < self.current_ts {
                if forward {
                    valid = self.i.next();
                } else {
                    valid = self.i.prev();
                }
            } else {
                break ;
            }
        }
        Ok(valid)
    }

    /// Step to the next live entry.
    pub fn next(&mut self) -> (r: Result<bool, TtlError>)
        requires
            0 <= old(self).pos() < old(self).entries().len(),
        ensures
            final(self).entries() == old(self).entries(),
            final(self).ts() == old(self).ts(),
            final(self).inv() == old(self).inv(),
            final(self).pos() == spec_scan_fwd(
                old(self).entries(),
                old(self).ts(),
                old(self).pos() + 1,
            ),
            Self::spec_scan_result(
                old(self).entries(),
                old(self).ts(),
                final(self).pos(),
                r,
            ),
    {
        let valid = self.i.next();
        self.find_valid_value(valid, true)
    }

    /// Step to the previous live entry.
    pub fn prev(&mut self) -> (r: Result<bool, TtlError>)
        requires
            0 <= old(self).pos() < old(self).entries().len(),
        ensures
            final(self).entries() == old(self).entries(),
            final(self).ts() == old(self).ts(),
            final(self).inv() == old(self).inv(),
            final(self).pos() == spec_scan_bwd(
                old(self).entries(),
                old(self).ts(),
                old(self).pos() - 1,
            ),
            Self::spec_scan_result(
                old(self).entries(),
                old(self).ts(),
                final(self).pos(),
                r,
            ),
    {
        let valid = self.i.prev();
        self.find_valid_value(valid, false)
    }

    /// Jump to the first live entry at or after `key` (under the underlying
    /// cursor's invariant).
    pub fn seek(&mut self, key: &[u8]) -> (r: Result<bool, TtlError>)
        ensures
            final(self).entries() == old(self).entries(),
            final(self).ts() == old(self).ts(),
            final(self).inv() == old(self).inv(),
            old(self).inv() ==> final(self).pos() == spec_scan_fwd(
                old(self).entries(),
                old(self).ts(),
                spec_seek_pos(old(self).entries(), key@),
            ) && Self::spec_scan_result(
                old(self).entries(),
                old(self).ts(),
                final(self).pos(),
                r,
            ),
    {
        let valid = self.i.seek(key);
        self.find_valid_value(valid, true)
    }

    /// Jump to the last live entry at or before `key` (under the underlying
    /// cursor's invariant).
    pub fn seek_for_prev(&mut self, key: &[u8]) -> (r: Result<bool, TtlError>)
        ensures
            final(self).entries() == old(self).entries(),
            final(self).ts() == old(self).ts(),
            final(self).inv() == old(self).inv(),
            old(self).inv() ==> final(self).pos() == spec_scan_bwd(
                old(self).entries(),
                old(self).ts(),
                spec_seek_prev_pos(old(self).entries(), key@),
            ) && Self::spec_scan_result(
                old(self).entries(),
                old(self).ts(),
                final(self).pos(),
                r,
            ),
    {
        let valid = self.i.seek_for_prev(key);
        self.find_valid_value(valid, false)
    }

    /// Jump to the first live entry.
    pub fn seek_to_first(&mut self) -> (r: Result<bool, TtlError>)
        ensures
            final(self).entries() == old(self).entries(),
            final(self).ts() == old(self).ts(),
            final(self).inv() == old(self).inv(),
            final(self).pos() == spec_scan_fwd(old(self).entries(), old(self).ts(), 0),
            Self::spec_scan_result(
                old(self).entries(),
                old(self).ts(),
                final(self).pos(),
                r,
            ),
    {
        let valid = self.i.seek_to_first();
        self.find_valid_value(valid, true)
    }

    /// Jump to the last live entry.
    pub fn seek_to_last(&mut self) -> (r: Result<bool, TtlError>)
        ensures
            final(self).entries() == old(self).entries(),
            final(self).ts() == old(self).ts(),
            final(self).inv() == old(self).inv(),
            final(self).pos() == spec_scan_bwd(
                old(self).entries(),
                old(self).ts(),
                old(self).entries().len() - 1,
            ),
            Self::spec_scan_result(
                old(self).entries(),
                old(self).ts(),
                final(self).pos(),
                r,
            ),
    {
        let valid = self.i.seek_to_last();
        self.find_valid_value(valid, false)
    }

    /// Whether the cursor stands on an entry.
    pub fn valid(&self) -> (r: bool)
        ensures
            r == (0 <= self.pos() < self.entries().len()),
    {
        self.i.valid()
    }

    /// The key under the cursor.
    pub fn key<'a>(&'a self) -> (r: &'a [u8])
        requires
            0 <= self.pos() < self.entries().len(),
        ensures
            r@ == self.entries()[self.pos()].0,
    {
        self.i.key()
    }

    /// The user data under the cursor, without its timestamp.
    pub fn value<'a>(&'a self) -> (r: &'a [u8])
        requires
            0 <= self.pos() < self.entries().len(),
            self.entries()[self.pos()].1.len() >= 8,
        ensures
            r@ == spec_strip(self.entries()[self.pos()].1),
    {
        strip_expire_ts(self.i.value())
    }
}

impl<S: Snapshot> TTLSnapshot<S> {
    /// A TTL-filtering cursor over this snapshot's entries, initially not
    /// valid; under the snapshot's invariant the underlying entries are its
    /// contents in ascending key order.
    pub fn iter(&self) -> (it: TTLIterator<S::Iter>)
        ensures
            it.ts() == self.ts(),
            it.inv() == self.inv(),
            it.pos() == it.entries().len(),
            self.inv() ==> crate::kv::spec_sorted(it.entries()) && crate::kv::spec_entries_map(
                it.entries(),
            ) == self.inner(),
    {
        TTLIterator { i: self.s.iter(), current_ts: self.current_ts }
    }
}

} // verus!
