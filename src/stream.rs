//! Stream logs: append-only sequences of entries tagged with strictly
//! increasing `(milliseconds, sequence)` identifiers.
use vstd::prelude::*;
use vstd::string::StringSliceAdditionalSpecFns;
use crate::clock::now_ms;
use crate::decimal::{dec, push_dec, parse_u64, spec_parse_u64};

verus! {

pub type StreamId = (u64, u64);

pub open spec fn id_lt(a: StreamId, b: StreamId) -> bool {
    a.0 < b.0 || (a.0 == b.0 && a.1 < b.1)
}

pub open spec fn id_le(a: StreamId, b: StreamId) -> bool {
    a.0 < b.0 || (a.0 == b.0 && a.1 <= b.1)
}

pub fn id_less(a: StreamId, b: StreamId) -> (r: bool)
    ensures
        r == id_lt(a, b),
{
    a.0 < b.0 || (a.0 == b.0 && a.1 < b.1)
}

/// Identifiers strictly increasing from each entry to every later one.
pub open spec fn strictly_increasing(ids: Seq<StreamId>) -> bool {
    forall|i: int, j: int| 0 <= i < j < ids.len() ==> id_lt(#[trigger] ids[i], #[trigger] ids[j])
}

/// The text `<ms>-<seq>`.
pub open spec fn id_text(id: StreamId) -> Seq<u8> {
    dec(id.0 as nat) + seq![45u8] + dec(id.1 as nat)
}

/// One entry of a stream.
pub struct Entry {
    pub milisec: u64,
    pub sequence_number: u64,
    pub key_val: Vec<(Vec<u8>, Vec<u8>)>,
}

impl Entry {
    pub open spec fn id(&self) -> StreamId {
        (self.milisec, self.sequence_number)
    }
}

/// The text of each refusal.
pub open spec fn error_message(e: StreamError) -> Seq<u8> {
    match e {
        StreamError::Invalid => "The ID specified in XADD is not valid".spec_bytes(),
        StreamError::NotAboveZero => "The ID specified in XADD must be greater than 0-0".spec_bytes(),
        StreamError::NotAboveTop => "The ID specified in XADD is equal or smaller than the target stream top item".spec_bytes(),
    }
}

/// Why an identifier given to `add_entries` was refused.
#[derive(PartialEq, Eq, Structural, Clone, Copy, Debug)]
pub enum StreamError {
    /// The identifier is not `*`, `<ms>-*` or `<ms>-<seq>`.
    Invalid,
    /// The identifier is `0-0`.
    NotAboveZero,
    /// The identifier is not above the stream's last one.
    NotAboveTop,
}

impl StreamError {
    /// The error message, as sent to the client after `-ERR `.
    pub fn message(&self) -> (r: &'static str)
        ensures
            r.spec_bytes() == error_message(*self),
    {
        match self {
            StreamError::Invalid => "The ID specified in XADD is not valid",
            StreamError::NotAboveZero => "The ID specified in XADD must be greater than 0-0",
            StreamError::NotAboveTop => "The ID specified in XADD is equal or smaller than the target stream top item",
        }
    }
}

/// Index of the first `b` in `s`, or `s.len()`.
pub open spec fn find_byte(s: Seq<u8>, b: u8) -> int
    decreases s.len(),
{
    if s.len() == 0 {
        0
    } else if s[0] == b {
        0
    } else {
        1 + find_byte(s.drop_first(), b)
    }
}

pub proof fn lemma_find_byte(s: Seq<u8>, b: u8)
    ensures
        0 <= find_byte(s, b) <= s.len(),
        find_byte(s, b) < s.len() ==> s[find_byte(s, b)] == b,
        forall|k: int| 0 <= k < find_byte(s, b) ==> s[k] != b,
    decreases s.len(),
{
    if s.len() > 0 && s[0] != b {
        lemma_find_byte(s.drop_first(), b);
        assert forall|k: int| 0 <= k < find_byte(s, b) implies s[k] != b by {
            if k > 0 {
                assert(s[k] == s.drop_first()[k - 1]);
            }
        }
    }
}

/// Splits `s` at its only `-`; `None` unless it holds exactly one.
pub open spec fn split_dash(s: Seq<u8>) -> Option<(Seq<u8>, Seq<u8>)> {
    let i = find_byte(s, 45u8);
    let tail = s.subrange(i + 1, s.len() as int);
    if i < s.len() && find_byte(tail, 45u8) == tail.len() {
        Some((s.subrange(0, i), tail))
    } else {
        None
    }
}

pub open spec fn is_star(s: Seq<u8>) -> bool {
    s.len() == 1 && s[0] == 42u8
}

/// The identifier that `add_entries` assigns, given the stream's last one and
/// the clock.
pub open spec fn next_id(last: Option<StreamId>, spec_id: Seq<u8>, now: u64) -> Result<StreamId, StreamError> {
    if is_star(spec_id) {
        match last {
            None => Ok((now, if now == 0 { 1u64 } else { 0u64 })),
            Some(l) => if now > l.0 {
                Ok((now, 0))
            } else if l.1 < u64::MAX {
                Ok((l.0, (l.1 + 1) as u64))
            } else {
                Err(StreamError::NotAboveTop)
            },
        }
    } else {
        match split_dash(spec_id) {
            None => Err(StreamError::Invalid),
            Some((ms_text, seq_text)) => match spec_parse_u64(ms_text) {
                None => Err(StreamError::Invalid),
                Some(ms) => if is_star(seq_text) {
                    match last {
                        None => Ok((ms, if ms == 0 { 1u64 } else { 0u64 })),
                        Some(l) => if ms < l.0 {
                            Err(StreamError::NotAboveTop)
                        } else if ms > l.0 {
                            Ok((ms, 0))
                        } else if l.1 < u64::MAX {
                            Ok((ms, (l.1 + 1) as u64))
                        } else {
                            Err(StreamError::NotAboveTop)
                        },
                    }
                } else {
                    match spec_parse_u64(seq_text) {
                        None => Err(StreamError::Invalid),
                        Some(sq) => if ms == 0 && sq == 0 {
                            Err(StreamError::NotAboveZero)
                        } else {
                            match last {
                                Some(l) => if id_lt(l, (ms, sq)) {
                                    Ok((ms, sq))
                                } else {
                                    Err(StreamError::NotAboveTop)
                                },
                                None => Ok((ms, sq)),
                            }
                        },
                    }
                },
            },
        }
    }
}

/// Index of the first `b` in `s[start..]`, or `s.len()`.
pub fn find_byte_from(s: &[u8], start: usize, b: u8) -> (r: usize)
    requires
        start <= s@.len(),
    ensures
        r == start + find_byte(s@.subrange(start as int, s@.len() as int), b),
        r <= s@.len(),
    decreases s@.len() - start,
{
    let ghost t = s@.subrange(start as int, s@.len() as int);
    if start == s.len() {
        start
    } else if s[start] == b {
        start
    } else {
        assert(t.drop_first() =~= s@.subrange(start + 1, s@.len() as int));
        find_byte_from(s, start + 1, b)
    }
}

fn is_star_exec(s: &[u8]) -> (r: bool)
    ensures
        r == is_star(s@),
{
    s.len() == 1 && s[0] == 42u8
}

/// The identifier to assign; see `next_id`.
pub fn compute_next_id(last: Option<StreamId>, spec_id: &[u8], now: u64) -> (r: Result<StreamId, StreamError>)
    ensures
        r == next_id(last, spec_id@, now),
{
    if is_star_exec(spec_id) {
        return match last {
            None => Ok((now, if now == 0 { 1 } else { 0 })),
            Some(l) => if now > l.0 {
                Ok((now, 0))
            } else if l.1 < u64::MAX {
                Ok((l.0, l.1 + 1))
            } else {
                Err(StreamError::NotAboveTop)
            },
        };
    }
    let i = find_byte_from(spec_id, 0, 45u8);
    assert(spec_id@.subrange(0, spec_id@.len() as int) =~= spec_id@);
    if i == spec_id.len() {
        return Err(StreamError::Invalid);
    }
    let j = find_byte_from(spec_id, i + 1, 45u8);
    if j != spec_id.len() {
        return Err(StreamError::Invalid);
    }
    let ms_text = &spec_id[0..i];
    let seq_text = &spec_id[i + 1..spec_id.len()];
    let ms = match parse_u64(ms_text) {
        Some(v) => v,
        None => {
            return Err(StreamError::Invalid);
        },
    };
    if is_star_exec(seq_text) {
        match last {
            None => Ok((ms, if ms == 0 { 1 } else { 0 })),
            Some(l) => if ms < l.0 {
                Err(StreamError::NotAboveTop)
            } else if ms > l.0 {
                Ok((ms, 0))
            } else if l.1 < u64::MAX {
                Ok((ms, l.1 + 1))
            } else {
                Err(StreamError::NotAboveTop)
            },
        }
    } else {
        let sq = match parse_u64(seq_text) {
            Some(v) => v,
            None => {
                return Err(StreamError::Invalid);
            },
        };
        if ms == 0 && sq == 0 {
            return Err(StreamError::NotAboveZero);
        }
        match last {
            Some(l) => if id_less(l, (ms, sq)) {
                Ok((ms, sq))
            } else {
                Err(StreamError::NotAboveTop)
            },
            None => Ok((ms, sq)),
        }
    }
}

/// A stream log.
pub struct Stream {
    pub entries: Vec<Entry>,
}

impl Stream {
    pub open spec fn ids(&self) -> Seq<StreamId> {
        self.entries@.map_values(|e: Entry| e.id())
    }

    pub open spec fn last_id(&self) -> Option<StreamId> {
        if self.entries@.len() == 0 {
            None
        } else {
            Some(self.entries@.last().id())
        }
    }

    /// The identifiers increase strictly along the log.
    pub open spec fn wf(&self) -> bool {
        strictly_increasing(self.ids())
    }

    pub fn new() -> (r: Self)
        ensures
            r.entries@.len() == 0,
            r.wf(),
    {
        Stream { entries: Vec::new() }
    }

    /// Appends an entry under the identifier that `id` asks for, the clock
    /// reading `now_ms` for a `*`; returns the identifier's text.
    pub fn add_entries_at(&mut self, id: &[u8], key_val: Vec<(Vec<u8>, Vec<u8>)>, now_ms: u64) -> (r: Result<Vec<u8>, StreamError>)
        requires
            old(self).wf(),
        ensures
            final(self).wf(),
            match next_id(old(self).last_id(), id@, now_ms) {
                Ok(nid) => r matches Ok(text) && text@ == id_text(nid) && final(self).entries@
                    == old(self).entries@.push(
                    (Entry { milisec: nid.0, sequence_number: nid.1, key_val: key_val }),
                ),
                Err(e) => r == Err::<Vec<u8>, StreamError>(e) && *final(self) == *old(self),
            },
    {
        let last = if self.entries.len() == 0 {
            None
        } else {
            let e = &self.entries[self.entries.len() - 1];
            Some((e.milisec, e.sequence_number))
        };
        match compute_next_id(last, id, now_ms) {
            Ok(nid) => {
                let (ms, sq) = nid;
                let ghost old_ids = self.ids();
                self.entries.push(Entry { milisec: ms, sequence_number: sq, key_val });
                proof {
                    assert(self.ids() =~= old_ids.push(nid));
                    assert forall|i: int, j: int| 0 <= i < j < self.ids().len() implies id_lt(
                        #[trigger] self.ids()[i],
                        #[trigger] self.ids()[j],
                    ) by {
                        if j == old_ids.len() && i < old_ids.len() - 1 {
                            assert(id_lt(old_ids[i], old_ids[old_ids.len() - 1]));
                        }
                    }
                }
                let mut text: Vec<u8> = Vec::new();
                push_dec(&mut text, ms);
                text.push(45u8);
                push_dec(&mut text, sq);
                assert(text@ =~= id_text(nid));
                Ok(text)
            },
            Err(e) => Err(e),
        }
    }

    /// Appends an entry under the identifier that `id` asks for, reading the
    /// clock for a `*`; returns the identifier's text.
    pub fn add_entries(&mut self, id: &[u8], key_val: Vec<(Vec<u8>, Vec<u8>)>) -> (r: Result<Vec<u8>, StreamError>)
        requires
            old(self).wf(),
        ensures
            final(self).wf(),
            exists|now: u64|
                match #[trigger] next_id(old(self).last_id(), id@, now) {
                    Ok(nid) => r matches Ok(text) && text@ == id_text(nid) && final(self).entries@
                        == old(self).entries@.push(
                        (Entry { milisec: nid.0, sequence_number: nid.1, key_val: key_val }),
                    ),
                    Err(e) => r == Err::<Vec<u8>, StreamError>(e) && final(self).entries@ == old(
                        self,
                    ).entries@,
                },
    {
        let now = now_ms();
        self.add_entries_at(id, key_val, now)
    }

    /// Index of the first entry whose identifier is at least `t` (above `t`
    /// when `strict`).
    fn lower_bound(&self, t: StreamId, strict: bool) -> (r: usize)
        requires
            self.wf(),
        ensures
            r <= self.ids().len(),
            forall|i: int|
                0 <= i < self.ids().len() ==> (r <= i <==> if strict {
                    id_lt(t, #[trigger] self.ids()[i])
                } else {
                    id_le(t, self.ids()[i])
                }),
    {
        let ghost ids = self.ids();
        let mut lo: usize = 0;
        let mut hi: usize = self.entries.len();
        while lo < hi
            invariant
                ids == self.ids(),
                self.wf(),
                lo <= hi <= ids.len(),
                ids.len() == self.entries@.len(),
                forall|i: int|
                    0 <= i < lo ==> !(if strict {
                        id_lt(t, #[trigger] ids[i])
                    } else {
                        id_le(t, ids[i])
                    }),
                forall|i: int|
                    hi <= i < ids.len() ==> (if strict {
                        id_lt(t, #[trigger] ids[i])
                    } else {
                        id_le(t, ids[i])
                    }),
            decreases hi - lo,
        {
            let mid = lo + (hi - lo) / 2;
            let e = &self.entries[mid];
            let m: StreamId = (e.milisec, e.sequence_number);
            assert(ids[mid as int] == m);
            let above = if strict {
                id_less(t, m)
            } else {
                !id_less(m, t)
            };
            if above {
                proof {
                    assert forall|i: int| mid <= i < ids.len() implies (if strict {
                        id_lt(t, #[trigger] ids[i])
                    } else {
                        id_le(t, ids[i])
                    }) by {
                        if i > mid {
                            assert(id_lt(ids[mid as int], ids[i]));
                        }
                    }
                }
                hi = mid;
            } else {
                proof {
                    assert forall|i: int| 0 <= i < mid + 1 implies !(if strict {
                        id_lt(t, #[trigger] ids[i])
                    } else {
                        id_le(t, ids[i])
                    }) by {
                        if i < mid {
                            assert(id_lt(ids[i], ids[mid as int]));
                        }
                    }
                }
                lo = mid + 1;
            }
        }
        lo
    }

    /// The entries whose identifiers lie between `start` and `end`, both
    /// included: they are those of the index range returned.
    pub fn range(&self, start: StreamId, end: StreamId) -> (r: (usize, usize))
        requires
            self.wf(),
        ensures
            r.0 <= r.1 <= self.entries@.len(),
            forall|i: int|
                0 <= i < self.entries@.len() ==> (r.0 <= i < r.1 <==> id_le(
                    start,
                    #[trigger] self.ids()[i],
                ) && id_le(self.ids()[i], end)),
    {
        let lo = self.lower_bound(start, false);
        let hi = self.lower_bound(end, true);
        if hi < lo {
            (lo, lo)
        } else {
            (lo, hi)
        }
    }

    /// The entries whose identifiers are at least `start`: those from the
    /// index returned to the end.
    pub fn range_start(&self, start: StreamId) -> (r: usize)
        requires
            self.wf(),
        ensures
            r <= self.entries@.len(),
            forall|i: int|
                0 <= i < self.entries@.len() ==> (r <= i <==> id_le(start, #[trigger] self.ids()[i])),
    {
        self.lower_bound(start, false)
    }

    /// The entries whose identifiers are above `after`: those from the index
    /// returned to the end.
    pub fn range_after(&self, after: StreamId) -> (r: usize)
        requires
            self.wf(),
        ensures
            r <= self.entries@.len(),
            forall|i: int|
                0 <= i < self.entries@.len() ==> (r <= i <==> id_lt(after, #[trigger] self.ids()[i])),
    {
        self.lower_bound(after, true)
    }

    /// The last entry's identifier, `(0, 0)` for an empty stream.
    pub fn last_entry_id(&self) -> (r: Option<StreamId>)
        ensures
            r == Some(match self.last_id() {
                Some(l) => l,
                None => (0u64, 0u64),
            }),
    {
        if self.entries.len() == 0 {
            Some((0, 0))
        } else {
            let e = &self.entries[self.entries.len() - 1];
            Some((e.milisec, e.sequence_number))
        }
    }
}

/// In a well-formed stream each entry's identifier is below the next one's.
pub proof fn lemma_adjacent_ids_increase(s: &Stream, i: int)
    requires
        s.wf(),
        0 <= i,
        i + 1 < s.entries@.len(),
    ensures
        id_lt(s.entries@[i].id(), s.entries@[i + 1].id()),
{
    assert(s.ids()[i] == s.entries@[i].id());
    assert(s.ids()[i + 1] == s.entries@[i + 1].id());
}

/// In a well-formed stream the range from an entry's identifier to itself
/// holds that entry and no other.
pub proof fn lemma_own_range_is_single(s: &Stream, k: int)
    requires
        s.wf(),
        0 <= k < s.entries@.len(),
    ensures
        forall|i: int|
            0 <= i < s.entries@.len() ==> (id_le(s.ids()[k], #[trigger] s.ids()[i]) && id_le(
                s.ids()[i],
                s.ids()[k],
            ) <==> i == k),
{
    assert forall|i: int| 0 <= i < s.entries@.len() implies (id_le(
        s.ids()[k],
        #[trigger] s.ids()[i],
    ) && id_le(s.ids()[i], s.ids()[k]) <==> i == k) by {
        if i < k {
            assert(id_lt(s.ids()[i], s.ids()[k]));
        } else if i > k {
            assert(id_lt(s.ids()[k], s.ids()[i]));
        }
    }
}

/// After an entry is appended, the range from its identifier to itself holds
/// exactly the new entry, the last one.
pub proof fn lemma_added_entry_ranges_alone(before: &Stream, after: &Stream, id: Seq<u8>, now: u64)
    requires
        before.wf(),
        after.wf(),
        next_id(before.last_id(), id, now) is Ok,
        after.entries@.len() == before.entries@.len() + 1,
        after.entries@.last().id() == next_id(before.last_id(), id, now)->Ok_0,
    ensures
        forall|i: int|
            0 <= i < after.entries@.len() ==> (id_le(
                next_id(before.last_id(), id, now)->Ok_0,
                #[trigger] after.ids()[i],
            ) && id_le(after.ids()[i], next_id(before.last_id(), id, now)->Ok_0) <==> i
                == before.entries@.len()),
{
    let k = before.entries@.len() as int;
    assert(after.ids()[k] == after.entries@.last().id());
    lemma_own_range_is_single(after, k);
}

} // verus!
