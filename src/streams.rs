//! Stream commands on the keyspace: `XADD`, `XRANGE` and the reading side of
//! `XREAD`.
use vstd::prelude::*;
use vstd::string::StringSliceAdditionalSpecFns;
use crate::decimal::{parse_u64, push_dec, spec_parse_u64};
use crate::keyspace::{entry_view, list_view, pair_views, wrongtype_msg, Keyspace, Outcome, ValueType, ValueView};
use crate::lists::wrong_args;
use crate::resp::{
    array_header, bulk, bulks, concat, error, push_array_header, push_bulk,
    request_frame, views, error_reply, request_bytes,
};
use crate::stream::{
    find_byte_from, id_le, id_lt, id_text, next_id, split_dash, Entry, Stream, StreamError, StreamId,
};
use crate::table::copy_bytes;
use crate::xread_config::{XreadConfig};
use crate::resp::frames_array_reply;
use crate::text::lit;

verus! {

/// The field-value pairs that a flat argument list gives.
pub open spec fn pairs_of(s: Seq<Seq<u8>>) -> Seq<(Seq<u8>, Seq<u8>)> {
    Seq::new(s.len() / 2, |i: int| (s[2 * i], s[2 * i + 1]))
}

pub open spec fn stream_view(s: Stream) -> Seq<(StreamId, Seq<(Seq<u8>, Seq<u8>)>)> {
    s.entries@.map_values(|e: Entry| entry_view(e))
}

pub open spec fn holds_non_stream(values: Map<Seq<u8>, ValueView>, k: Seq<u8>) -> bool {
    values.contains_key(k) && !(values[k] is Stream)
}

pub open spec fn stream_at(values: Map<Seq<u8>, ValueView>, k: Seq<u8>) -> Seq<(StreamId, Seq<(Seq<u8>, Seq<u8>)>)> {
    if values.contains_key(k) && values[k] is Stream {
        values[k]->Stream_0
    } else {
        Seq::empty()
    }
}

pub open spec fn last_of(s: Seq<(StreamId, Seq<(Seq<u8>, Seq<u8>)>)>) -> Option<StreamId> {
    if s.len() == 0 {
        None
    } else {
        Some(s.last().0)
    }
}

pub open spec fn stream_error_text(e: StreamError) -> Seq<u8> {
    match e {
        StreamError::Invalid => "ERR The ID specified in XADD is not valid".spec_bytes(),
        StreamError::NotAboveZero => "ERR The ID specified in XADD must be greater than 0-0".spec_bytes(),
        StreamError::NotAboveTop => "ERR The ID specified in XADD is equal or smaller than the target stream top item".spec_bytes(),
    }
}

fn stream_error_reply(e: StreamError) -> (r: Vec<u8>)
    ensures
        r@ == error(stream_error_text(e)),
{
    match e {
        StreamError::Invalid => error_reply(lit("ERR The ID specified in XADD is not valid")),
        StreamError::NotAboveZero => error_reply(lit("ERR The ID specified in XADD must be greater than 0-0")),
        StreamError::NotAboveTop => error_reply(lit("ERR The ID specified in XADD is equal or smaller than the target stream top item")),
    }
}

/// Pairs up `args[from..]`, which has an even length.
fn collect_pairs(args: &[Vec<u8>], from: usize) -> (r: Vec<(Vec<u8>, Vec<u8>)>)
    requires
        from <= args@.len(),
        (args@.len() - from) % 2 == 0,
    ensures
        pair_views(r@) == pairs_of(views(args@).skip(from as int)),
{
    let ghost src = views(args@).skip(from as int);
    let mut out: Vec<(Vec<u8>, Vec<u8>)> = Vec::new();
    let mut i: usize = from;
    while i < args.len()
        invariant
            from <= i <= args@.len(),
            (i - from) % 2 == 0,
            (args@.len() - from) % 2 == 0,
            src == views(args@).skip(from as int),
            pair_views(out@) == pairs_of(src).take((i - from) / 2),
        decreases args@.len() - i,
    {
        let ghost prev = out@;
        out.push((copy_bytes(args[i].as_slice()), copy_bytes(args[i + 1].as_slice())));
        proof {
            let j = (i - from) / 2;
            assert(i - from == 2 * j);
            assert(src.len() == args@.len() - from);
            assert(pairs_of(src).len() >= j + 1);
            assert(src[2 * j] == args@[i as int]@);
            assert(src[2 * j + 1] == args@[i + 1]@);
            assert(src[2 * j + 1] == args@[i + 1]@);
            assert(pairs_of(src)[j] == (src[2 * j], src[2 * j + 1]));
            assert(pair_views(out@) =~= pair_views(prev).push((args@[i as int]@, args@[i + 1]@)));
            assert(pairs_of(src).take(j + 1) =~= pairs_of(src).take(j).push(pairs_of(src)[j]));
            assert(pair_views(out@) =~= pairs_of(src).take(j + 1));
        }
        i = i + 2;
    }
    assert(pairs_of(src).take((i - from) / 2) =~= pairs_of(src));
    out
}

/// What `XADD key id field value ...` does.
pub open spec fn xadd_post(pre: Keyspace, post: Keyspace, a: Seq<Seq<u8>>, now: u64, r: Outcome) -> bool {
    &&& post.config@ == pre.config@
    &&& a.len() < 4 || a.len() % 2 != 0 ==> r.reply@ == error(wrong_args("xadd"))
            && r.propagate is None && post.db@ == pre.db@
    &&& a.len() >= 4 && a.len() % 2 == 0 ==> ({
            let k = a[0];
            let s = stream_at(pre.values(), k);
            if holds_non_stream(pre.values(), k) {
                r.reply@ == error(wrongtype_msg()) && r.propagate is None && post.db@ == pre.db@
            } else {
                match next_id(last_of(s), a[1], now) {
                    Err(e) => r.reply@ == error(stream_error_text(e)) && r.propagate is None
                        && post.db@ == pre.db@,
                    Ok(nid) => r.propagate matches Some(f) && f@ == request_frame(
                        seq!["XADD".spec_bytes(), k, id_text(nid)] + a.skip(2),
                    ) && r.reply@ == bulk(id_text(nid)) && post.values() == pre.values().insert(
                        k,
                        ValueView::Stream(s.push((nid, pairs_of(a.skip(2))))),
                    ),
                }
            }
    })
}

/// The reply of `XRANGE key start end`.
pub open spec fn xrange_post(values: Map<Seq<u8>, ValueView>, a: Seq<Seq<u8>>, reply: Seq<u8>) -> bool {
    &&& a.len() < 3 ==> reply == error(wrong_args("xrange"))
    &&& a.len() >= 3 ==> reply == if holds_non_stream(values, a[0]) {
            error(wrongtype_msg())
    } else {
            match (range_bound(a[1], false), range_bound(a[2], true)) {
                (Some(start), Some(end)) => entries_frame(
                    stream_at(values, a[0]).filter(
                        |e: (StreamId, Seq<(Seq<u8>, Seq<u8>)>)| id_le(start, e.0) && id_le(e.0, end),
                    ),
                ),
                _ => error("ERR Invalid stream ID specified as stream command argument".spec_bytes()),
            }
    }
}

impl Keyspace {
    /// `XADD key id field value [field value ...]`: appends an entry to the
    /// stream under `key`, creating it when absent; replies the identifier.
    pub fn xadd(&mut self, args: &[Vec<u8>], now: u64) -> (r: Outcome)
        requires
            old(self).wf(),
        ensures
            final(self).wf(),
            xadd_post(*old(self), *final(self), list_view(args@), now, r),
    {
        if args.len() < 4 || args.len() % 2 != 0 {
            return Outcome { reply: crate::lists::wrong_args_reply("xadd"), propagate: None };
        }
        let key = args[0].as_slice();
        let existed = self.db.contains_key(key);
        let mut stream: Stream = match self.db.take(key) {
            None => Stream::new(),
            Some(ValueType::Stream(s)) => s,
            Some(other) => {
                self.db.insert(copy_bytes(key), other);
                proof {
                    assert(self.db@ =~= old(self).db@);
                }
                return Outcome { reply: error_reply(lit("WRONGTYPE Operation against a key holding the wrong kind of value")), propagate: None };
            },
        };
        let ghost s0 = stream_view(stream);
        assert(s0 == stream_at(old(self).values(), args@[0]@));
        assert(stream.last_id() == last_of(s0)) by {
            if s0.len() > 0 {
                assert(s0.last() == entry_view(stream.entries@.last()));
            }
        }
        let kv = collect_pairs(args, 2);
        let ghost kvv = kv;
        match stream.add_entries_at(args[1].as_slice(), kv, now) {
            Ok(text) => {
                proof {
                    let nid = next_id(last_of(s0), args@[1]@, now)->Ok_0;
                    assert(stream_view(stream) =~= s0.push((nid, pairs_of(views(args@).skip(2)))));
                }
                self.db.insert(copy_bytes(key), ValueType::Stream(stream));
                proof {
                    let nid = next_id(last_of(s0), args@[1]@, now)->Ok_0;
                    assert(self.values() =~= old(self).values().insert(args@[0]@, ValueView::Stream(s0.push((nid, pairs_of(views(args@).skip(2)))))));
                }
                let mut fa: Vec<Vec<u8>> = Vec::new();
                fa.push(copy_bytes(lit("XADD")));
                fa.push(copy_bytes(key));
                fa.push(copy_bytes(text.as_slice()));
                let mut i: usize = 2;
                while i < args.len()
                    invariant
                        2 <= i <= args@.len(),
                        views(fa@) == seq!["XADD".spec_bytes(), args@[0]@, text@] + views(args@).skip(2).take(i - 2),
                    decreases args@.len() - i,
                {
                    let ghost prev = fa@;
                    fa.push(copy_bytes(args[i].as_slice()));
                    assert(views(fa@) =~= views(prev).push(args@[i as int]@));
                    assert(views(args@).skip(2).take(i - 1) =~= views(args@).skip(2).take(i - 2).push(args@[i as int]@));
                    i = i + 1;
                }
                assert(views(args@).skip(2).take(i - 2) =~= views(args@).skip(2));
                let frame = request_bytes(&fa);
                Outcome { reply: crate::resp::bulk_string(text.as_slice()), propagate: Some(frame) }
            },
            Err(e) => {
                if existed {
                    self.db.insert(copy_bytes(key), ValueType::Stream(stream));
                    proof {
                        assert(self.db@ =~= old(self).db@);
                    }
                } else {
                    proof {
                        assert(self.db@ =~= old(self).db@);
                    }
                }
                Outcome { reply: stream_error_reply(e), propagate: None }
            },
        }
    }
}

pub open spec fn flat_pairs(p: Seq<(Seq<u8>, Seq<u8>)>) -> Seq<Seq<u8>>
    decreases p.len(),
{
    if p.len() == 0 {
        Seq::empty()
    } else {
        seq![p[0].0, p[0].1] + flat_pairs(p.drop_first())
    }
}

/// `*2`, the identifier, then the fields and values as one array.
pub open spec fn entry_frame(e: (StreamId, Seq<(Seq<u8>, Seq<u8>)>)) -> Seq<u8> {
    array_header(2) + bulk(id_text(e.0)) + array_header(2 * e.1.len()) + bulks(flat_pairs(e.1))
}

/// An array of entries.
pub open spec fn entries_frame(es: Seq<(StreamId, Seq<(Seq<u8>, Seq<u8>)>)>) -> Seq<u8> {
    array_header(es.len()) + concat(es.map_values(|e: (StreamId, Seq<(Seq<u8>, Seq<u8>)>)| entry_frame(e)))
}

proof fn lemma_bulks_two(a: Seq<u8>, b: Seq<u8>, rest: Seq<Seq<u8>>)
    ensures
        bulks(seq![a, b] + rest) == bulk(a) + bulk(b) + bulks(rest),
{
    let s = seq![a, b] + rest;
    assert(s.drop_first() =~= seq![b] + rest);
    assert((seq![b] + rest).drop_first() =~= rest);
    assert(bulks(s) == bulk(a) + bulks(seq![b] + rest));
    assert(bulks(seq![b] + rest) == bulk(b) + bulks(rest));
    assert(bulk(a) + (bulk(b) + bulks(rest)) =~= bulk(a) + bulk(b) + bulks(rest));
}

/// Appends the frame of one entry.
pub fn push_entry(out: &mut Vec<u8>, e: &Entry)
    ensures
        final(out)@ == old(out)@ + entry_frame(entry_view(*e)),
{
    let ghost kv = pair_views(e.key_val@);
    push_array_header(out, 2);
    let mut id: Vec<u8> = Vec::new();
    push_dec(&mut id, e.milisec);
    id.push(45u8);
    push_dec(&mut id, e.sequence_number);
    assert(id@ =~= id_text(e.id()));
    push_bulk(out, id.as_slice());
    let n = e.key_val.len();
    push_array_header_wide(out, 2 * (n as u128));
    let ghost base = out@;
    let mut i: usize = 0;
    assert(kv.skip(0) =~= kv);
    while i < n
        invariant
            i <= n,
            n == e.key_val@.len(),
            kv == pair_views(e.key_val@),
            out@ + bulks(flat_pairs(kv.skip(i as int))) == base + bulks(flat_pairs(kv)),
        decreases n - i,
    {
        let (k, v) = (&e.key_val[i].0, &e.key_val[i].1);
        proof {
            let rest = kv.skip(i as int);
            assert(rest[0] == (k@, v@));
            assert(rest.drop_first() =~= kv.skip(i + 1));
            lemma_bulks_two(k@, v@, flat_pairs(kv.skip(i + 1)));
        }
        push_bulk(out, k.as_slice());
        push_bulk(out, v.as_slice());
        i = i + 1;
        assert(out@ + bulks(flat_pairs(kv.skip(i as int))) =~= base + bulks(flat_pairs(kv)));
    }
    assert(kv.skip(i as int) =~= Seq::<(Seq<u8>, Seq<u8>)>::empty());
    assert(final(out)@ =~= old(out)@ + entry_frame(entry_view(*e)));
}

/// Appends `*<n>\r\n`.
fn push_array_header_wide(out: &mut Vec<u8>, n: u128)
    ensures
        final(out)@ == old(out)@ + array_header(n as nat),
{
    out.push(42u8);
    crate::decimal::push_dec_wide(out, n);
    crate::resp::push_crlf(out);
    assert(final(out)@ =~= old(out)@ + array_header(n as nat));
}

/// Appends the array of entries `s.entries[lo..hi]`.
pub fn push_entries(out: &mut Vec<u8>, s: &Stream, lo: usize, hi: usize)
    requires
        lo <= hi <= s.entries@.len(),
    ensures
        final(out)@ == old(out)@ + entries_frame(stream_view(*s).subrange(lo as int, hi as int)),
{
    let ghost es = stream_view(*s).subrange(lo as int, hi as int);
    let ghost fr = es.map_values(|e: (StreamId, Seq<(Seq<u8>, Seq<u8>)>)| entry_frame(e));
    push_array_header(out, hi - lo);
    let ghost base = out@;
    let mut i: usize = lo;
    assert(fr.skip(0) =~= fr);
    while i < hi
        invariant
            lo <= i <= hi <= s.entries@.len(),
            es == stream_view(*s).subrange(lo as int, hi as int),
            fr == es.map_values(|e: (StreamId, Seq<(Seq<u8>, Seq<u8>)>)| entry_frame(e)),
            out@ + concat(fr.skip(i - lo)) == base + concat(fr),
        decreases hi - i,
    {
        assert(fr.skip(i - lo).drop_first() =~= fr.skip(i + 1 - lo));
        assert(fr[i - lo] == entry_frame(entry_view(s.entries@[i as int])));
        push_entry(out, &s.entries[i]);
        i = i + 1;
        assert(out@ + concat(fr.skip(i - lo)) =~= base + concat(fr));
    }
    assert(fr.skip(i - lo) =~= Seq::<Seq<u8>>::empty());
    assert(final(out)@ =~= old(out)@ + entries_frame(es));
}

/// A bound of `XRANGE`: `-`, `+`, `<ms>` (sequence 0 for a start, the
/// largest for an end) or `<ms>-<seq>`.
pub open spec fn range_bound(t: Seq<u8>, is_end: bool) -> Option<StreamId> {
    if t == seq![45u8] {
        Some((0u64, 0u64))
    } else if t == seq![43u8] {
        Some((u64::MAX, u64::MAX))
    } else {
        match split_dash(t) {
            None => match spec_parse_u64(t) {
                Some(ms) => Some((ms, if is_end { u64::MAX } else { 0u64 })),
                None => None,
            },
            Some((a, b)) => match (spec_parse_u64(a), spec_parse_u64(b)) {
                (Some(ms), Some(sq)) => Some((ms, sq)),
                _ => None,
            },
        }
    }
}

pub fn parse_range_bound(t: &[u8], is_end: bool) -> (r: Option<StreamId>)
    ensures
        r == range_bound(t@, is_end),
{
    if t.len() == 1 && t[0] == 45u8 {
        assert(t@ =~= seq![45u8]);
        return Some((0, 0));
    }
    if t.len() == 1 && t[0] == 43u8 {
        assert(t@ =~= seq![43u8]);
        return Some((u64::MAX, u64::MAX));
    }
    assert(t@ != seq![45u8] && t@ != seq![43u8]) by {
        if t@.len() == 1 {
            assert(t@[0] == seq![45u8][0] ==> t@ =~= seq![45u8]);
        }
    }
    let i = find_byte_from(t, 0, 45u8);
    assert(t@.subrange(0, t@.len() as int) =~= t@);
    if i == t.len() {
        return match parse_u64(t) {
            Some(ms) => Some((ms, if is_end { u64::MAX } else { 0 })),
            None => None,
        };
    }
    let j = find_byte_from(t, i + 1, 45u8);
    if j != t.len() {
        proof {
            crate::stream::lemma_find_byte(t@, 45u8);
            assert(t@[i as int] == 45u8);
            if t@.len() > 0 && t@[0] == 43u8 {
                assert(t@.drop_first()[i - 1] == 45u8);
            }
        }
        return None;
    }
    match (parse_u64(&t[0..i]), parse_u64(&t[i + 1..t.len()])) {
        (Some(ms), Some(sq)) => Some((ms, sq)),
        _ => None,
    }
}

impl Keyspace {
    /// `XRANGE key start end`: the entries whose identifiers lie between the
    /// two bounds, both included.
    pub fn xrange(&self, args: &[Vec<u8>]) -> (r: Vec<u8>)
        requires
            self.wf(),
        ensures
            xrange_post(self.values(), list_view(args@), r@),
    {
        if args.len() < 3 {
            return crate::lists::wrong_args_reply("xrange");
        }
        let empty = Stream::new();
        let s: &Stream = match self.db.get(args[0].as_slice()) {
            None => &empty,
            Some(ValueType::Stream(s)) => s,
            Some(_) => {
                return error_reply(lit("WRONGTYPE Operation against a key holding the wrong kind of value"));
            },
        };
        assert(stream_view(*s) == stream_at(self.values(), args@[0]@)) by {
            assert(stream_view(empty) =~= Seq::<(StreamId, Seq<(Seq<u8>, Seq<u8>)>)>::empty());
        }
        let (start, end) = match (parse_range_bound(args[1].as_slice(), false), parse_range_bound(args[2].as_slice(), true)) {
            (Some(a), Some(b)) => (a, b),
            _ => {
                return error_reply(lit("ERR Invalid stream ID specified as stream command argument"));
            },
        };
        let (lo, hi) = s.range(start, end);
        proof {
            let sv = stream_view(*s);
            assert forall|i: int| 0 <= i < sv.len() implies (lo <= i < hi) == (id_le(start, (#[trigger] sv[i]).0) && id_le(sv[i].0, end)) by {
                assert(sv[i].0 == s.ids()[i]);
            }
            lemma_filter_window(sv, |e: (StreamId, Seq<(Seq<u8>, Seq<u8>)>)| id_le(start, e.0) && id_le(e.0, end), lo as int, hi as int);
        }
        let mut out: Vec<u8> = Vec::new();
        push_entries(&mut out, s, lo, hi);
        out
    }
}

/// Filtering by a predicate that holds exactly on positions `lo..hi` keeps
/// that slice.
pub proof fn lemma_filter_window<A>(s: Seq<A>, pred: spec_fn(A) -> bool, lo: int, hi: int)
    requires
        0 <= lo <= hi <= s.len(),
        forall|i: int| 0 <= i < s.len() ==> (lo <= i < hi) == pred(#[trigger] s[i]),
    ensures
        s.filter(pred) == s.subrange(lo, hi),
    decreases s.len(),
{
    reveal(Seq::filter);
    if s.len() > 0 {
        let n = s.len() - 1;
        let d = s.drop_last();
        assert forall|i: int| 0 <= i < d.len() implies (lo <= i < (if hi > n { n } else { hi })) == pred(#[trigger] d[i]) by {
            assert(d[i] == s[i]);
        }
        if pred(s.last()) {
            assert(s.last() == s[n]);
            lemma_filter_window(d, pred, lo, n);
            assert(s.subrange(lo, n).push(s[n]) =~= s.subrange(lo, hi));
        } else {
            assert(s.last() == s[n]);
            let lo2 = if lo > n { n } else { lo };
            let hi2 = if hi > n { n } else { hi };
            lemma_filter_window(d, pred, lo2, hi2);
            assert(d.subrange(lo2, hi2) =~= s.subrange(lo, hi));
        }
    } else {
        assert(s.subrange(lo, hi) =~= s);
    }
}

pub type StreamSeq = Seq<(StreamId, Seq<(Seq<u8>, Seq<u8>)>)>;

/// The entries that `XREAD` reports for one stream: those above `after`, at
/// most `count` of them.
pub open spec fn xread_part(s: StreamSeq, after: StreamId, count: Option<u64>) -> StreamSeq {
    let es = s.filter(|e: (StreamId, Seq<(Seq<u8>, Seq<u8>)>)| id_lt(after, e.0));
    match count {
        Some(c) => if c < es.len() { es.take(c as int) } else { es },
        None => es,
    }
}

/// One `*2 key entries` frame per stream that has entries to report.
pub open spec fn xread_frames(values: Map<Seq<u8>, ValueView>, keys: Seq<Seq<u8>>, afters: Seq<StreamId>, count: Option<u64>) -> Seq<Seq<u8>>
    decreases keys.len(),
{
    if keys.len() == 0 || afters.len() == 0 {
        Seq::empty()
    } else {
        let part = xread_part(stream_at(values, keys[0]), afters[0], count);
        let rest = xread_frames(values, keys.drop_first(), afters.drop_first(), count);
        if part.len() == 0 {
            rest
        } else {
            seq![array_header(2) + bulk(keys[0]) + entries_frame(part)] + rest
        }
    }
}

/// Where `XREAD` starts reading a stream: after the given identifier, or
/// after the stream's current last entry for `$`.
pub open spec fn resolve_after(values: Map<Seq<u8>, ValueView>, key: Seq<u8>, id: Seq<u8>) -> Option<StreamId> {
    if id == seq![36u8] {
        match last_of(stream_at(values, key)) {
            Some(l) => Some(l),
            None => Some((0u64, 0u64)),
        }
    } else {
        range_bound(id, false)
    }
}

impl Keyspace {
    /// The identifiers to read after, one per stream of `cfg`, taken now:
    /// `$` stands for the last entry at this moment.
    pub fn xread_afters(&self, cfg: &XreadConfig) -> (r: Result<Vec<StreamId>, Vec<u8>>)
        requires
            self.wf(),
        ensures
            match r {
                Ok(v) => v@.len() == cfg.streams@.len() && (forall|i: int| 0 <= i < v@.len() ==>
                    resolve_after(self.values(), cfg.streams@[i].0@, cfg.streams@[i].1@) == Some(#[trigger] v@[i]))
                    && (forall|i: int| 0 <= i < v@.len() ==> !holds_non_stream(self.values(), (#[trigger] cfg.streams@[i]).0@)),
                Err(m) => exists|i: int| 0 <= i < cfg.streams@.len() && (holds_non_stream(self.values(), (#[trigger] cfg.streams@[i]).0@)
                    && m@ == error(wrongtype_msg()) || resolve_after(self.values(), cfg.streams@[i].0@, cfg.streams@[i].1@) is None
                    && m@ == error("ERR Invalid stream ID specified as stream command argument".spec_bytes())),
            },
    {
        let mut out: Vec<StreamId> = Vec::new();
        let mut i: usize = 0;
        while i < cfg.streams.len()
            invariant
                self.wf(),
                i <= cfg.streams@.len(),
                out@.len() == i,
                forall|j: int| 0 <= j < i ==> resolve_after(self.values(), cfg.streams@[j].0@, cfg.streams@[j].1@) == Some(#[trigger] out@[j]),
                forall|j: int| 0 <= j < i ==> !holds_non_stream(self.values(), (#[trigger] cfg.streams@[j]).0@),
            decreases cfg.streams@.len() - i,
        {
            let key = cfg.streams[i].0.as_slice();
            let id = cfg.streams[i].1.as_slice();
            let ghost sv = stream_at(self.values(), key@);
            let last: StreamId = match self.db.get(key) {
                None => {
                    assert(!holds_non_stream(self.values(), key@));
                    assert(last_of(sv) is None);
                    (0, 0)
                },
                Some(ValueType::Stream(s)) => {
                    let n = s.entries.len();
                    assert(sv == stream_view(*s));
                    assert(!holds_non_stream(self.values(), key@));
                    proof {
                        if n > 0 {
                            assert(stream_view(*s).last() == entry_view(s.entries@[n - 1]));
                        }
                    }
                    if n == 0 { (0, 0) } else { (s.entries[n - 1].milisec, s.entries[n - 1].sequence_number) }
                },
                Some(_) => {
                    proof {
                        assert(holds_non_stream(self.values(), cfg.streams@[i as int].0@));
                    }
                    return Err(error_reply(lit("WRONGTYPE Operation against a key holding the wrong kind of value")));
                },
            };
            let after = if id.len() == 1 && id[0] == 36u8 {
                assert(id@ =~= seq![36u8]);
                last
            } else {
                assert(id@ != seq![36u8]) by {
                    if id@.len() == 1 {
                        assert(id@[0] == seq![36u8][0] ==> id@ =~= seq![36u8]);
                    }
                }
                match parse_range_bound(id, false) {
                    Some(b) => b,
                    None => {
                        assert(resolve_after(self.values(), cfg.streams@[i as int].0@, cfg.streams@[i as int].1@) is None);
                        return Err(error_reply(lit("ERR Invalid stream ID specified as stream command argument")));
                    },
                }
            };
            assert(resolve_after(self.values(), key@, id@) == Some(after));
            let ghost prev = out@;
            out.push(after);
            assert(key@ == cfg.streams@[i as int].0@);
            assert(id@ == cfg.streams@[i as int].1@);
            assert(!holds_non_stream(self.values(), cfg.streams@[i as int].0@));
            assert forall|j: int| 0 <= j < i + 1 implies resolve_after(self.values(), cfg.streams@[j].0@, cfg.streams@[j].1@) == Some(#[trigger] out@[j]) by {
                if j < i {
                    assert(out@[j] == prev[j]);
                }
            }
            i = i + 1;
        }
        Ok(out)
    }

    /// One read of `XREAD` over the streams `keys`, after `afters`: the
    /// reply, or `None` when no stream has anything to report.
    pub fn xread_once(&self, keys: &Vec<Vec<u8>>, afters: &Vec<StreamId>, count: Option<u64>) -> (r: Option<Vec<u8>>)
        requires
            self.wf(),
            keys@.len() == afters@.len(),
        ensures
            ({
                let fr = xread_frames(self.values(), views(keys@), afters@, count);
                if fr.len() == 0 {
                    r is None
                } else {
                    r matches Some(v) && v@ == array_header(fr.len()) + concat(fr)
                }
            }),
    {
        let ghost all = xread_frames(self.values(), views(keys@), afters@, count);
        let mut frames: Vec<Vec<u8>> = Vec::new();
        let mut i: usize = 0;
        assert(views(keys@).skip(0) =~= views(keys@));
        assert(afters@.skip(0) =~= afters@);
        while i < keys.len()
            invariant
                self.wf(),
                i <= keys@.len(),
                keys@.len() == afters@.len(),
                all == xread_frames(self.values(), views(keys@), afters@, count),
                views(frames@) + xread_frames(self.values(), views(keys@).skip(i as int), afters@.skip(i as int), count) == all,
            decreases keys@.len() - i,
        {
            let key = keys[i].as_slice();
            let after = afters[i];
            let ghost ks = views(keys@).skip(i as int);
            let ghost afs = afters@.skip(i as int);
            assert(ks.drop_first() =~= views(keys@).skip(i + 1));
            assert(afs.drop_first() =~= afters@.skip(i + 1));
            assert(ks[0] == key@);
            let empty = Stream::new();
            let s: &Stream = match self.db.get(key) {
                Some(ValueType::Stream(s)) => s,
                _ => &empty,
            };
            assert(stream_view(*s) == stream_at(self.values(), key@)) by {
                assert(stream_view(empty) =~= Seq::<(StreamId, Seq<(Seq<u8>, Seq<u8>)>)>::empty());
            }
            let lo = s.range_after(after);
            let n = s.entries.len();
            let hi: usize = match count {
                Some(c) => if (c as u128) < ((n - lo) as u128) { lo + c as usize } else { n },
                None => n,
            };
            proof {
                let sv = stream_view(*s);
                let pred = |e: (StreamId, Seq<(Seq<u8>, Seq<u8>)>)| id_lt(after, e.0);
                assert forall|k: int| 0 <= k < sv.len() implies (lo <= k < n) == pred(#[trigger] sv[k]) by {
                    assert(sv[k].0 == s.ids()[k]);
                }
                lemma_filter_window(sv, pred, lo as int, n as int);
                assert(sv.subrange(lo as int, hi as int) =~= xread_part(sv, after, count));
            }
            if hi > lo {
                let mut f: Vec<u8> = Vec::new();
                push_array_header(&mut f, 2);
                push_bulk(&mut f, key);
                push_entries(&mut f, s, lo, hi);
                let ghost prev = frames@;
                frames.push(f);
                assert(views(frames@) =~= views(prev).push(f@));
                assert(views(frames@) + xread_frames(self.values(), views(keys@).skip(i + 1), afters@.skip(i + 1), count) =~= views(prev) + xread_frames(self.values(), ks, afs, count));
            }
            i = i + 1;
        }
        assert(views(keys@).skip(i as int) =~= Seq::<Seq<u8>>::empty());
        assert(views(frames@) =~= all);
        if frames.len() == 0 {
            None
        } else {
            Some(frames_array_reply(&frames))
        }
    }
}

} // verus!
