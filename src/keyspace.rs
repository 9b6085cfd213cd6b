//! The keyspace: keys mapped to typed values, with a parallel map from keys
//! to expiry settings, and the commands that read and write plain keys.
use vstd::prelude::*;
use vstd::string::StringSliceAdditionalSpecFns;
use crate::config::{expired_at, Config};
use crate::resp::{bulk, error, null_bulk, simple, bulk_string, error_reply, null_bulk_string, simple_string, integer, integer_reply};
use crate::stream::{Entry, Stream, StreamId};
use crate::table::{copy_bytes, Table};
use crate::decimal::{dec_int, parse_i64, push_dec_i64, spec_parse_i64, spec_parse_u64, parse_u64};
use crate::resp::{array, request_bytes, request_frame, string_array_reply, views};
use crate::text::{eq_word, is_word, lit};
use crate::utils::{is_matched, spec_matches};
use crate::zset::{Item, ZSet};

verus! {

/// A value held under a key.
pub enum ValueType {
    String(Vec<u8>),
    Stream(Stream),
    List(Vec<Vec<u8>>),
    ZSet(ZSet),
    StrSet(Vec<Vec<u8>>),
    Hash(Vec<(Vec<u8>, Vec<u8>)>),
    /// Vectors of 32-bit floats, each held as its bit pattern.
    VectorSet(Vec<Vec<u32>>),
}

/// What a value holds, as plain sequences.
pub enum ValueView {
    String(Seq<u8>),
    Stream(Seq<(StreamId, Seq<(Seq<u8>, Seq<u8>)>)>),
    List(Seq<Seq<u8>>),
    ZSet(Seq<Item>),
    StrSet(Seq<Seq<u8>>),
    Hash(Seq<(Seq<u8>, Seq<u8>)>),
    VectorSet(Seq<Seq<u32>>),
}

pub open spec fn pair_views(s: Seq<(Vec<u8>, Vec<u8>)>) -> Seq<(Seq<u8>, Seq<u8>)> {
    s.map_values(|p: (Vec<u8>, Vec<u8>)| (p.0@, p.1@))
}

pub open spec fn entry_view(e: Entry) -> (StreamId, Seq<(Seq<u8>, Seq<u8>)>) {
    (e.id(), pair_views(e.key_val@))
}

pub open spec fn list_view(s: Seq<Vec<u8>>) -> Seq<Seq<u8>> {
    s.map_values(|b: Vec<u8>| b@)
}

impl View for ValueType {
    type V = ValueView;

    open spec fn view(&self) -> ValueView {
        match self {
            ValueType::String(s) => ValueView::String(s@),
            ValueType::Stream(s) => ValueView::Stream(s.entries@.map_values(|e: Entry| entry_view(e))),
            ValueType::List(l) => ValueView::List(list_view(l@)),
            ValueType::ZSet(z) => ValueView::ZSet(z@),
            ValueType::StrSet(l) => ValueView::StrSet(list_view(l@)),
            ValueType::Hash(h) => ValueView::Hash(pair_views(h@)),
            ValueType::VectorSet(v) => ValueView::VectorSet(v@.map_values(|x: Vec<u32>| x@)),
        }
    }
}

/// The name that `TYPE` reports for a value.
pub open spec fn type_tag(v: ValueView) -> Seq<u8> {
    match v {
        ValueView::String(_) => "string".spec_bytes(),
        ValueView::List(_) => "list".spec_bytes(),
        ValueView::StrSet(_) => "set".spec_bytes(),
        ValueView::ZSet(_) => "zset".spec_bytes(),
        ValueView::Hash(_) => "hash".spec_bytes(),
        ValueView::Stream(_) => "stream".spec_bytes(),
        ValueView::VectorSet(_) => "vectorset".spec_bytes(),
    }
}

impl ValueType {
    /// The structure's own invariant, for the kinds that have one.
    pub open spec fn wf(&self) -> bool {
        match self {
            ValueType::Stream(s) => s.wf(),
            ValueType::ZSet(z) => z.wf(),
            _ => true,
        }
    }

    pub fn kind_name(&self) -> (r: &'static str)
        ensures
            r.spec_bytes() == type_tag(self@),
    {
        match self {
            ValueType::String(_) => "string",
            ValueType::List(_) => "list",
            ValueType::StrSet(_) => "set",
            ValueType::ZSet(_) => "zset",
            ValueType::Hash(_) => "hash",
            ValueType::Stream(_) => "stream",
            ValueType::VectorSet(_) => "vectorset",
        }
    }
}

pub open spec fn wrongtype_msg() -> Seq<u8> {
    "WRONGTYPE Operation against a key holding the wrong kind of value".spec_bytes()
}

pub open spec fn not_integer_msg() -> Seq<u8> {
    "ERR value is not an integer or out of range".spec_bytes()
}

/// The reply of `GET` on a key that has not expired.
pub open spec fn get_reply(values: Map<Seq<u8>, ValueView>, k: Seq<u8>) -> Seq<u8> {
    if !values.contains_key(k) {
        null_bulk()
    } else {
        match values[k] {
            ValueView::String(v) => bulk(v),
            _ => error(wrongtype_msg()),
        }
    }
}

/// The expiry that the options after `SET key value` ask for: the absolute
/// time, whether it was given in seconds, and the amount's text. The last
/// `EX`/`PX` option wins; the first other word ends the options.
pub open spec fn set_expiry(opts: Seq<Seq<u8>>, now: u64) -> Result<Option<(u64, bool, Seq<u8>)>, Seq<u8>>
    decreases opts.len(),
{
    if opts.len() == 0 {
        Ok(None)
    } else if is_word(opts[0], "ex") || is_word(opts[0], "px") {
        if opts.len() < 2 {
            Err("ERR syntax error".spec_bytes())
        } else {
            match spec_parse_u64(opts[1]) {
                None => Err(not_integer_msg()),
                Some(n) => {
                    let secs = is_word(opts[0], "ex");
                    let delta: int = if secs { n * 1000 } else { n as int };
                    if now + delta > u64::MAX {
                        Err("ERR invalid expire time in 'set' command".spec_bytes())
                    } else {
                        match set_expiry(opts.skip(2), now) {
                            Ok(None) => Ok(Some(((now + delta) as u64, secs, opts[1]))),
                            later => later,
                        }
                    }
                },
            }
        }
    } else {
        Ok(None)
    }
}

/// Reads the `SET` options from `opts[i..]`; see `set_expiry`.
fn parse_set_options(opts: &[Vec<u8>], i: usize, now: u64) -> (r: Result<Option<(u64, bool, usize)>, &'static str>)
    requires
        i <= opts@.len(),
    ensures
        match (r, set_expiry(list_view(opts@).skip(i as int), now)) {
            (Ok(None), Ok(None)) => true,
            (Ok(Some((t, secs, j))), Ok(Some((t2, secs2, text)))) => t == t2 && secs == secs2 && i
                < j < opts@.len() && opts@[j as int]@ == text,
            (Err(m), Err(m2)) => m.spec_bytes() == m2,
            _ => false,
        },
    decreases opts@.len() - i,
{
    let ghost o = list_view(opts@).skip(i as int);
    if i == opts.len() {
        return Ok(None);
    }
    assert(o[0] == opts@[i as int]@);
    let is_ex = eq_word(opts[i].as_slice(), "ex");
    if !is_ex && !eq_word(opts[i].as_slice(), "px") {
        return Ok(None);
    }
    if opts.len() - i < 2 {
        return Err("ERR syntax error");
    }
    assert(o[1] == opts@[i + 1]@);
    let n = match parse_u64(opts[i + 1].as_slice()) {
        Some(n) => n,
        None => {
            return Err("ERR value is not an integer or out of range");
        },
    };
    let delta: u128 = if is_ex { (n as u128) * 1000 } else { n as u128 };
    if (now as u128) + delta > u64::MAX as u128 {
        return Err("ERR invalid expire time in 'set' command");
    }
    assert(o.skip(2) =~= list_view(opts@).skip(i + 2));
    match parse_set_options(opts, i + 2, now) {
        Ok(None) => Ok(Some(((now as u128 + delta) as u64, is_ex, i + 1))),
        later => later,
    }
}

pub open spec fn set_frame(key: Seq<u8>, value: Seq<u8>, expiry: Option<(u64, bool, Seq<u8>)>) -> Seq<u8> {
    match expiry {
        None => request_frame(seq!["SET".spec_bytes(), key, value]),
        Some((_, secs, text)) => request_frame(
            seq!["SET".spec_bytes(), key, value, if secs { "EX".spec_bytes() } else { "PX".spec_bytes() }, text],
        ),
    }
}

/// The outcome of a command that may write: the reply and, when the keyspace
/// changed, the request frame to hand on to replicas.
pub struct Outcome {
    pub reply: Vec<u8>,
    pub propagate: Option<Vec<u8>>,
}

/// What `SET` with arguments `args` (key, value, options) does.
pub open spec fn set_post(before: Keyspace, after: Keyspace, args: Seq<Seq<u8>>, now: u64, r: Outcome) -> bool {
    &&& args.len() < 2 ==> r.reply@ == error("ERR wrong number of arguments for 'set' command".spec_bytes())
        && r.propagate is None && after.db@ == before.db@ && after.config@ == before.config@
    &&& args.len() >= 2 ==> match set_expiry(args.skip(2), now) {
        Err(m) => r.reply@ == error(m) && r.propagate is None && after.db@ == before.db@
            && after.config@ == before.config@,
        Ok(expiry) => r.propagate matches Some(f) && f@ == set_frame(args[0], args[1], expiry)
            && r.reply@ == simple("OK".spec_bytes()) && after.values() == before.values().insert(
            args[0],
            ValueView::String(args[1]),
        ) && after.config@ == before.config@.insert(
            args[0],
            (Config {
                expire_at: match expiry {
                    Some((t, _, _)) => Some(t),
                    None => None,
                },
                updated_at: None,
            }),
        ),
    }
}

/// What `INCR key` does.
pub open spec fn incr_post(before: Keyspace, after: Keyspace, key: Seq<u8>, now: u64, r: Outcome) -> bool {
    if before.expired(key, now) {
        &&& r.reply@ == error("ERR key ".spec_bytes() + key + " is expired".spec_bytes())
        &&& r.propagate is None
        &&& after.db@ == before.db@.remove(key)
        &&& after.config@ == before.config@.remove(key)
    } else {
        match incr_result(before.values(), key) {
            Ok(n) => r.propagate matches Some(f) && f@ == request_frame(seq!["INCR".spec_bytes(), key])
                && r.reply@ == integer(n as int) && after.values() == before.values().insert(
                key,
                ValueView::String(dec_int(n as int)),
            ) && after.config@ == (if before.values().contains_key(key) {
                before.config@
            } else {
                before.config@.insert(key, (Config { expire_at: None, updated_at: None }))
            }),
            Err(m) => r.reply@ == error(m) && r.propagate is None && after.db@ == before.db@
                && after.config@ == before.config@,
        }
    }
}

/// What `GET key` does.
pub open spec fn get_post(pre: Keyspace, post: Keyspace, key: Seq<u8>, now: u64, reply: Seq<u8>) -> bool {
    &&& if pre.expired(key, now) {
            reply == null_bulk() && post.db@ == pre.db@.remove(key)
                && post.config@ == pre.config@.remove(key)
    } else {
            reply == get_reply(pre.values(), key) && post.db@ == pre.db@
                && post.config@ == pre.config@
    }
}

/// What `TYPE key` does.
pub open spec fn type_post(pre: Keyspace, post: Keyspace, key: Seq<u8>, now: u64, reply: Seq<u8>) -> bool {
    &&& if pre.expired(key, now) {
            reply == simple("none".spec_bytes()) && post.db@ == pre.db@.remove(key)
                && post.config@ == pre.config@.remove(key)
    } else {
            reply == simple(
                if pre.values().contains_key(key) {
                    type_tag(pre.values()[key])
                } else {
                    "none".spec_bytes()
                },
            ) && post.db@ == pre.db@ && post.config@ == pre.config@
    }
}

/// What `DEL key` does.
pub open spec fn del_post(pre: Keyspace, post: Keyspace, key: Seq<u8>, reply: Seq<u8>) -> bool {
    &&& post.db@ == pre.db@.remove(key)
    &&& post.config@ == pre.config@.remove(key)
    &&& reply == integer(if pre.db@.contains_key(key) { 1 } else { 0 })
}

/// What `KEYS pattern` does.
pub open spec fn keys_post(pre: Keyspace, post: Keyspace, pattern: Seq<u8>, now: u64, reply: Seq<u8>) -> bool {
    &&& forall|k: Seq<u8>| #[trigger] post.db@.contains_key(k) == (pre.db@.contains_key(k) && !pre.expired(k, now))
    &&& forall|k: Seq<u8>| #[trigger] post.config@.contains_key(k) == (pre.config@.contains_key(k) && !pre.expired(k, now))
    &&& forall|k: Seq<u8>| #[trigger] post.db@.contains_key(k) ==> post.db@[k] == pre.db@[k]
    &&& forall|k: Seq<u8>| #[trigger] post.config@.contains_key(k) ==> post.config@[k] == pre.config@[k]
    &&& reply == array(post.db.key_seq().filter(|k: Seq<u8>| spec_matches(pattern, k)).map_values(|k: Seq<u8>| Some(k)))
}

/// Keys mapped to values, and keys mapped to expiry settings.
pub struct Keyspace {
    pub db: Table<ValueType>,
    pub config: Table<Config>,
}

impl Keyspace {
    pub open spec fn wf(&self) -> bool {
        &&& self.db.wf()
        &&& self.config.wf()
        &&& forall|k: Seq<u8>| #[trigger] self.db@.contains_key(k) ==> self.db@[k].wf()
    }

    /// What each key holds.
    pub open spec fn values(&self) -> Map<Seq<u8>, ValueView> {
        self.db@.map_values(|v: ValueType| v@)
    }

    /// Whether `k` carries an expiry that `now` has reached.
    pub open spec fn expired(&self, k: Seq<u8>, now: u64) -> bool {
        self.config@.contains_key(k) && expired_at(self.config@[k], now)
    }

    pub fn new() -> (r: Self)
        ensures
            r.wf(),
            r.values() == Map::<Seq<u8>, ValueView>::empty(),
            r.config@ == Map::<Seq<u8>, Config>::empty(),
    {
        let r = Keyspace { db: Table::new(), config: Table::new() };
        assert(r.values() =~= Map::<Seq<u8>, ValueView>::empty());
        r
    }

    /// Drops `k` from both maps if it has expired; returns whether it did.
    pub fn expire_if_due(&mut self, k: &[u8], now: u64) -> (r: bool)
        requires
            old(self).wf(),
        ensures
            final(self).wf(),
            r == old(self).expired(k@, now),
            r ==> final(self).db@ == old(self).db@.remove(k@) && final(self).config@ == old(
                self,
            ).config@.remove(k@),
            !r ==> final(self).db@ == old(self).db@ && final(self).config@ == old(self).config@,
    {
        let due = match self.config.get(k) {
            Some(c) => c.is_expired_at(now),
            None => false,
        };
        if due {
            self.config.remove(k);
            self.db.remove(k);
        }
        due
    }

    /// `GET key`: the string held, a null bulk when absent or expired.
    pub fn get(&mut self, key: &[u8], now: u64) -> (r: Vec<u8>)
        requires
            old(self).wf(),
        ensures
            final(self).wf(),
            get_post(*old(self), *final(self), key@, now, r@),
    {
        if self.expire_if_due(key, now) {
            return null_bulk_string();
        }
        match self.db.get(key) {
            Some(v) => match v {
                ValueType::String(s) => bulk_string(s.as_slice()),
                _ => error_reply(lit("WRONGTYPE Operation against a key holding the wrong kind of value")),
            },
            None => null_bulk_string(),
        }
    }

    /// `TYPE key`: the name of the kind of value held, `none` when absent or
    /// expired.
    pub fn type_of(&mut self, key: &[u8], now: u64) -> (r: Vec<u8>)
        requires
            old(self).wf(),
        ensures
            final(self).wf(),
            type_post(*old(self), *final(self), key@, now, r@),
    {
        if self.expire_if_due(key, now) {
            return simple_string(lit("none"));
        }
        match self.db.get(key) {
            Some(v) => simple_string(lit(v.kind_name())),
            None => simple_string(lit("none")),
        }
    }

    /// `DEL key`: drops the key and its expiry; replies how many keys went.
    pub fn del(&mut self, key: &[u8]) -> (r: Vec<u8>)
        requires
            old(self).wf(),
        ensures
            final(self).wf(),
            del_post(*old(self), *final(self), key@, r@),
    {
        let removed = self.db.remove(key);
        self.config.remove(key);
        integer_reply(if removed { 1 } else { 0 })
    }
}

impl Keyspace {
    /// `SET key value [EX s | PX ms]`: stores the string and sets or clears
    /// its expiry.
    pub fn set(&mut self, args: &[Vec<u8>], now: u64) -> (r: Outcome)
        requires
            old(self).wf(),
        ensures
            final(self).wf(),
            set_post(*old(self), *final(self), list_view(args@), now, r),
    {
        if args.len() < 2 {
            return Outcome {
                reply: error_reply(lit("ERR wrong number of arguments for 'set' command")),
                propagate: None,
            };
        }
        let expiry = match parse_set_options(args, 2, now) {
            Ok(e) => e,
            Err(m) => {
                return Outcome { reply: error_reply(lit(m)), propagate: None };
            },
        };
        let key = copy_bytes(args[0].as_slice());
        let value = copy_bytes(args[1].as_slice());
        let mut frame_args: Vec<Vec<u8>> = Vec::new();
        frame_args.push(copy_bytes(lit("SET")));
        frame_args.push(copy_bytes(args[0].as_slice()));
        frame_args.push(copy_bytes(args[1].as_slice()));
        let expire_at = match expiry {
            Some((t, secs, j)) => {
                frame_args.push(copy_bytes(lit(if secs { "EX" } else { "PX" })));
                frame_args.push(copy_bytes(args[j].as_slice()));
                Some(t)
            },
            None => None,
        };
        let ghost expected = set_expiry(list_view(args@).skip(2), now);
        proof {
            match expected {
                Ok(Some((t, secs, text))) => {
                    assert(views(frame_args@) =~= seq!["SET".spec_bytes(), args@[0]@, args@[1]@, if secs { "EX".spec_bytes() } else { "PX".spec_bytes() }, text]);
                },
                _ => {
                    assert(views(frame_args@) =~= seq!["SET".spec_bytes(), args@[0]@, args@[1]@]);
                },
            }
        }
        let frame = request_bytes(&frame_args);
        let ghost old_db = self.db@;
        self.db.insert(key, ValueType::String(value));
        self.config.insert(copy_bytes(args[0].as_slice()), Config { expire_at, updated_at: None });
        proof {
            assert(self.values() =~= old(self).values().insert(args@[0]@, ValueView::String(args@[1]@)));
        }
        Outcome { reply: simple_string(lit("OK")), propagate: Some(frame) }
    }
}

/// What `INCR` does to a key that has not expired: the new integer, or the
/// error when the value is not a string holding an integer below `i64::MAX`.
pub open spec fn incr_result(values: Map<Seq<u8>, ValueView>, k: Seq<u8>) -> Result<i64, Seq<u8>> {
    if !values.contains_key(k) {
        Ok(1)
    } else {
        match values[k] {
            ValueView::String(v) => match spec_parse_i64(v) {
                Some(n) => if n < i64::MAX {
                    Ok((n + 1) as i64)
                } else {
                    Err(not_integer_msg())
                },
                None => Err(not_integer_msg()),
            },
            _ => Err(not_integer_msg()),
        }
    }
}

impl Keyspace {
    /// `INCR key`: adds one to the integer held as a string, starting from
    /// an absent key as 0.
    pub fn incr(&mut self, key: &[u8], now: u64) -> (r: Outcome)
        requires
            old(self).wf(),
        ensures
            final(self).wf(),
            incr_post(*old(self), *final(self), key@, now, r),
    {
        if self.expire_if_due(key, now) {
            let mut msg: Vec<u8> = copy_bytes(lit("ERR key "));
            crate::resp::push_all(&mut msg, key);
            crate::resp::push_all(&mut msg, lit(" is expired"));
            return Outcome { reply: error_reply(msg.as_slice()), propagate: None };
        }
        let next: i64 = match self.db.get(key) {
            None => 1,
            Some(v) => match v {
                ValueType::String(s) => match parse_i64(s.as_slice()) {
                    Some(n) => if n < i64::MAX {
                        n + 1
                    } else {
                        return Outcome { reply: error_reply(lit("ERR value is not an integer or out of range")), propagate: None };
                    },
                    None => {
                        return Outcome { reply: error_reply(lit("ERR value is not an integer or out of range")), propagate: None };
                    },
                },
                _ => {
                    return Outcome { reply: error_reply(lit("ERR value is not an integer or out of range")), propagate: None };
                },
            },
        };
        let fresh = !self.db.contains_key(key);
        let mut text: Vec<u8> = Vec::new();
        push_dec_i64(&mut text, next);
        assert(text@ =~= dec_int(next as int));
        self.db.insert(copy_bytes(key), ValueType::String(text));
        if fresh {
            self.config.insert(copy_bytes(key), Config { expire_at: None, updated_at: None });
        }
        proof {
            assert(self.values() =~= old(self).values().insert(key@, ValueView::String(dec_int(next as int))));
        }
        let mut frame_args: Vec<Vec<u8>> = Vec::new();
        frame_args.push(copy_bytes(lit("INCR")));
        frame_args.push(copy_bytes(key));
        assert(views(frame_args@) =~= seq!["INCR".spec_bytes(), key@]);
        Outcome { reply: integer_reply(next), propagate: Some(request_bytes(&frame_args)) }
    }

    /// Drops every key whose expiry `now` has reached, from both maps.
    pub fn sweep(&mut self, now: u64)
        requires
            old(self).wf(),
        ensures
            final(self).wf(),
            forall|k: Seq<u8>| #[trigger] final(self).db@.contains_key(k) == (old(self).db@.contains_key(k) && !old(self).expired(k, now)),
            forall|k: Seq<u8>| #[trigger] final(self).config@.contains_key(k) == (old(self).config@.contains_key(k) && !old(self).expired(k, now)),
            forall|k: Seq<u8>| #[trigger] final(self).db@.contains_key(k) ==> final(self).db@[k] == old(self).db@[k],
            forall|k: Seq<u8>| #[trigger] final(self).config@.contains_key(k) ==> final(self).config@[k] == old(self).config@[k],
    {
        let keys = self.config.keys();
        proof {
            self.config.lemma_key_seq();
        }
        let ghost ks = views(keys@);
        let mut i: usize = 0;
        while i < keys.len()
            invariant
                self.wf(),
                i <= keys@.len(),
                ks == views(keys@),
                ks == old(self).config.key_seq(),
                ks.no_duplicates(),
                ks.to_set() == old(self).config@.dom(),
                forall|k: Seq<u8>| #[trigger] self.db@.contains_key(k) == (old(self).db@.contains_key(k) && !(ks.take(i as int).contains(k) && old(self).expired(k, now))),
                forall|k: Seq<u8>| #[trigger] self.config@.contains_key(k) == (old(self).config@.contains_key(k) && !(ks.take(i as int).contains(k) && old(self).expired(k, now))),
                forall|k: Seq<u8>| #[trigger] self.db@.contains_key(k) ==> self.db@[k] == old(self).db@[k],
                forall|k: Seq<u8>| #[trigger] self.config@.contains_key(k) ==> self.config@[k] == old(self).config@[k],
            decreases keys@.len() - i,
        {
            let ghost k = ks[i as int];
            assert(keys@[i as int]@ == k);
            proof {
                assert(!ks.take(i as int).contains(k)) by {
                    if ks.take(i as int).contains(k) {
                        let j = choose|j: int| 0 <= j < i && #[trigger] ks.take(i as int)[j] == k;
                        assert(ks[j] == ks[i as int]);
                    }
                }
                assert(ks.contains(k));
                assert(ks.to_set().contains(k));
                assert(old(self).config@.dom().contains(k));
            }
            assert(old(self).config@.contains_key(k));
            assert(!ks.take(i as int).contains(k));
            assert(self.config@.contains_key(k));
            assert(self.config@[k] == old(self).config@[k]);
            assert(self.expired(k, now) == old(self).expired(k, now));
            let ghost db0 = self.db@;
            let ghost cfg0 = self.config@;
            let _ = self.expire_if_due(keys[i].as_slice(), now);
            proof {
                assert forall|q: Seq<u8>| ks.take(i + 1).contains(q) == (ks.take(i as int).contains(q) || q == k) by {
                    if ks.take(i + 1).contains(q) {
                        let j = choose|j: int| 0 <= j < i + 1 && #[trigger] ks.take(i + 1)[j] == q;
                        if j < i {
                            assert(ks.take(i as int)[j] == q);
                        }
                    }
                    if ks.take(i as int).contains(q) {
                        let j = choose|j: int| 0 <= j < i && #[trigger] ks.take(i as int)[j] == q;
                        assert(ks.take(i + 1)[j] == q);
                    }
                    if q == k {
                        assert(ks.take(i + 1)[i as int] == q);
                    }
                }
            }
            i = i + 1;
        }
        proof {
            assert(ks.take(i as int) =~= ks);
            assert forall|k: Seq<u8>| old(self).expired(k, now) implies #[trigger] ks.contains(k) by {
                assert(ks.to_set().contains(k));
            }
        }
    }

    /// `KEYS pattern`: first drops the expired keys, then replies with the
    /// keys that match, in the order they are kept.
    pub fn keys(&mut self, pattern: &[u8], now: u64) -> (r: Vec<u8>)
        requires
            old(self).wf(),
        ensures
            final(self).wf(),
            keys_post(*old(self), *final(self), pattern@, now, r@),
    {
        self.sweep(now);
        let all = self.db.keys();
        let ghost ks = views(all@);
        let mut out: Vec<Vec<u8>> = Vec::new();
        let mut i: usize = 0;
        proof {
            reveal(Seq::filter);
        }
        assert(ks.take(0).filter(|k: Seq<u8>| spec_matches(pattern@, k)) =~= Seq::<Seq<u8>>::empty());
        while i < all.len()
            invariant
                i <= all@.len(),
                ks == views(all@),
                views(out@) == ks.take(i as int).filter(|k: Seq<u8>| spec_matches(pattern@, k)),
            decreases all@.len() - i,
        {
            assert(ks.take(i + 1).drop_last() =~= ks.take(i as int));
            assert(ks.take(i + 1).last() == all@[i as int]@);
            proof {
                reveal(Seq::filter);
            }
            if is_matched(pattern, all[i].as_slice()) {
                let ghost prev = out@;
                out.push(copy_bytes(all[i].as_slice()));
                assert(views(out@) =~= views(prev).push(all@[i as int]@));
            }
            i = i + 1;
        }
        assert(ks.take(i as int) =~= ks);
        assert(views(out@).map_values(|s: Seq<u8>| Some(s)) =~= ks.filter(|k: Seq<u8>| spec_matches(pattern@, k)).map_values(|k: Seq<u8>| Some(k)));
        string_array_reply(&out)
    }
}

/// After `SET k v` with no expiry, `GET k` replies `v` as a bulk string,
/// whatever the clock reads.
pub proof fn lemma_set_then_get(values: Map<Seq<u8>, ValueView>, config: Map<Seq<u8>, Config>, k: Seq<u8>, v: Seq<u8>, now: u64)
    ensures
        get_reply(values.insert(k, ValueView::String(v)), k) == bulk(v),
        !({
            let c = config.insert(k, (Config { expire_at: None, updated_at: None }));
            c.contains_key(k) && expired_at(c[k], now)
        }),
{
}

/// After `SET k v` with an expiry at `t`, `GET k` replies `v` before `t` and
/// finds the key expired from `t` on.
pub proof fn lemma_set_with_expiry_then_get(values: Map<Seq<u8>, ValueView>, config: Map<Seq<u8>, Config>, k: Seq<u8>, v: Seq<u8>, t: u64, now: u64)
    ensures
        get_reply(values.insert(k, ValueView::String(v)), k) == bulk(v),
        ({
            let c = config.insert(k, (Config { expire_at: Some(t), updated_at: None }));
            c.contains_key(k) && expired_at(c[k], now)
        }) == (now >= t),
{
}

} // verus!
