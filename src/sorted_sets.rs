//! Sorted-set commands on the keyspace. Scores arrive and leave as `u64`
//! order keys; reading and printing them as numbers is the caller's part.
use vstd::prelude::*;
use crate::decimal::{parse_i64, spec_parse_i64};
use crate::keyspace::{not_integer_msg, wrongtype_msg, Keyspace, ValueType, ValueView};
use crate::lists::{somes, wrong_args, wrong_args_reply};
use crate::keyspace::{list_view, Outcome};
use crate::resp::{array, error, integer, null_bulk, request_frame, request_bytes, views, count_reply, error_reply, null_bulk_string, string_array_reply};
use crate::table::copy_bytes;
use crate::text::lit;
use crate::zset::{has_member, index_window, item_views, sorted, without, Item, ZSet};
use vstd::string::StringSliceAdditionalSpecFns;

verus! {

pub open spec fn zset_at(values: Map<Seq<u8>, ValueView>, k: Seq<u8>) -> Seq<Item> {
    if values.contains_key(k) && values[k] is ZSet {
        values[k]->ZSet_0
    } else {
        Seq::empty()
    }
}

pub open spec fn holds_non_zset(values: Map<Seq<u8>, ValueView>, k: Seq<u8>) -> bool {
    values.contains_key(k) && !(values[k] is ZSet)
}

pub open spec fn members(s: Seq<Item>) -> Seq<Seq<u8>> {
    s.map_values(|x: Item| x.1)
}

/// Every sorted set in a well-formed keyspace lists its items by score, then
/// by member.
pub proof fn lemma_zset_sorted(ks: &Keyspace, k: Seq<u8>)
    requires
        ks.wf(),
    ensures
        sorted(zset_at(ks.values(), k)),
{
    if ks.values().contains_key(k) && ks.values()[k] is ZSet {
        assert(ks.db@.contains_key(k));
        match ks.db@[k] {
            ValueType::ZSet(z) => {
                z.lemma_sorted();
            },
            _ => {},
        }
    }
}

/// What `ZREM key member` does.
pub open spec fn zrem_post(before: Keyspace, after: Keyspace, a: Seq<Seq<u8>>, r: Outcome) -> bool {
    &&& after.config@ == before.config@
    &&& a.len() < 2 ==> r.reply@ == error(wrong_args("zrem")) && r.propagate is None && after.db@ == before.db@
    &&& a.len() >= 2 && holds_non_zset(before.values(), a[0]) ==> r.reply@ == error(wrongtype_msg())
        && r.propagate is None && after.db@ == before.db@
    &&& a.len() >= 2 && !holds_non_zset(before.values(), a[0]) ==> {
        let z = zset_at(before.values(), a[0]);
        &&& r.reply@ == integer(if has_member(z, a[1]) { 1 } else { 0 })
        &&& after.values() == if before.values().contains_key(a[0]) {
            before.values().insert(a[0], ValueView::ZSet(without(z, a[1])))
        } else {
            before.values()
        }
        &&& if has_member(z, a[1]) {
            r.propagate matches Some(f) && f@ == request_frame(seq!["ZREM".spec_bytes(), a[0], a[1]])
        } else {
            r.propagate is None
        }
    }
}

/// The reply of `ZRANK key member`.
pub open spec fn zrank_reply(values: Map<Seq<u8>, ValueView>, a: Seq<Seq<u8>>, reply: Seq<u8>) -> bool {
    &&& a.len() < 2 ==> reply == error(wrong_args("zrank"))
    &&& a.len() >= 2 ==> if holds_non_zset(values, a[0]) {
        reply == error(wrongtype_msg())
    } else {
        let z = zset_at(values, a[0]);
        if has_member(z, a[1]) {
            exists|i: int| 0 <= i < z.len() && (#[trigger] z[i]).1 == a[1] && reply == integer(i)
        } else {
            reply == null_bulk()
        }
    }
}

/// The reply of `ZCARD key`.
pub open spec fn zcard_reply(values: Map<Seq<u8>, ValueView>, a: Seq<Seq<u8>>) -> Seq<u8> {
    if a.len() < 1 {
        error(wrong_args("zcard"))
    } else if holds_non_zset(values, a[0]) {
        error(wrongtype_msg())
    } else {
        integer(zset_at(values, a[0]).len() as int)
    }
}

/// The reply of `ZRANGE key start end`.
pub open spec fn zrange_reply(values: Map<Seq<u8>, ValueView>, a: Seq<Seq<u8>>) -> Seq<u8> {
    if a.len() < 3 {
        error(wrong_args("zrange"))
    } else if holds_non_zset(values, a[0]) {
        error(wrongtype_msg())
    } else if spec_parse_i64(a[1]) is None || spec_parse_i64(a[2]) is None {
        error(not_integer_msg())
    } else {
        let z = zset_at(values, a[0]);
        let w = index_window(z.len() as int, spec_parse_i64(a[1])->0 as int, spec_parse_i64(a[2])->0 as int);
        array(somes(members(z.subrange(w.0, w.1))))
    }
}

impl Keyspace {
    /// `ZADD key score member`, with the score as its order key: replies 1
    /// when the member is new, else 0.
    pub fn zadd(&mut self, key: &[u8], score: u64, member: &[u8]) -> (r: Vec<u8>)
        requires
            old(self).wf(),
        ensures
            final(self).wf(),
            final(self).config@ == old(self).config@,
            holds_non_zset(old(self).values(), key@) ==> r@ == error(wrongtype_msg()) && final(self).db@ == old(self).db@,
            !holds_non_zset(old(self).values(), key@) ==> ({
                let z = zset_at(old(self).values(), key@);
                &&& r@ == integer(if has_member(z, member@) { 0 } else { 1 })
                &&& final(self).values().remove(key@) == old(self).values().remove(key@)
                &&& final(self).values().contains_key(key@)
                &&& final(self).values()[key@] is ZSet
                &&& sorted(final(self).values()[key@]->ZSet_0)
                &&& exists|p: int| 0 <= p <= without(z, member@).len()
                    && final(self).values()[key@]->ZSet_0 == #[trigger] without(z, member@).insert(p, (score, member@))
            }),
    {
        let mut z: ZSet = match self.db.take(key) {
            None => ZSet::new(),
            Some(ValueType::ZSet(z)) => z,
            Some(other) => {
                self.db.insert(copy_bytes(key), other);
                proof {
                    assert(self.db@ =~= old(self).db@);
                }
                return error_reply(lit("WRONGTYPE Operation against a key holding the wrong kind of value"));
            },
        };
        assert(z@ == zset_at(old(self).values(), key@));
        let added = z.zadd(score, copy_bytes(member));
        self.db.insert(copy_bytes(key), ValueType::ZSet(z));
        proof {
            assert(self.values().remove(key@) =~= old(self).values().remove(key@));
            lemma_zset_sorted(self, key@);
        }
        count_reply(added as usize)
    }

    /// `ZREM key member`: replies how many members went (0 or 1), and hands
    /// on the request when one went.
    pub fn zrem(&mut self, args: &[Vec<u8>]) -> (r: Outcome)
        requires
            old(self).wf(),
        ensures
            final(self).wf(),
            zrem_post(*old(self), *final(self), list_view(args@), r),
    {
        if args.len() < 2 {
            return Outcome { reply: wrong_args_reply("zrem"), propagate: None };
        }
        let key = args[0].as_slice();
        let mut z: ZSet = match self.db.take(key) {
            None => {
                proof {
                    assert(self.db@ =~= old(self).db@);
                    assert(!has_member(Seq::<Item>::empty(), args@[1]@));
                }
                return Outcome { reply: count_reply(0), propagate: None };
            },
            Some(ValueType::ZSet(z)) => z,
            Some(other) => {
                self.db.insert(copy_bytes(key), other);
                proof {
                    assert(self.db@ =~= old(self).db@);
                }
                return Outcome { reply: error_reply(lit("WRONGTYPE Operation against a key holding the wrong kind of value")), propagate: None };
            },
        };
        let removed = z.zrem(args[1].as_slice());
        self.db.insert(copy_bytes(key), ValueType::ZSet(z));
        proof {
            assert(self.values() =~= old(self).values().insert(args@[0]@, ValueView::ZSet(without(zset_at(old(self).values(), args@[0]@), args@[1]@))));
        }
        if removed == 0 {
            return Outcome { reply: count_reply(0), propagate: None };
        }
        let mut fa: Vec<Vec<u8>> = Vec::new();
        fa.push(copy_bytes(lit("ZREM")));
        fa.push(copy_bytes(key));
        fa.push(copy_bytes(args[1].as_slice()));
        assert(views(fa@) =~= seq!["ZREM".spec_bytes(), args@[0]@, args@[1]@]);
        Outcome { reply: count_reply(1), propagate: Some(request_bytes(&fa)) }
    }

    /// `ZRANK key member`: the member's 0-based position, a null bulk when
    /// absent.
    pub fn zrank(&self, args: &[Vec<u8>]) -> (r: Vec<u8>)
        requires
            self.wf(),
        ensures
            zrank_reply(self.values(), list_view(args@), r@),
    {
        if args.len() < 2 {
            return wrong_args_reply("zrank");
        }
        match self.db.get(args[0].as_slice()) {
            None => {
                assert(!has_member(Seq::<Item>::empty(), args@[1]@));
                null_bulk_string()
            },
            Some(ValueType::ZSet(z)) => match z.zrank(args[1].as_slice()) {
                Some(i) => {
                    let n = z.zcard();
                    assert(z@[i as int].1 == args@[1]@);
                    assert(i < n);
                    count_reply(i as usize)
                },
                None => null_bulk_string(),
            },
            Some(_) => error_reply(lit("WRONGTYPE Operation against a key holding the wrong kind of value")),
        }
    }

    /// `ZCARD key`: how many members, 0 when absent.
    pub fn zcard(&self, args: &[Vec<u8>]) -> (r: Vec<u8>)
        requires
            self.wf(),
        ensures
            r@ == zcard_reply(self.values(), list_view(args@)),
    {
        if args.len() < 1 {
            return wrong_args_reply("zcard");
        }
        match self.db.get(args[0].as_slice()) {
            None => count_reply(0),
            Some(ValueType::ZSet(z)) => count_reply(z.zcard()),
            Some(_) => error_reply(lit("WRONGTYPE Operation against a key holding the wrong kind of value")),
        }
    }

    /// `ZRANGE key start end`: the members at the positions that
    /// `index_window` selects.
    pub fn zrange(&self, args: &[Vec<u8>]) -> (r: Vec<u8>)
        requires
            self.wf(),
        ensures
            r@ == zrange_reply(self.values(), list_view(args@)),
    {
        if args.len() < 3 {
            return wrong_args_reply("zrange");
        }
        let empty = ZSet::new();
        let z: &ZSet = match self.db.get(args[0].as_slice()) {
            None => &empty,
            Some(ValueType::ZSet(z)) => z,
            Some(_) => {
                return error_reply(lit("WRONGTYPE Operation against a key holding the wrong kind of value"));
            },
        };
        let (start, end) = match (parse_i64(args[1].as_slice()), parse_i64(args[2].as_slice())) {
            (Some(s), Some(e)) => (s, e),
            _ => {
                return error_reply(lit("ERR value is not an integer or out of range"));
            },
        };
        let items = z.zrange(start, end);
        let mut names: Vec<Vec<u8>> = Vec::new();
        let mut i: usize = 0;
        while i < items.len()
            invariant
                i <= items@.len(),
                views(names@) == members(item_views(items@)).take(i as int),
            decreases items@.len() - i,
        {
            let ghost prev = names@;
            names.push(copy_bytes(items[i].1.as_slice()));
            assert(views(names@) =~= views(prev).push(items@[i as int].1@));
            assert(members(item_views(items@)).take(i + 1) =~= members(item_views(items@)).take(i as int).push(items@[i as int].1@));
            i = i + 1;
        }
        proof {
            assert(members(item_views(items@)).take(i as int) =~= members(item_views(items@)));
            assert(views(names@).map_values(|s: Seq<u8>| Some(s)) =~= somes(views(names@)));
        }
        string_array_reply(&names)
    }

    /// The score order key of `member` in the sorted set under `key`;
    /// `Err` with the reply when the key holds another kind of value.
    pub fn zscore(&self, key: &[u8], member: &[u8]) -> (r: Result<Option<u64>, Vec<u8>>)
        requires
            self.wf(),
        ensures
            match r {
                Err(m) => holds_non_zset(self.values(), key@) && m@ == error(wrongtype_msg()),
                _ => !holds_non_zset(self.values(), key@),
            },
            match r {
                Ok(Some(s)) => exists|i: int| 0 <= i < zset_at(self.values(), key@).len() && #[trigger] zset_at(self.values(), key@)[i] == (s, member@),
                Ok(None) => !has_member(zset_at(self.values(), key@), member@),
                _ => true,
            },
    {
        match self.db.get(key) {
            None => {
                assert(!has_member(Seq::<Item>::empty(), member@));
                Ok(None)
            },
            Some(v) => match v {
                ValueType::ZSet(z) => {
                    assert(self.values()[key@] == v@);
                    assert(zset_at(self.values(), key@) == z@);
                    Ok(z.zscore(member))
                },
                _ => {
                    assert(self.values()[key@] == v@);
                    assert(!(v@ is ZSet));
                    assert(holds_non_zset(self.values(), key@));
                    let m = error_reply(lit("WRONGTYPE Operation against a key holding the wrong kind of value"));
                    assert(m@ == error(wrongtype_msg()));
                    Err(m)
                },
            },
        }
    }
}

} // verus!
