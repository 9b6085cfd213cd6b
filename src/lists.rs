//! List commands on the keyspace.
use vstd::prelude::*;
use vstd::string::StringSliceAdditionalSpecFns;
use crate::decimal::{parse_i64, parse_u64, spec_parse_i64, spec_parse_u64};
use crate::keyspace::{list_view, not_integer_msg, wrongtype_msg, Keyspace, Outcome, ValueType, ValueView};
use crate::resp::{
    array, bulk, error, integer, null_bulk, request_frame, views, bulk_string, error_reply,
    count_reply, null_bulk_string, request_bytes, string_array_reply,
};
use crate::table::copy_bytes;
use crate::text::lit;
use crate::zset::{index_window, window};

verus! {

pub open spec fn somes(s: Seq<Seq<u8>>) -> Seq<Option<Seq<u8>>> {
    s.map_values(|x: Seq<u8>| Some(x))
}

/// Copies of `v[from..to]`.
pub fn copy_items(v: &Vec<Vec<u8>>, from: usize, to: usize) -> (r: Vec<Vec<u8>>)
    requires
        from <= to <= v@.len(),
    ensures
        views(r@) == views(v@).subrange(from as int, to as int),
{
    let mut out: Vec<Vec<u8>> = Vec::new();
    let mut i: usize = from;
    while i < to
        invariant
            from <= i <= to <= v@.len(),
            views(out@) == views(v@).subrange(from as int, i as int),
        decreases to - i,
    {
        let ghost prev = out@;
        out.push(copy_bytes(v[i].as_slice()));
        assert(views(out@) =~= views(prev).push(v@[i as int]@));
        assert(views(v@).subrange(from as int, i + 1) =~= views(v@).subrange(from as int, i as int).push(v@[i as int]@));
        i = i + 1;
    }
    out
}

/// The frame `<name> args...`.
pub fn frame_with(name: &'static str, args: &[Vec<u8>]) -> (r: Vec<u8>)
    ensures
        r@ == request_frame(seq![name.spec_bytes()] + views(args@)),
{
    let mut fa: Vec<Vec<u8>> = Vec::new();
    fa.push(copy_bytes(lit(name)));
    let mut i: usize = 0;
    while i < args.len()
        invariant
            i <= args@.len(),
            views(fa@) == seq![name.spec_bytes()] + views(args@).take(i as int),
        decreases args@.len() - i,
    {
        let ghost prev = fa@;
        fa.push(copy_bytes(args[i].as_slice()));
        assert(views(fa@) =~= views(prev).push(args@[i as int]@));
        assert(views(args@).take(i + 1) =~= views(args@).take(i as int).push(args@[i as int]@));
        i = i + 1;
    }
    assert(views(args@).take(i as int) =~= views(args@));
    request_bytes(&fa)
}

pub open spec fn wrong_args(name: &str) -> Seq<u8> {
    "ERR wrong number of arguments for '".spec_bytes() + name.spec_bytes() + "' command".spec_bytes()
}

pub fn wrong_args_reply(name: &'static str) -> (r: Vec<u8>)
    ensures
        r@ == error(wrong_args(name)),
{
    let mut m = copy_bytes(lit("ERR wrong number of arguments for '"));
    crate::resp::push_all(&mut m, lit(name));
    crate::resp::push_all(&mut m, lit("' command"));
    error_reply(m.as_slice())
}

/// What `RPUSH` (or `LPUSH` when `at_head`) with arguments `a` does.
pub open spec fn push_post(pre: Keyspace, post: Keyspace, a: Seq<Seq<u8>>, at_head: bool, r: Outcome) -> bool {
    &&& post.config@ == pre.config@
    &&& ({
            let name = if at_head { "lpush" } else { "rpush" };
            let k = a[0];
            let vals = a.skip(1);
            if a.len() < 2 {
                r.reply@ == error(wrong_args(name)) && r.propagate is None
                    && post.db@ == pre.db@
            } else if pre.values().contains_key(k) && !(pre.values()[k] is List) {
                r.reply@ == error(wrongtype_msg()) && r.propagate is None
                    && post.db@ == pre.db@
            } else {
                let before = if pre.values().contains_key(k) {
                    pre.values()[k]->List_0
                } else {
                    Seq::empty()
                };
                let after = if at_head { vals.reverse() + before } else { before + vals };
                r.propagate matches Some(f) && f@ == request_frame(seq![if at_head {
                    "LPUSH".spec_bytes()
                } else {
                    "RPUSH".spec_bytes()
                }] + a) && r.reply@ == integer(after.len() as int) && post.values()
                    == pre.values().insert(k, ValueView::List(after))
            }
    })
}

/// What `LPOP key [count]` does.
pub open spec fn lpop_post(pre: Keyspace, post: Keyspace, a: Seq<Seq<u8>>, r: Outcome) -> bool {
    &&& post.config@ == pre.config@
    &&& a.len() < 1 ==> r.reply@ == error(wrong_args("lpop")) && r.propagate is None
            && post.db@ == pre.db@
    &&& a.len() >= 2 && !count_ok(a[1]) ==> r.reply@
            == error(not_integer_msg()) && r.propagate is None && post.db@ == pre.db@
    &&& a.len() >= 1 && holds_other(pre.values(), a[0]) && (a.len() < 2 || count_ok(a[1]))
            ==> r.reply@ == error(wrongtype_msg()) && r.propagate is None && post.db@ == pre.db@
    &&& a.len() >= 1 && !holds_other(pre.values(), a[0]) ==> ({
            let k = a[0];
            let l = list_at(pre.values(), k);
            let count: nat = if a.len() >= 2 {
                match spec_parse_u64(a[1]) {
                    Some(c) => c as nat,
                    None => 0,
                }
            } else {
                1
            };
            let n: int = if count < l.len() { count as int } else { l.len() as int };
            count > 0 ==> {
                &&& r.reply@ == (if a.len() >= 2 {
                    array(somes(l.take(n)))
                } else if n == 1 {
                    bulk(l[0])
                } else {
                    null_bulk()
                })
                &&& post.values() == (if n == 0 {
                    pre.values()
                } else if n == l.len() {
                    pre.values().remove(k)
                } else {
                    pre.values().insert(k, ValueView::List(l.skip(n)))
                })
                &&& (n == 0 ==> r.propagate is None)
                &&& (n > 0 ==> (r.propagate matches Some(f) && f@ == request_frame(seq!["LPOP".spec_bytes()] + a.take(if a.len() >= 2 { 2 } else { 1 }))))
            }
    })
}

/// The reply of `LLEN key`.
pub open spec fn llen_post(values: Map<Seq<u8>, ValueView>, key: Seq<u8>, reply: Seq<u8>) -> bool {
    &&& reply == if holds_other(values, key) {
            error(wrongtype_msg())
    } else {
            integer(list_at(values, key).len() as int)
    }
}

/// The reply of `LRANGE key start end`.
pub open spec fn lrange_post(values: Map<Seq<u8>, ValueView>, a: Seq<Seq<u8>>, reply: Seq<u8>) -> bool {
    &&& a.len() < 3 ==> reply == error(wrong_args("lrange"))
    &&& a.len() >= 3 ==> reply == if holds_other(values, a[0]) {
            error(wrongtype_msg())
    } else if spec_parse_i64(a[1]) is None || spec_parse_i64(a[2]) is None {
            error(not_integer_msg())
    } else {
            let l = list_at(values, a[0]);
            let w = index_window(l.len() as int, spec_parse_i64(a[1])->0 as int, spec_parse_i64(a[2])->0 as int);
            array(somes(l.subrange(w.0, w.1)))
    }
}

impl Keyspace {
    /// `RPUSH key v...` (or `LPUSH` when `at_head`): adds the values at the
    /// tail in order (at the head one after the other); replies the length.
    pub fn push(&mut self, args: &[Vec<u8>], at_head: bool) -> (r: Outcome)
        requires
            old(self).wf(),
        ensures
            final(self).wf(),
            push_post(*old(self), *final(self), list_view(args@), at_head, r),
    {
        if args.len() < 2 {
            return Outcome { reply: wrong_args_reply(if at_head { "lpush" } else { "rpush" }), propagate: None };
        }
        let key = args[0].as_slice();
        let ghost vals = views(args@).skip(1);
        let mut list: Vec<Vec<u8>> = match self.db.take(key) {
            None => Vec::new(),
            Some(ValueType::List(l)) => l,
            Some(other) => {
                self.db.insert(copy_bytes(key), other);
                proof {
                    assert(self.db@ =~= old(self).db@);
                }
                return Outcome { reply: error_reply(lit("WRONGTYPE Operation against a key holding the wrong kind of value")), propagate: None };
            },
        };
        let ghost before = list_view(list@);
        assert(before == if old(self).values().contains_key(args@[0]@) {
            old(self).values()[args@[0]@]->List_0
        } else {
            Seq::<Seq<u8>>::empty()
        });
        let mut i: usize = 1;
        while i < args.len()
            invariant
                1 <= i <= args@.len(),
                vals == views(args@).skip(1),
                list_view(list@) == if at_head {
                    vals.take(i - 1).reverse() + before
                } else {
                    before + vals.take(i - 1)
                },
            decreases args@.len() - i,
        {
            let item = copy_bytes(args[i].as_slice());
            let ghost prev = list_view(list@);
            assert(vals.take(i as int) =~= vals.take(i - 1).push(args@[i as int]@));
            if at_head {
                list.insert(0, item);
                assert(list_view(list@) =~= seq![args@[i as int]@] + prev);
                assert(vals.take(i as int).reverse() =~= seq![args@[i as int]@] + vals.take(i - 1).reverse());
            } else {
                list.push(item);
                assert(list_view(list@) =~= prev.push(args@[i as int]@));
            }
            i = i + 1;
        }
        assert(vals.take(i - 1) =~= vals);
        let len = list.len();
        self.db.insert(copy_bytes(key), ValueType::List(list));
        proof {
            assert(self.values() =~= old(self).values().insert(args@[0]@, ValueView::List(if at_head { vals.reverse() + before } else { before + vals })));
        }
        let frame = frame_with(if at_head { "LPUSH" } else { "RPUSH" }, args);
        Outcome { reply: count_reply(len), propagate: Some(frame) }
    }
}

/// The list held under `k`, empty when absent.
pub open spec fn list_at(values: Map<Seq<u8>, ValueView>, k: Seq<u8>) -> Seq<Seq<u8>> {
    if values.contains_key(k) && values[k] is List {
        values[k]->List_0
    } else {
        Seq::empty()
    }
}

/// A count argument: a positive integer.
pub open spec fn count_ok(a: Seq<u8>) -> bool {
    match spec_parse_u64(a) {
        Some(c) => c > 0,
        None => false,
    }
}

pub open spec fn holds_other(values: Map<Seq<u8>, ValueView>, k: Seq<u8>) -> bool {
    values.contains_key(k) && !(values[k] is List)
}

impl Keyspace {
    /// `LPOP key [count]`: removes up to `count` values (one when absent)
    /// from the head; the key goes when its list empties. Replies the value
    /// (or a null bulk) without a count, an array with one.
    pub fn lpop(&mut self, args: &[Vec<u8>]) -> (r: Outcome)
        requires
            old(self).wf(),
        ensures
            final(self).wf(),
            lpop_post(*old(self), *final(self), list_view(args@), r),
    {
        if args.len() < 1 {
            return Outcome { reply: wrong_args_reply("lpop"), propagate: None };
        }
        let has_count = args.len() >= 2;
        let count: u64 = if has_count {
            match parse_u64(args[1].as_slice()) {
                Some(c) => if c > 0 {
                    c
                } else {
                    return Outcome { reply: error_reply(lit("ERR value is not an integer or out of range")), propagate: None };
                },
                None => {
                    return Outcome { reply: error_reply(lit("ERR value is not an integer or out of range")), propagate: None };
                },
            }
        } else {
            1
        };
        let key = args[0].as_slice();
        let list: Vec<Vec<u8>> = match self.db.take(key) {
            None => {
                proof {
                    assert(self.db@ =~= old(self).db@);
                }
                let none: Vec<Vec<u8>> = Vec::new();
                proof {
                    let e: Seq<Seq<u8>> = Seq::empty();
                    assert(views(none@) =~= e);
                    assert(somes(e.take(0)) =~= views(none@).map_values(|s: Seq<u8>| Some(s)));
                }
                let reply = if has_count { string_array_reply(&none) } else { null_bulk_string() };
                return Outcome { reply, propagate: None };
            },
            Some(ValueType::List(l)) => l,
            Some(other) => {
                self.db.insert(copy_bytes(key), other);
                proof {
                    assert(self.db@ =~= old(self).db@);
                }
                return Outcome { reply: error_reply(lit("WRONGTYPE Operation against a key holding the wrong kind of value")), propagate: None };
            },
        };
        let ghost l = list_view(list@);
        let n: usize = if (count as u128) < (list.len() as u128) { count as usize } else { list.len() };
        let popped = copy_items(&list, 0, n);
        let rest = copy_items(&list, n, list.len());
        assert(l.subrange(0, n as int) =~= l.take(n as int));
        assert(l.subrange(n as int, l.len() as int) =~= l.skip(n as int));
        if n < list.len() {
            self.db.insert(copy_bytes(key), ValueType::List(rest));
            proof {
                assert(list_view(rest@) =~= views(rest@));
                assert(self.values() =~= old(self).values().insert(args@[0]@, ValueView::List(l.skip(n as int))));
            }
        } else if n == 0 {
            self.db.insert(copy_bytes(key), ValueType::List(list));
            proof {
                assert(self.values() =~= old(self).values());
            }
        } else {
            proof {
                assert(self.values() =~= old(self).values().remove(args@[0]@));
            }
        }
        let reply = if has_count {
            assert(views(popped@).map_values(|s: Seq<u8>| Some(s)) =~= somes(l.take(n as int)));
            string_array_reply(&popped)
        } else if n == 1 {
            assert(popped@[0]@ == l[0]);
            bulk_string(popped[0].as_slice())
        } else {
            null_bulk_string()
        };
        if n == 0 {
            return Outcome { reply, propagate: None };
        }
        let frame = if has_count { frame_with("LPOP", &args[0..2]) } else { frame_with("LPOP", &args[0..1]) };
        proof {
            if has_count {
                assert(views(args@.subrange(0, 2)) =~= views(args@).take(2));
            } else {
                assert(views(args@.subrange(0, 1)) =~= views(args@).take(1));
            }
        }
        Outcome { reply, propagate: Some(frame) }
    }

    /// `LLEN key`: the list's length, 0 when absent.
    pub fn llen(&self, key: &[u8]) -> (r: Vec<u8>)
        requires
            self.wf(),
        ensures
            llen_post(self.values(), key@, r@),
    {
        match self.db.get(key) {
            None => count_reply(0),
            Some(ValueType::List(l)) => count_reply(l.len()),
            Some(_) => error_reply(lit("WRONGTYPE Operation against a key holding the wrong kind of value")),
        }
    }

    /// `LRANGE key start end`: the values at the positions that
    /// `index_window` selects.
    pub fn lrange(&self, args: &[Vec<u8>]) -> (r: Vec<u8>)
        requires
            self.wf(),
        ensures
            lrange_post(self.values(), list_view(args@), r@),
    {
        if args.len() < 3 {
            return wrong_args_reply("lrange");
        }
        let empty: Vec<Vec<u8>> = Vec::new();
        let list: &Vec<Vec<u8>> = match self.db.get(args[0].as_slice()) {
            None => &empty,
            Some(ValueType::List(l)) => l,
            Some(_) => {
                return error_reply(lit("WRONGTYPE Operation against a key holding the wrong kind of value"));
            },
        };
        let (start, end) = match (parse_i64(args[1].as_slice()), parse_i64(args[2].as_slice())) {
            (Some(s), Some(e)) => (s, e),
            _ => {
                return error_reply(lit("ERR value is not an integer or out of range"));
            },
        };
        let ghost l = list_view(list@);
        assert(l == list_at(self.values(), args@[0]@)) by {
            assert(list_view(empty@) =~= Seq::<Seq<u8>>::empty());
        }
        let (lo, hi) = window(list.len(), start, end);
        let items = copy_items(list, lo, hi);
        assert(views(items@).map_values(|s: Seq<u8>| Some(s)) =~= somes(l.subrange(lo as int, hi as int)));
        string_array_reply(&items)
    }
}

impl Keyspace {
    /// One attempt of `BLPOP key`: pops the head of the list under `key` and
    /// replies `[key, value]`; `None` when there is nothing to pop.
    pub fn blpop_once(&mut self, key: &[u8]) -> (r: Option<Outcome>)
        requires
            old(self).wf(),
        ensures
            final(self).wf(),
            final(self).config@ == old(self).config@,
            holds_other(old(self).values(), key@) ==> (r matches Some(o) && o.reply@ == error(wrongtype_msg())
                && o.propagate is None && final(self).db@ == old(self).db@),
            !holds_other(old(self).values(), key@) && list_at(old(self).values(), key@).len() == 0 ==> r is None
                && final(self).db@ == old(self).db@,
            !holds_other(old(self).values(), key@) && list_at(old(self).values(), key@).len() > 0 ==> ({
                let l = list_at(old(self).values(), key@);
                &&& final(self).values() == if l.len() == 1 {
                        old(self).values().remove(key@)
                    } else {
                        old(self).values().insert(key@, ValueView::List(l.skip(1)))
                    }
                &&& r matches Some(o) && o.reply@ == array(seq![Some(key@), Some(l[0])])
                    && (o.propagate matches Some(f) && f@ == request_frame(seq!["LPOP".spec_bytes(), key@]))
            }),
    {
        let list: Vec<Vec<u8>> = match self.db.take(key) {
            None => {
                proof {
                    assert(self.db@ =~= old(self).db@);
                }
                return None;
            },
            Some(ValueType::List(l)) => l,
            Some(other) => {
                self.db.insert(copy_bytes(key), other);
                proof {
                    assert(self.db@ =~= old(self).db@);
                }
                return Some(Outcome { reply: error_reply(lit("WRONGTYPE Operation against a key holding the wrong kind of value")), propagate: None });
            },
        };
        let ghost l = list_view(list@);
        if list.len() == 0 {
            self.db.insert(copy_bytes(key), ValueType::List(list));
            proof {
                assert(self.db@ =~= old(self).db@);
            }
            return None;
        }
        let mut pair: Vec<Vec<u8>> = Vec::new();
        pair.push(copy_bytes(key));
        pair.push(copy_bytes(list[0].as_slice()));
        let rest = copy_items(&list, 1, list.len());
        if list.len() > 1 {
            self.db.insert(copy_bytes(key), ValueType::List(rest));
            proof {
                assert(list_view(rest@) =~= views(rest@));
                assert(views(list@).subrange(1, list@.len() as int) =~= l.skip(1));
                assert(self.values() =~= old(self).values().insert(key@, ValueView::List(l.skip(1))));
            }
        } else {
            proof {
                assert(self.values() =~= old(self).values().remove(key@));
            }
        }
        assert(views(pair@).map_values(|s: Seq<u8>| Some(s)) =~= seq![Some(key@), Some(l[0])]);
        let reply = string_array_reply(&pair);
        let mut fa: Vec<Vec<u8>> = Vec::new();
        fa.push(copy_bytes(lit("LPOP")));
        fa.push(copy_bytes(key));
        assert(views(fa@) =~= seq!["LPOP".spec_bytes(), key@]);
        Some(Outcome { reply, propagate: Some(request_bytes(&fa)) })
    }
}

} // verus!
