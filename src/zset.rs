//! Ordered-sorted sets: members with scores, ordered by score and then by
//! member, with a member-to-score index beside the order.
//!
//! A score is held as a `u64` key whose integer order is the order of the
//! scores it stands for.
use vstd::prelude::*;
use crate::table::{copy_bytes, Table};

verus! {

/// Lexicographic order on byte strings.
pub open spec fn lex_lt(a: Seq<u8>, b: Seq<u8>) -> bool
    decreases a.len(),
{
    if a.len() == 0 {
        b.len() > 0
    } else if b.len() == 0 {
        false
    } else if a[0] != b[0] {
        a[0] < b[0]
    } else {
        lex_lt(a.drop_first(), b.drop_first())
    }
}

pub proof fn lemma_lex_irreflexive(a: Seq<u8>)
    ensures
        !lex_lt(a, a),
    decreases a.len(),
{
    if a.len() > 0 {
        lemma_lex_irreflexive(a.drop_first());
    }
}

pub proof fn lemma_lex_total(a: Seq<u8>, b: Seq<u8>)
    ensures
        a != b ==> lex_lt(a, b) || lex_lt(b, a),
        !(lex_lt(a, b) && lex_lt(b, a)),
    decreases a.len(),
{
    if a.len() > 0 && b.len() > 0 {
        lemma_lex_total(a.drop_first(), b.drop_first());
        if a[0] == b[0] && a != b {
            assert(a =~= seq![a[0]] + a.drop_first());
            assert(b =~= seq![b[0]] + b.drop_first());
        }
    } else if a.len() == 0 && b.len() == 0 {
        assert(a =~= b);
    }
}

pub proof fn lemma_lex_transitive(a: Seq<u8>, b: Seq<u8>, c: Seq<u8>)
    requires
        lex_lt(a, b),
        lex_lt(b, c),
    ensures
        lex_lt(a, c),
    decreases a.len(),
{
    if a.len() > 0 && b.len() > 0 && c.len() > 0 && a[0] == b[0] && b[0] == c[0] {
        lemma_lex_transitive(a.drop_first(), b.drop_first(), c.drop_first());
    }
}

/// Compares two byte strings: negative, zero or positive.
pub fn compare_bytes(a: &[u8], b: &[u8]) -> (r: i8)
    ensures
        r < 0 <==> lex_lt(a@, b@),
        r == 0 <==> a@ == b@,
        r > 0 <==> lex_lt(b@, a@),
{
    let mut i: usize = 0;
    proof {
        lemma_lex_total(a@, b@);
        lemma_lex_irreflexive(a@);
        assert(a@.skip(0) =~= a@);
        assert(b@.skip(0) =~= b@);
    }
    while i < a.len() && i < b.len()
        invariant
            i <= a@.len(),
            i <= b@.len(),
            forall|k: int| 0 <= k < i ==> a@[k] == b@[k],
            lex_lt(a@, b@) == lex_lt(a@.skip(i as int), b@.skip(i as int)),
            lex_lt(b@, a@) == lex_lt(b@.skip(i as int), a@.skip(i as int)),
        decreases a@.len() - i,
    {
        if a[i] != b[i] {
            proof {
                assert(a@[i as int] != b@[i as int]);
            }
            if a[i] < b[i] {
                return -1;
            } else {
                return 1;
            }
        }
        assert(a@.skip(i as int).drop_first() =~= a@.skip(i + 1));
        assert(b@.skip(i as int).drop_first() =~= b@.skip(i + 1));
        i = i + 1;
    }
    if a.len() == b.len() {
        assert(a@ =~= b@);
        0
    } else if a.len() < b.len() {
        -1
    } else {
        1
    }
}

pub type Item = (u64, Seq<u8>);

/// Score first, member second.
pub open spec fn item_lt(x: Item, y: Item) -> bool {
    x.0 < y.0 || (x.0 == y.0 && lex_lt(x.1, y.1))
}

pub open spec fn sorted(v: Seq<Item>) -> bool {
    forall|i: int, j: int| 0 <= i < j < v.len() ==> item_lt(#[trigger] v[i], #[trigger] v[j])
}

/// `v` with the item of member `m` taken out.
pub open spec fn without(v: Seq<Item>, m: Seq<u8>) -> Seq<Item>
    decreases v.len(),
{
    if v.len() == 0 {
        v
    } else if v.last().1 == m {
        without(v.drop_last(), m)
    } else {
        without(v.drop_last(), m).push(v.last())
    }
}

pub open spec fn has_member(v: Seq<Item>, m: Seq<u8>) -> bool {
    exists|i: int| 0 <= i < v.len() && (#[trigger] v[i]).1 == m
}

pub proof fn lemma_without_absent(v: Seq<Item>, m: Seq<u8>)
    requires
        !has_member(v, m),
    ensures
        without(v, m) == v,
    decreases v.len(),
{
    if v.len() > 0 {
        assert(!has_member(v.drop_last(), m)) by {
            if has_member(v.drop_last(), m) {
                let i = choose|i: int| 0 <= i < v.len() - 1 && (#[trigger] v.drop_last()[i]).1 == m;
                assert(v[i].1 == m);
            }
        }
        lemma_without_absent(v.drop_last(), m);
        assert(v.last() == v[v.len() - 1]);
        assert(v.drop_last().push(v.last()) =~= v);
    }
}

pub proof fn lemma_without_at(v: Seq<Item>, m: Seq<u8>, i: int)
    requires
        0 <= i < v.len(),
        v[i].1 == m,
        forall|j: int| 0 <= j < v.len() && j != i ==> (#[trigger] v[j]).1 != m,
    ensures
        without(v, m) == v.remove(i),
    decreases v.len(),
{
    if i == v.len() - 1 {
        assert(!has_member(v.drop_last(), m)) by {
            if has_member(v.drop_last(), m) {
                let j = choose|j: int| 0 <= j < v.len() - 1 && (#[trigger] v.drop_last()[j]).1 == m;
                assert(v[j].1 == m);
            }
        }
        lemma_without_absent(v.drop_last(), m);
        assert(v.drop_last() =~= v.remove(i));
    } else {
        let w = v.drop_last();
        assert forall|j: int| 0 <= j < w.len() && j != i implies (#[trigger] w[j]).1 != m by {
            assert(w[j] == v[j]);
        }
        lemma_without_at(w, m, i);
        assert(v[v.len() - 1].1 != m);
        assert(w.remove(i).push(v.last()) =~= v.remove(i));
    }
}

/// The positions `[lo, hi)` that an inclusive index range `start..=end` selects
/// in a sequence of length `len`: a negative index counts from the end, both
/// are clamped into the sequence, and the range is empty when `start` lies
/// after `end` or beyond the sequence.
pub open spec fn index_window(len: int, start: int, end: int) -> (int, int) {
    let s = if start < 0 {
        if len + start < 0 { 0 } else { len + start }
    } else {
        start
    };
    let e0 = if end < 0 {
        if len + end < 0 { 0 } else { len + end }
    } else {
        end
    };
    let e = if e0 >= len { len - 1 } else { e0 };
    if s > e || s >= len {
        (0, 0)
    } else {
        (s, e + 1)
    }
}

/// See `index_window`.
pub fn window(len: usize, start: i64, end: i64) -> (r: (usize, usize))
    ensures
        r.0 as int == index_window(len as int, start as int, end as int).0,
        r.1 as int == index_window(len as int, start as int, end as int).1,
        r.0 <= r.1 <= len,
{
    let n: i128 = len as i128;
    let s: i128 = if start < 0 {
        if n + (start as i128) < 0 { 0 } else { n + (start as i128) }
    } else {
        start as i128
    };
    let e0: i128 = if end < 0 {
        if n + (end as i128) < 0 { 0 } else { n + (end as i128) }
    } else {
        end as i128
    };
    let e: i128 = if e0 >= n { n - 1 } else { e0 };
    if s > e || s >= n {
        (0, 0)
    } else {
        (s as usize, (e + 1) as usize)
    }
}

fn item_less(a: (u64, &[u8]), b: (u64, &[u8])) -> (r: bool)
    ensures
        r == item_lt((a.0, a.1@), (b.0, b.1@)),
{
    a.0 < b.0 || (a.0 == b.0 && compare_bytes(a.1, b.1) < 0)
}

/// An ordered-sorted set.
pub struct ZSet {
    dict: Table<u64>,
    order: Vec<(u64, Vec<u8>)>,
}

pub open spec fn item_views(v: Seq<(u64, Vec<u8>)>) -> Seq<Item> {
    v.map_values(|x: (u64, Vec<u8>)| (x.0, x.1@))
}

impl View for ZSet {
    type V = Seq<Item>;

    /// The items in order.
    closed spec fn view(&self) -> Seq<Item> {
        item_views(self.order@)
    }
}

impl ZSet {
    /// The member-to-score index.
    pub closed spec fn index(&self) -> Map<Seq<u8>, u64> {
        self.dict@
    }

    /// The order is strict and the index holds exactly the items' scores.
    pub closed spec fn wf(&self) -> bool {
        &&& self.dict.wf()
        &&& sorted(self@)
        &&& forall|i: int|
            0 <= i < self@.len() ==> self.dict@.contains_key((#[trigger] self@[i]).1)
                && self.dict@[self@[i].1] == self@[i].0
        &&& forall|m: Seq<u8>| #[trigger] self.dict@.contains_key(m) ==> has_member(self@, m)
    }

    /// A well-formed set lists its items by score, then by member, each
    /// strictly before the next.
    pub proof fn lemma_sorted(&self)
        requires
            self.wf(),
        ensures
            sorted(self@),
    {
    }

    pub proof fn lemma_members_distinct(&self)
        requires
            self.wf(),
        ensures
            forall|i: int, j: int|
                0 <= i < self@.len() && 0 <= j < self@.len() && i != j ==> (#[trigger] self@[i]).1
                    != (#[trigger] self@[j]).1,
    {
        assert forall|i: int, j: int|
            0 <= i < self@.len() && 0 <= j < self@.len() && i != j implies (
            #[trigger] self@[i]).1 != (#[trigger] self@[j]).1 by {
            if self@[i].1 == self@[j].1 {
                lemma_lex_irreflexive(self@[i].1);
                if i < j {
                    assert(item_lt(self@[i], self@[j]));
                } else {
                    assert(item_lt(self@[j], self@[i]));
                }
            }
        }
    }

    pub fn new() -> (r: Self)
        ensures
            r.wf(),
            r@ == Seq::<Item>::empty(),
            r.index() == Map::<Seq<u8>, u64>::empty(),
    {
        let r = ZSet { dict: Table::new(), order: Vec::new() };
        assert(r@ =~= Seq::<Item>::empty());
        r
    }

    /// Position of member `m` in the order.
    fn find_member(&self, m: &[u8]) -> (r: Option<usize>)
        requires
            self.wf(),
        ensures
            match r {
                Some(i) => i < self@.len() && self@[i as int].1 == m@,
                None => !has_member(self@, m@),
            },
    {
        let mut i: usize = 0;
        while i < self.order.len()
            invariant
                i <= self@.len(),
                self@.len() == self.order@.len(),
                forall|j: int| 0 <= j < i ==> (#[trigger] self@[j]).1 != m@,
            decreases self@.len() - i,
        {
            assert(self@[i as int].1 == self.order@[i as int].1@);
            if compare_bytes(self.order[i].1.as_slice(), m) == 0 {
                return Some(i);
            }
            i = i + 1;
        }
        None
    }

    /// Number of members.
    pub fn zcard(&self) -> (r: usize)
        requires
            self.wf(),
        ensures
            r == self@.len(),
            r == self.index().dom().len(),
    {
        proof {
            lemma_index_counts_items(self);
        }
        self.order.len()
    }

    /// The score of member `m`.
    pub fn zscore(&self, m: &[u8]) -> (r: Option<u64>)
        requires
            self.wf(),
        ensures
            r == (if self.index().contains_key(m@) {
                Some(self.index()[m@])
            } else {
                None
            }),
            match r {
                Some(s) => exists|i: int| 0 <= i < self@.len() && #[trigger] self@[i] == (s, m@),
                None => !has_member(self@, m@),
            },
    {
        match self.dict.get(m) {
            Some(s) => {
                proof {
                    let i = choose|i: int| 0 <= i < self@.len() && (#[trigger] self@[i]).1 == m@;
                    assert(self@[i] == (*s, m@));
                }
                Some(*s)
            },
            None => {
                assert(!has_member(self@, m@)) by {
                    if has_member(self@, m@) {
                        let i = choose|i: int| 0 <= i < self@.len() && (#[trigger] self@[i]).1 == m@;
                        assert(self.dict@.contains_key(self@[i].1));
                    }
                }
                None
            },
        }
    }

    /// The 0-based position of member `m` in the order.
    pub fn zrank(&self, m: &[u8]) -> (r: Option<u64>)
        requires
            self.wf(),
        ensures
            match r {
                Some(i) => i < self@.len() && self@[i as int].1 == m@,
                None => !has_member(self@, m@),
            },
    {
        match self.find_member(m) {
            Some(i) => Some(i as u64),
            None => None,
        }
    }

    /// Sets the score of `member`, adding it if new; returns 1 if it was new,
    /// else 0.
    pub fn zadd(&mut self, score: u64, member: Vec<u8>) -> (r: i64)
        requires
            old(self).wf(),
        ensures
            sorted(final(self)@),
            final(self).wf(),
            final(self).index() == old(self).index().insert(member@, score),
            exists|p: int|
                0 <= p <= without(old(self)@, member@).len() && final(self)@ == #[trigger] without(
                    old(self)@,
                    member@,
                ).insert(p, (score, member@)),
            r == (if has_member(old(self)@, member@) {
                0i64
            } else {
                1i64
            }),
    {
        let ghost m = member@;
        let existed = self.detach(member.as_slice());
        let ghost base = self@;
        let p = self.insert_position(score, member.as_slice());
        let copy = copy_bytes(member.as_slice());
        self.order.insert(p, (score, copy));
        self.dict.insert(member, score);
        proof {
            assert(self@ =~= base.insert(p as int, (score, m)));
            self.lemma_attached(base, p as int, score, m);
        }
        if existed {
            0
        } else {
            1
        }
    }

    /// Takes the item of `m` out of the order, leaving the index as it is.
    fn detach(&mut self, m: &[u8]) -> (r: bool)
        requires
            old(self).wf(),
        ensures
            final(self).dict == old(self).dict,
            final(self).dict.wf(),
            final(self)@ == without(old(self)@, m@),
            r == has_member(old(self)@, m@),
            !has_member(final(self)@, m@),
            sorted(final(self)@),
            forall|k: int|
                0 <= k < final(self)@.len() ==> final(self).dict@.contains_key(
                    (#[trigger] final(self)@[k]).1,
                ) && final(self).dict@[final(self)@[k].1] == final(self)@[k].0,
            forall|q: Seq<u8>|
                #[trigger] final(self).dict@.contains_key(q) && q != m@ ==> has_member(
                    final(self)@,
                    q,
                ),
    {
        let ghost v = self@;
        proof {
            self.lemma_members_distinct();
        }
        match self.find_member(m) {
            Some(i) => {
                let _ = self.order.remove(i);
                proof {
                    let w = self@;
                    assert(w =~= v.remove(i as int));
                    lemma_without_at(v, m@, i as int);
                    assert forall|k: int| 0 <= k < w.len() implies (#[trigger] w[k]).1 != m@
                        && self.dict@.contains_key(w[k].1) && self.dict@[w[k].1] == w[k].0 by {
                        let k2 = if k < i { k } else { k + 1 };
                        assert(w[k] == v[k2]);
                    }
                    assert forall|a: int, b: int| 0 <= a < b < w.len() implies item_lt(
                        #[trigger] w[a],
                        #[trigger] w[b],
                    ) by {
                        let a2 = if a < i { a } else { a + 1 };
                        let b2 = if b < i { b } else { b + 1 };
                        assert(w[a] == v[a2] && w[b] == v[b2]);
                    }
                    assert forall|q: Seq<u8>| #[trigger] self.dict@.contains_key(q) && q != m@ implies has_member(w, q) by {
                        let k = choose|k: int| 0 <= k < v.len() && (#[trigger] v[k]).1 == q;
                        assert(k != i);
                        let k2 = if k < i { k } else { k - 1 };
                        assert(w[k2] == v[k]);
                    }
                    if has_member(w, m@) {
                        let k = choose|k: int| 0 <= k < w.len() && (#[trigger] w[k]).1 == m@;
                    }
                }
                true
            },
            None => {
                proof {
                    lemma_without_absent(v, m@);
                }
                false
            },
        }
    }

    /// Where `(score, m)` goes in the order.
    fn insert_position(&self, score: u64, m: &[u8]) -> (p: usize)
        requires
            sorted(self@),
            !has_member(self@, m@),
        ensures
            p <= self@.len(),
            forall|k: int| 0 <= k < p ==> item_lt(#[trigger] self@[k], (score, m@)),
            forall|k: int| p <= k < self@.len() ==> item_lt((score, m@), #[trigger] self@[k]),
    {
        let mut p: usize = 0;
        while p < self.order.len()
            invariant
                p <= self@.len(),
                self.order@.len() == self@.len(),
                sorted(self@),
                !has_member(self@, m@),
                forall|k: int| 0 <= k < p ==> item_lt(#[trigger] self@[k], (score, m@)),
            decreases self@.len() - p,
        {
            assert(self@[p as int] == (self.order@[p as int].0, self.order@[p as int].1@));
            if !item_less((self.order[p].0, self.order[p].1.as_slice()), (score, m)) {
                proof {
                    let x: Item = (score, m@);
                    let y = self@[p as int];
                    assert(y.1 != m@);
                    lemma_lex_total(y.1, m@);
                    assert(item_lt(x, y));
                    assert forall|k: int| p <= k < self@.len() implies item_lt(x, #[trigger] self@[k]) by {
                        if k > p {
                            assert(item_lt(y, self@[k]));
                            if x.0 == y.0 && y.0 == self@[k].0 {
                                lemma_lex_transitive(x.1, y.1, self@[k].1);
                            }
                        }
                    }
                }
                return p;
            }
            p = p + 1;
        }
        p
    }

    proof fn lemma_attached(&self, base: Seq<Item>, p: int, score: u64, m: Seq<u8>)
        requires
            self.dict.wf(),
            0 <= p <= base.len(),
            self@ == base.insert(p, (score, m)),
            sorted(base),
            forall|k: int| 0 <= k < p ==> item_lt(#[trigger] base[k], (score, m)),
            forall|k: int| p <= k < base.len() ==> item_lt((score, m), #[trigger] base[k]),
            self.dict@.contains_key(m) && self.dict@[m] == score,
            forall|k: int|
                0 <= k < base.len() ==> self.dict@.contains_key((#[trigger] base[k]).1)
                    && self.dict@[base[k].1] == base[k].0,
            forall|q: Seq<u8>|
                #[trigger] self.dict@.contains_key(q) && q != m ==> has_member(base, q),
        ensures
            self.wf(),
    {
        let w = self@;
        assert forall|a: int, b: int| 0 <= a < b < w.len() implies item_lt(#[trigger] w[a], #[trigger] w[b]) by {
            if b == p {
                assert(w[a] == base[a]);
            } else if a == p {
                assert(w[b] == base[b - 1]);
            } else {
                let a2 = if a < p { a } else { a - 1 };
                let b2 = if b < p { b } else { b - 1 };
                assert(w[a] == base[a2] && w[b] == base[b2]);
                if a < p && b > p {
                    let x: Item = (score, m);
                    assert(item_lt(base[a2], x) && item_lt(x, base[b2]));
                    if base[a2].0 == x.0 && x.0 == base[b2].0 {
                        lemma_lex_transitive(base[a2].1, x.1, base[b2].1);
                    }
                }
            }
        }
        assert forall|k: int| 0 <= k < w.len() implies self.dict@.contains_key((#[trigger] w[k]).1)
            && self.dict@[w[k].1] == w[k].0 by {
            if k != p {
                let k2 = if k < p { k } else { k - 1 };
                assert(w[k] == base[k2]);
            }
        }
        assert forall|q: Seq<u8>| #[trigger] self.dict@.contains_key(q) implies has_member(w, q) by {
            if q == m {
                assert(w[p].1 == m);
            } else {
                let k = choose|k: int| 0 <= k < base.len() && (#[trigger] base[k]).1 == q;
                let k3 = if k < p { k } else { k + 1 };
                assert(w[k3] == base[k]);
            }
        }
    }

    /// The items at positions `start..=end`, as `index_window` selects them.
    pub fn zrange(&self, start: i64, end: i64) -> (r: Vec<(u64, Vec<u8>)>)
        requires
            self.wf(),
        ensures
            item_views(r@) == self@.subrange(
                index_window(self@.len() as int, start as int, end as int).0,
                index_window(self@.len() as int, start as int, end as int).1,
            ),
    {
        let (lo, hi) = window(self.order.len(), start, end);
        let mut out: Vec<(u64, Vec<u8>)> = Vec::new();
        let mut i: usize = lo;
        while i < hi
            invariant
                lo <= i <= hi <= self@.len(),
                self@.len() == self.order@.len(),
                item_views(out@) == self@.subrange(lo as int, i as int),
            decreases hi - i,
        {
            let c = copy_bytes(self.order[i].1.as_slice());
            let ghost prev = out@;
            out.push((self.order[i].0, c));
            assert(item_views(out@) =~= item_views(prev).push((self.order@[i as int].0, c@)));
            assert(self@.subrange(lo as int, i + 1) =~= self@.subrange(lo as int, i as int).push(self@[i as int]));
            i = i + 1;
        }
        out
    }

    /// Takes member `m` out; returns 1 if it was there, else 0.
    pub fn zrem(&mut self, m: &[u8]) -> (r: u32)
        requires
            old(self).wf(),
        ensures
            sorted(final(self)@),
            final(self).wf(),
            final(self)@ == without(old(self)@, m@),
            final(self).index() == old(self).index().remove(m@),
            r == (if has_member(old(self)@, m@) {
                1u32
            } else {
                0u32
            }),
    {
        proof {
            self.lemma_members_distinct();
        }
        match self.find_member(m) {
            Some(i) => {
                let ghost v = self@;
                let _ = self.order.remove(i);
                let _ = self.dict.remove(m);
                proof {
                    assert(self@ =~= v.remove(i as int));
                    lemma_without_at(v, m@, i as int);
                    self.lemma_sync_after_remove(v, i as int, m@);
                }
                1
            },
            None => {
                proof {
                    lemma_without_absent(self@, m@);
                    assert(!self.dict@.contains_key(m@));
                    assert(self.dict@ =~= self.dict@.remove(m@));
                }
                0
            },
        }
    }

    proof fn lemma_sync_after_remove(&self, v: Seq<Item>, i: int, m: Seq<u8>)
        requires
            self.dict.wf(),
            0 <= i < v.len(),
            v[i].1 == m,
            sorted(v),
            self@ == v.remove(i),
            forall|a: int, b: int|
                0 <= a < v.len() && 0 <= b < v.len() && a != b ==> (#[trigger] v[a]).1 != (
                #[trigger] v[b]).1,
            forall|k: int| 0 <= k < v.len() ==> #[trigger] self.dict@.insert(m, v[i].0).contains_key(v[k].1)
                && self.dict@.insert(m, v[i].0)[v[k].1] == v[k].0,
            !self.dict@.contains_key(m),
            forall|q: Seq<u8>| #[trigger] self.dict@.contains_key(q) ==> q != m && has_member(v, q),
        ensures
            self.wf(),
    {
        let w = self@;
        assert(sorted(w)) by {
            assert forall|a: int, b: int| 0 <= a < b < w.len() implies item_lt(#[trigger] w[a], #[trigger] w[b]) by {
                let a2 = if a < i { a } else { a + 1 };
                let b2 = if b < i { b } else { b + 1 };
                assert(w[a] == v[a2] && w[b] == v[b2]);
            }
        }
        assert forall|k: int| 0 <= k < w.len() implies self.dict@.contains_key((#[trigger] w[k]).1)
            && self.dict@[w[k].1] == w[k].0 by {
            let k2 = if k < i { k } else { k + 1 };
            assert(w[k] == v[k2]);
            assert(v[k2].1 != m);
            assert(self.dict@.insert(m, v[i].0).contains_key(v[k2].1));
        }
        assert forall|q: Seq<u8>| #[trigger] self.dict@.contains_key(q) implies has_member(w, q) by {
            let k = choose|k: int| 0 <= k < v.len() && (#[trigger] v[k]).1 == q;
            assert(k != i);
            let k2 = if k < i { k } else { k - 1 };
            assert(w[k2] == v[k]);
        }
    }
}

/// The index and the order hold the same members: as many index entries as
/// items in the order, and each indexed member found with its score in the
/// order exactly once.
pub proof fn lemma_index_counts_items(z: &ZSet)
    requires
        z.wf(),
    ensures
        z.index().dom().len() == z@.len(),
        forall|m: Seq<u8>|
            #[trigger] z.index().contains_key(m) ==> exists|i: int|
                0 <= i < z@.len() && z@[i] == (z.index()[m], m) && forall|j: int|
                    0 <= j < z@.len() && #[trigger] z@[j] == (z.index()[m], m) ==> j == i,
{
    z.lemma_members_distinct();
    let ms = z@.map_values(|x: Item| x.1);
    assert(ms.no_duplicates()) by {
        assert forall|i: int, j: int| 0 <= i < ms.len() && 0 <= j < ms.len() && i != j implies ms[i]
            != ms[j] by {
            assert(ms[i] == z@[i].1);
            assert(ms[j] == z@[j].1);
        }
    }
    assert(ms.to_set() =~= z.index().dom()) by {
        assert forall|m: Seq<u8>| ms.to_set().contains(m) implies z.index().dom().contains(m) by {
            let i = choose|i: int| 0 <= i < ms.len() && ms[i] == m;
            assert(z@[i].1 == m);
        }
        assert forall|m: Seq<u8>| z.index().dom().contains(m) implies ms.to_set().contains(m) by {
            let i = choose|i: int| 0 <= i < z@.len() && (#[trigger] z@[i]).1 == m;
            assert(ms[i] == m);
        }
    }
    ms.unique_seq_to_set();
    assert forall|m: Seq<u8>| #[trigger] z.index().contains_key(m) implies exists|i: int|
        0 <= i < z@.len() && z@[i] == (z.index()[m], m) && forall|j: int|
            0 <= j < z@.len() && #[trigger] z@[j] == (z.index()[m], m) ==> j == i by {
        let i = choose|i: int| 0 <= i < z@.len() && (#[trigger] z@[i]).1 == m;
        assert(z@[i] == (z.index()[m], m));
    }
}

/// Adding a member that was absent and then removing it leaves the order as
/// it was.
pub proof fn lemma_add_then_remove(v: Seq<Item>, m: Seq<u8>, score: u64, p: int)
    requires
        !has_member(v, m),
        0 <= p <= v.len(),
    ensures
        without(without(v, m).insert(p, (score, m)), m) == v,
{
    lemma_without_absent(v, m);
    let w = v.insert(p, (score, m));
    assert forall|j: int| 0 <= j < w.len() && j != p implies (#[trigger] w[j]).1 != m by {
        let j2 = if j < p { j } else { j - 1 };
        assert(w[j] == v[j2]);
    }
    lemma_without_at(w, m, p);
    assert(w.remove(p) =~= v);
}

} // verus!
