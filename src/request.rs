//! Framing of one request out of the bytes a connection has received.
use vstd::prelude::*;
use crate::decimal::{
    all_digits, dec, digits_value, is_digit, lemma_dec_len, lemma_dec_value,
    lemma_digits_value_grows, ZERO,
};
use crate::resp::{
    bulk, bulks, crlf, crlf_at, digit_run_end, parse_bulk, parse_bulks, parse_number_line,
    request_frame, spec_try_parse, views, MAX_FRAME_NUMBER,
};

verus! {

/// One parsed request: the command name followed by its arguments.
pub struct Request {
    pub args: Vec<Vec<u8>>,
}

impl View for Request {
    type V = Seq<Seq<u8>>;

    open spec fn view(&self) -> Seq<Seq<u8>> {
        views(self.args@)
    }
}

pub proof fn lemma_run_end(b: Seq<u8>, i: int)
    requires
        0 <= i <= b.len(),
    ensures
        i <= digit_run_end(b, i) <= b.len(),
        forall|k: int| i <= k < digit_run_end(b, i) ==> is_digit(#[trigger] b[k]),
        digit_run_end(b, i) < b.len() ==> !is_digit(b[digit_run_end(b, i)]),
    decreases b.len() - i,
{
    if i < b.len() && is_digit(b[i]) {
        lemma_run_end(b, i + 1);
    }
}

/// Reads `<marker><digits>\r\n` at `pos`.
pub fn read_number_line(b: &[u8], pos: usize, marker: u8) -> (r: Option<(usize, usize)>)
    ensures
        r == match parse_number_line(b@, pos as int, marker) {
            Some((v, q)) => Some((v as usize, q as usize)),
            None => None::<(usize, usize)>,
        },
        match r {
            Some((v, q)) => q <= b@.len() && v <= MAX_FRAME_NUMBER,
            None => true,
        },
{
    if pos >= b.len() || b[pos] != marker {
        return None;
    }
    let ghost end = digit_run_end(b@, pos + 1);
    proof {
        lemma_run_end(b@, pos + 1);
    }
    let mut i: usize = pos + 1;
    let mut v: u64 = 0;
    while i < b.len() && ZERO <= b[i] && b[i] <= 57
        invariant
            pos + 1 <= i <= end <= b@.len(),
            end == digit_run_end(b@, pos + 1),
            digit_run_end(b@, i as int) == end,
            forall|k: int| pos + 1 <= k < end ==> is_digit(#[trigger] b@[k]),
            end < b@.len() ==> !is_digit(b@[end]),
            all_digits(b@.subrange(pos + 1, i as int)),
            v as nat == digits_value(b@.subrange(pos + 1, i as int)),
            v <= MAX_FRAME_NUMBER,
        decreases b@.len() - i,
    {
        let d: u64 = (b[i] - ZERO) as u64;
        assert(b@.subrange(pos + 1, i + 1).drop_last() =~= b@.subrange(pos + 1, i as int));
        if v * 10 + d > MAX_FRAME_NUMBER {
            proof {
                let run = b@.subrange(pos + 1, end);
                assert(all_digits(run));
                assert(run.take(i + 1 - pos - 1) =~= b@.subrange(pos + 1, i + 1));
                lemma_digits_value_grows(run, i + 1 - pos - 1);
            }
            return None;
        }
        v = v * 10 + d;
        i = i + 1;
        assert(all_digits(b@.subrange(pos + 1, i as int)));
    }
    assert(i == end);
    if i == pos + 1 || b.len() - i < 2 || b[i] != 13u8 || b[i + 1] != 10u8 {
        return None;
    }
    Some((v as usize, i + 2))
}

/// Copies `b[from..to]`.
pub fn copy_range(b: &[u8], from: usize, to: usize) -> (r: Vec<u8>)
    requires
        from <= to <= b@.len(),
    ensures
        r@ == b@.subrange(from as int, to as int),
{
    let mut out: Vec<u8> = Vec::new();
    let mut i: usize = from;
    while i < to
        invariant
            from <= i <= to <= b@.len(),
            out@ == b@.subrange(from as int, i as int),
        decreases to - i,
    {
        out.push(b[i]);
        i = i + 1;
        assert(out@ =~= b@.subrange(from as int, i as int));
    }
    out
}

/// Reads one bulk string at `pos`.
fn read_bulk(b: &[u8], pos: usize) -> (r: Option<(Vec<u8>, usize)>)
    ensures
        match (parse_bulk(b@, pos as int), r) {
            (Some((a, q)), Some((v, q2))) => v@ == a && q2 == q,
            (None, None) => true,
            _ => false,
        },
{
    match read_number_line(b, pos, 36u8) {
        Some((l, p)) => {
            if l > b.len() - p || b.len() - p - l < 2 || b[p + l] != 13u8 || b[p + l + 1]
                != 10u8 {
                return None;
            }
            let a = copy_range(b, p, p + l);
            Some((a, p + l + 2))
        },
        None => None,
    }
}

impl Request {
    /// Parses one array request at the start of `buffer`.
    ///
    /// Returns the request and the exact number of bytes its frame spans, or
    /// `None` when the buffer does not yet hold a complete, well-formed frame.
    pub fn try_parse(buffer: &[u8]) -> (r: Option<(Request, usize)>)
        ensures
            match (spec_try_parse(buffer@), r) {
                (Some((args, n)), Some((req, m))) => req@ == args && m == n,
                (None, None) => true,
                _ => false,
            },
    {
        let header = read_number_line(buffer, 0, 42u8);
        let (n, p0) = match header {
            Some(x) => x,
            None => {
                return None;
            },
        };
        let blen = buffer.len();
        proof {
            match parse_number_line(buffer@, 0, 42u8) {
                Some((nv, pv)) => {
                    assert(crlf_at(buffer@, pv - 2));
                    assert(nv == n as nat);
                    assert(pv == p0 as int);
                },
                None => {},
            }
        }
        let ghost whole = parse_bulks(buffer@, p0 as int, n as nat);
        let mut args: Vec<Vec<u8>> = Vec::new();
        let mut pos: usize = p0;
        let mut i: usize = 0;
        while i < n
            invariant
                i <= n,
                pos <= buffer@.len(),
                whole == parse_bulks(buffer@, p0 as int, n as nat),
                spec_try_parse(buffer@) == match whole {
                    Some((a, q)) => Some((a, q as nat)),
                    None => None,
                },
                whole == match parse_bulks(buffer@, pos as int, (n - i) as nat) {
                    Some((rest, q)) => Some((views(args@) + rest, q)),
                    None => None,
                },
            decreases n - i,
        {
            match read_bulk(buffer, pos) {
                Some((a, q)) => {
                    proof {
                        let tail = parse_bulks(buffer@, q as int, (n - i - 1) as nat);
                        if let Some((rest, qq)) = tail {
                            assert(views(args@.push(a)) + rest =~= views(args@) + (seq![a@]
                                + rest));
                        }
                    }
                    args.push(a);
                    pos = q;
                    i = i + 1;
                },
                None => {
                    assert(parse_bulks(buffer@, pos as int, (n - i) as nat) is None);
                    return None;
                },
            }
        }
        assert(views(args@) + Seq::<Seq<u8>>::empty() =~= views(args@));
        Some((Request { args }, pos))
    }
}

/// `b` and `c` both have at least `q` bytes and agree on the first `q`.
pub open spec fn agree(b: Seq<u8>, c: Seq<u8>, q: int) -> bool {
    0 <= q <= b.len() && q <= c.len() && forall|k: int| 0 <= k < q ==> b[k] == c[k]
}

proof fn lemma_run_end_exact(b: Seq<u8>, i: int, m: int)
    requires
        0 <= i,
        0 <= m,
        i + m < b.len(),
        forall|k: int| i <= k < i + m ==> is_digit(#[trigger] b[k]),
        !is_digit(b[i + m]),
    ensures
        digit_run_end(b, i) == i + m,
    decreases m,
{
    if m > 0 {
        lemma_run_end_exact(b, i + 1, m - 1);
    }
}

proof fn lemma_number_line_of(b: Seq<u8>, pos: int, marker: u8, n: nat)
    requires
        n <= MAX_FRAME_NUMBER,
        0 <= pos,
        pos + dec(n).len() + 3 <= b.len(),
        b.subrange(pos, pos + dec(n).len() + 3) == seq![marker] + dec(n) + crlf(),
    ensures
        parse_number_line(b, pos, marker) == Some((n, pos + dec(n).len() + 3)),
{
    let d = dec(n);
    let h = seq![marker] + d + crlf();
    lemma_dec_len(n);
    lemma_dec_value(n);
    assert forall|k: int| pos + 1 <= k < pos + 1 + d.len() implies is_digit(#[trigger] b[k]) by {
        assert(b[k] == h[k - pos]);
        assert(h[k - pos] == d[k - pos - 1]);
    }
    assert(b[pos + 1 + d.len()] == h[1 + d.len() as int]);
    assert(b[pos + 2 + d.len()] == h[2 + d.len() as int]);
    assert(b[pos] == h[0]);
    lemma_run_end_exact(b, pos + 1, d.len() as int);
    assert(b.subrange(pos + 1, pos + 1 + d.len()) =~= d) by {
        assert forall|k: int| 0 <= k < d.len() implies b.subrange(pos + 1, pos + 1 + d.len())[k]
            == d[k] by {
            assert(b[pos + 1 + k] == h[1 + k]);
        }
    }
}

proof fn lemma_bulk_of(b: Seq<u8>, pos: int, s: Seq<u8>)
    requires
        s.len() <= MAX_FRAME_NUMBER,
        0 <= pos,
        pos + bulk(s).len() <= b.len(),
        b.subrange(pos, pos + bulk(s).len()) == bulk(s),
    ensures
        parse_bulk(b, pos) == Some((s, pos + bulk(s).len())),
{
    let d = dec(s.len());
    let h = seq![36u8] + d + crlf();
    let f = bulk(s);
    assert(f =~= h + s + crlf());
    assert(b.subrange(pos, pos + h.len()) =~= h) by {
        assert forall|k: int| 0 <= k < h.len() implies b.subrange(pos, pos + h.len())[k] == h[k] by {
            assert(b[pos + k] == f[k]);
        }
    }
    lemma_number_line_of(b, pos, 36u8, s.len());
    let p = pos + h.len();
    assert(b[p + s.len()] == f[(h.len() + s.len()) as int]);
    assert(b[p + s.len() + 1] == f[(h.len() + s.len() + 1) as int]);
    assert(b.subrange(p, p + s.len()) =~= s) by {
        assert forall|k: int| 0 <= k < s.len() implies b.subrange(p, p + s.len())[k] == s[k] by {
            assert(b[p + k] == f[h.len() + k]);
        }
    }
}

proof fn lemma_bulks_of(b: Seq<u8>, pos: int, items: Seq<Seq<u8>>)
    requires
        forall|i: int| 0 <= i < items.len() ==> (#[trigger] items[i]).len() <= MAX_FRAME_NUMBER,
        0 <= pos,
        pos + bulks(items).len() <= b.len(),
        b.subrange(pos, pos + bulks(items).len()) == bulks(items),
    ensures
        parse_bulks(b, pos, items.len()) == Some((items, pos + bulks(items).len())),
    decreases items.len(),
{
    if items.len() > 0 {
        let f = bulk(items[0]);
        let rest = items.drop_first();
        let all = bulks(items);
        assert(all == f + bulks(rest));
        assert(b.subrange(pos, pos + f.len()) =~= f) by {
            assert forall|k: int| 0 <= k < f.len() implies b.subrange(pos, pos + f.len())[k]
                == f[k] by {
                assert(b[pos + k] == all[k]);
            }
        }
        lemma_bulk_of(b, pos, items[0]);
        let p = pos + f.len();
        assert(b.subrange(p, p + bulks(rest).len()) =~= bulks(rest)) by {
            assert forall|k: int| 0 <= k < bulks(rest).len() implies b.subrange(
                p,
                p + bulks(rest).len(),
            )[k] == bulks(rest)[k] by {
                assert(b[p + k] == all[f.len() + k]);
            }
        }
        assert forall|i: int| 0 <= i < rest.len() implies (#[trigger] rest[i]).len()
            <= MAX_FRAME_NUMBER by {
            assert(rest[i] == items[i + 1]);
        }
        lemma_bulks_of(b, p, rest);
        assert(seq![items[0]] + rest =~= items);
    }
}

/// A request frame, whatever follows it, parses back to its arguments and
/// spans exactly its own length.
pub proof fn lemma_request_frame_parses(args: Seq<Seq<u8>>, suffix: Seq<u8>)
    requires
        args.len() <= MAX_FRAME_NUMBER,
        forall|i: int| 0 <= i < args.len() ==> (#[trigger] args[i]).len() <= MAX_FRAME_NUMBER,
    ensures
        spec_try_parse(request_frame(args) + suffix) == Some((args, request_frame(args).len())),
{
    let f = request_frame(args);
    let b = f + suffix;
    let h = seq![42u8] + dec(args.len()) + crlf();
    assert(f =~= h + bulks(args));
    assert(b.subrange(0, h.len() as int) =~= h) by {
        assert forall|k: int| 0 <= k < h.len() implies b.subrange(0, h.len() as int)[k] == h[k] by {
            assert(b[k] == f[k]);
        }
    }
    lemma_number_line_of(b, 0, 42u8, args.len());
    let p = h.len() as int;
    assert(b.subrange(p, p + bulks(args).len()) =~= bulks(args)) by {
        assert forall|k: int| 0 <= k < bulks(args).len() implies b.subrange(
            p,
            p + bulks(args).len(),
        )[k] == bulks(args)[k] by {
            assert(b[p + k] == f[p + k]);
        }
    }
    lemma_bulks_of(b, p, args);
}

proof fn lemma_run_end_agree(b: Seq<u8>, c: Seq<u8>, i: int, e: int)
    requires
        0 <= i <= e,
        digit_run_end(b, i) == e,
        agree(b, c, e + 1),
    ensures
        digit_run_end(c, i) == e,
    decreases e - i,
{
    if i < e {
        lemma_run_end(b, i);
        lemma_run_end_agree(b, c, i + 1, e);
    } else {
        lemma_run_end(b, i);
    }
}

proof fn lemma_number_line_agree(b: Seq<u8>, c: Seq<u8>, pos: int, marker: u8, q: int)
    requires
        parse_number_line(b, pos, marker) matches Some((_, qq)) && qq <= q,
        agree(b, c, q),
    ensures
        parse_number_line(c, pos, marker) == parse_number_line(b, pos, marker),
{
    let end = digit_run_end(b, pos + 1);
    lemma_run_end(b, pos + 1);
    lemma_run_end_agree(b, c, pos + 1, end);
    assert(b.subrange(pos + 1, end) =~= c.subrange(pos + 1, end));
}

proof fn lemma_bulk_agree(b: Seq<u8>, c: Seq<u8>, pos: int, q: int)
    requires
        parse_bulk(b, pos) matches Some((_, qq)) && qq <= q,
        agree(b, c, q),
    ensures
        parse_bulk(c, pos) == parse_bulk(b, pos),
{
    let (l, p) = parse_number_line(b, pos, 36u8)->0;
    lemma_number_line_agree(b, c, pos, 36u8, q);
    assert(b.subrange(p, p + l) =~= c.subrange(p, p + l));
}

proof fn lemma_bulks_agree(b: Seq<u8>, c: Seq<u8>, pos: int, k: nat, q: int)
    requires
        parse_bulks(b, pos, k) matches Some((_, qq)) && qq <= q,
        agree(b, c, q),
    ensures
        parse_bulks(c, pos, k) == parse_bulks(b, pos, k),
    decreases k,
{
    if k > 0 {
        let (a, p) = parse_bulk(b, pos)->0;
        lemma_bulks_advance(b, p, (k - 1) as nat);
        lemma_bulk_agree(b, c, pos, q);
        lemma_bulks_agree(b, c, p, (k - 1) as nat, q);
    }
}

proof fn lemma_bulks_advance(b: Seq<u8>, pos: int, k: nat)
    requires
        parse_bulks(b, pos, k) is Some,
    ensures
        match parse_bulks(b, pos, k) {
            Some((_, qq)) => qq >= pos,
            None => true,
        },
    decreases k,
{
    if k > 0 {
        let (a, p) = parse_bulk(b, pos)->0;
        lemma_bulks_advance(b, p, (k - 1) as nat);
    }
}

proof fn lemma_bulks_within(b: Seq<u8>, pos: int, k: nat)
    requires
        0 <= pos <= b.len(),
        parse_bulks(b, pos, k) is Some,
    ensures
        match parse_bulks(b, pos, k) {
            Some((_, qq)) => qq <= b.len(),
            None => true,
        },
    decreases k,
{
    if k > 0 {
        let (a, p) = parse_bulk(b, pos)->0;
        lemma_bulks_within(b, p, (k - 1) as nat);
    }
}

/// A frame cut short anywhere is reported as incomplete.
pub proof fn lemma_truncated_frame_incomplete(args: Seq<Seq<u8>>, k: int)
    requires
        args.len() <= MAX_FRAME_NUMBER,
        forall|i: int| 0 <= i < args.len() ==> (#[trigger] args[i]).len() <= MAX_FRAME_NUMBER,
        0 <= k < request_frame(args).len(),
    ensures
        spec_try_parse(request_frame(args).take(k)) is None,
{
    let f = request_frame(args);
    let c = f.take(k);
    lemma_request_frame_parses(args, Seq::<u8>::empty());
    assert(f + Seq::<u8>::empty() =~= f);
    if let Some((a, q)) = spec_try_parse(c) {
        let (n, p) = parse_number_line(c, 0, 42u8)->0;
        lemma_bulks_advance(c, p, n);
        lemma_bulks_within(c, p, n);
        lemma_number_line_agree(c, f, 0, 42u8, q as int);
        lemma_bulks_agree(c, f, p, n, q as int);
        assert(spec_try_parse(f) == Some((a, q)));
    }
}

} // verus!
