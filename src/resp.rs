//! The RESP wire format: framing of requests and encoding of replies.
use vstd::prelude::*;
use crate::decimal::{
    dec, dec_int, digits_value, is_digit, push_dec,
    push_dec_i64,
};

verus! {

/// Largest count or length that a request frame may announce.
pub const MAX_FRAME_NUMBER: u64 = 0x7fff_ffff;

pub open spec fn crlf() -> Seq<u8> {
    seq![13u8, 10u8]
}

pub open spec fn crlf_at(b: Seq<u8>, i: int) -> bool {
    0 <= i && i + 1 < b.len() && b[i] == 13u8 && b[i + 1] == 10u8
}

/// The first index at or after `i` that does not hold a digit.
pub open spec fn digit_run_end(b: Seq<u8>, i: int) -> int
    decreases b.len() - i,
{
    if 0 <= i < b.len() && is_digit(b[i]) {
        digit_run_end(b, i + 1)
    } else {
        i
    }
}

/// A line `<marker><digits>\r\n` at `pos`: the number and the index after the line.
pub open spec fn parse_number_line(b: Seq<u8>, pos: int, marker: u8) -> Option<(nat, int)> {
    if 0 <= pos < b.len() && b[pos] == marker {
        let end = digit_run_end(b, pos + 1);
        let v = digits_value(b.subrange(pos + 1, end));
        if end > pos + 1 && crlf_at(b, end) && v <= MAX_FRAME_NUMBER {
            Some((v, end + 2))
        } else {
            None
        }
    } else {
        None
    }
}

/// A bulk string `$<L>\r\n<L bytes>\r\n` at `pos`.
pub open spec fn parse_bulk(b: Seq<u8>, pos: int) -> Option<(Seq<u8>, int)> {
    match parse_number_line(b, pos, 36u8) {
        Some((l, p)) => if p + l + 2 <= b.len() && crlf_at(b, p + l) {
            Some((b.subrange(p, p + l), p + l + 2))
        } else {
            None
        },
        None => None,
    }
}

/// `k` bulk strings one after the other, from `pos`.
pub open spec fn parse_bulks(b: Seq<u8>, pos: int, k: nat) -> Option<(Seq<Seq<u8>>, int)>
    decreases k,
{
    if k == 0 {
        Some((Seq::<Seq<u8>>::empty(), pos))
    } else {
        match parse_bulk(b, pos) {
            Some((a, p)) => match parse_bulks(b, p, (k - 1) as nat) {
                Some((rest, q)) => Some((seq![a] + rest, q)),
                None => None,
            },
            None => None,
        }
    }
}

/// One array request at the start of `b`: its arguments and the bytes it spans,
/// or `None` when `b` does not start with a complete, well-formed request.
pub open spec fn spec_try_parse(b: Seq<u8>) -> Option<(Seq<Seq<u8>>, nat)> {
    match parse_number_line(b, 0, 42u8) {
        Some((n, p)) => match parse_bulks(b, p, n) {
            Some((args, q)) => Some((args, q as nat)),
            None => None,
        },
        None => None,
    }
}

/// `$<len>\r\n<bytes>\r\n`
pub open spec fn bulk(s: Seq<u8>) -> Seq<u8> {
    seq![36u8] + dec(s.len()) + crlf() + s + crlf()
}

pub open spec fn bulks(items: Seq<Seq<u8>>) -> Seq<u8>
    decreases items.len(),
{
    if items.len() == 0 {
        Seq::<u8>::empty()
    } else {
        bulk(items[0]) + bulks(items.drop_first())
    }
}

/// The request frame `*<N>\r\n` followed by one bulk string per argument.
pub open spec fn request_frame(args: Seq<Seq<u8>>) -> Seq<u8> {
    seq![42u8] + dec(args.len()) + crlf() + bulks(args)
}

/// `+<msg>\r\n`
pub open spec fn simple(msg: Seq<u8>) -> Seq<u8> {
    seq![43u8] + msg + crlf()
}

/// `-<msg>\r\n`
pub open spec fn error(msg: Seq<u8>) -> Seq<u8> {
    seq![45u8] + msg + crlf()
}

/// `:<n>\r\n`
pub open spec fn integer(n: int) -> Seq<u8> {
    seq![58u8] + dec_int(n) + crlf()
}

/// `$-1\r\n`
pub open spec fn null_bulk() -> Seq<u8> {
    seq![36u8, 45u8, 49u8, 13u8, 10u8]
}

/// `*-1\r\n`
pub open spec fn null_array() -> Seq<u8> {
    seq![42u8, 45u8, 49u8, 13u8, 10u8]
}

pub open spec fn nullable_bulk(item: Option<Seq<u8>>) -> Seq<u8> {
    match item {
        Some(s) => bulk(s),
        None => null_bulk(),
    }
}

pub open spec fn nullable_bulks(items: Seq<Option<Seq<u8>>>) -> Seq<u8>
    decreases items.len(),
{
    if items.len() == 0 {
        Seq::<u8>::empty()
    } else {
        nullable_bulk(items[0]) + nullable_bulks(items.drop_first())
    }
}

/// `*<N>\r\n` followed by the frames of the items, a null bulk for each absent one.
pub open spec fn array(items: Seq<Option<Seq<u8>>>) -> Seq<u8> {
    array_header(items.len()) + nullable_bulks(items)
}

pub open spec fn array_header(n: nat) -> Seq<u8> {
    seq![42u8] + dec(n) + crlf()
}

/// Array of frames that are already encoded, concatenated.
pub open spec fn concat(frames: Seq<Seq<u8>>) -> Seq<u8>
    decreases frames.len(),
{
    if frames.len() == 0 {
        Seq::<u8>::empty()
    } else {
        frames[0] + concat(frames.drop_first())
    }
}

/// Snapshot handoff: `$<len>\r\n<bytes>`, with no trailing line break.
pub open spec fn blob(s: Seq<u8>) -> Seq<u8> {
    seq![36u8] + dec(s.len()) + crlf() + s
}

pub open spec fn views(v: Seq<Vec<u8>>) -> Seq<Seq<u8>> {
    v.map_values(|a: Vec<u8>| a@)
}

/// Appends `s` to `out`.
pub fn push_all(out: &mut Vec<u8>, s: &[u8])
    ensures
        final(out)@ == old(out)@ + s@,
{
    let mut i: usize = 0;
    while i < s.len()
        invariant
            i <= s@.len(),
            out@ == old(out)@ + s@.take(i as int),
        decreases s@.len() - i,
    {
        out.push(s[i]);
        i = i + 1;
        assert(out@ =~= old(out)@ + s@.take(i as int));
    }
    assert(s@.take(i as int) =~= s@);
}

pub fn push_crlf(out: &mut Vec<u8>)
    ensures
        final(out)@ == old(out)@ + crlf(),
{
    out.push(13u8);
    out.push(10u8);
    assert(final(out)@ =~= old(out)@ + crlf());
}

/// Appends `$<len>\r\n<bytes>\r\n`.
pub fn push_bulk(out: &mut Vec<u8>, s: &[u8])
    ensures
        final(out)@ == old(out)@ + bulk(s@),
{
    out.push(36u8);
    push_dec(out, s.len() as u64);
    push_crlf(out);
    push_all(out, s);
    push_crlf(out);
    assert(final(out)@ =~= old(out)@ + bulk(s@));
}

/// Appends `*<n>\r\n`.
pub fn push_array_header(out: &mut Vec<u8>, n: usize)
    ensures
        final(out)@ == old(out)@ + array_header(n as nat),
{
    out.push(42u8);
    push_dec(out, n as u64);
    push_crlf(out);
    assert(final(out)@ =~= old(out)@ + array_header(n as nat));
}

/// A simple string reply.
pub fn simple_string(msg: &[u8]) -> (r: Vec<u8>)
    ensures
        r@ == simple(msg@),
{
    let mut out: Vec<u8> = Vec::new();
    out.push(43u8);
    push_all(&mut out, msg);
    push_crlf(&mut out);
    assert(out@ =~= simple(msg@));
    out
}

/// An error reply; `msg` starts with its kind (`ERR`, `WRONGTYPE`).
pub fn error_reply(msg: &[u8]) -> (r: Vec<u8>)
    ensures
        r@ == error(msg@),
{
    let mut out: Vec<u8> = Vec::new();
    out.push(45u8);
    push_all(&mut out, msg);
    push_crlf(&mut out);
    assert(out@ =~= error(msg@));
    out
}

/// An integer reply.
pub fn integer_reply(n: i64) -> (r: Vec<u8>)
    ensures
        r@ == integer(n as int),
{
    let mut out: Vec<u8> = Vec::new();
    out.push(58u8);
    push_dec_i64(&mut out, n);
    push_crlf(&mut out);
    assert(out@ =~= integer(n as int));
    out
}

/// An integer reply of a count.
pub fn count_reply(n: usize) -> (r: Vec<u8>)
    ensures
        r@ == integer(n as int),
{
    let mut out: Vec<u8> = Vec::new();
    out.push(58u8);
    push_dec(&mut out, n as u64);
    push_crlf(&mut out);
    assert(out@ =~= integer(n as int));
    out
}

/// A bulk string reply.
pub fn bulk_string(s: &[u8]) -> (r: Vec<u8>)
    ensures
        r@ == bulk(s@),
{
    let mut out: Vec<u8> = Vec::new();
    push_bulk(&mut out, s);
    assert(out@ =~= bulk(s@));
    out
}

/// The null bulk string reply.
pub fn null_bulk_string() -> (r: Vec<u8>)
    ensures
        r@ == null_bulk(),
{
    let r: Vec<u8> = vec![36u8, 45u8, 49u8, 13u8, 10u8];
    assert(r@ =~= null_bulk());
    r
}

/// The null array reply.
pub fn null_array_reply() -> (r: Vec<u8>)
    ensures
        r@ == null_array(),
{
    let r: Vec<u8> = vec![42u8, 45u8, 49u8, 13u8, 10u8];
    assert(r@ =~= null_array());
    r
}

/// An array reply of bulk strings, a null bulk for each absent item.
pub fn array_reply(items: &Vec<Option<Vec<u8>>>) -> (r: Vec<u8>)
    ensures
        r@ == array(items@.map_values(|o: Option<Vec<u8>>| opt_view(o))),
{
    let ghost it = items@.map_values(|o: Option<Vec<u8>>| opt_view(o));
    let mut out: Vec<u8> = Vec::new();
    push_array_header(&mut out, items.len());
    let mut i: usize = 0;
    assert(it.skip(0) =~= it);
    while i < items.len()
        invariant
            i <= items@.len(),
            it == items@.map_values(|o: Option<Vec<u8>>| opt_view(o)),
            out@ + nullable_bulks(it.skip(i as int)) == array(it),
        decreases items@.len() - i,
    {
        assert(it.skip(i as int).drop_first() =~= it.skip(i + 1));
        match &items[i] {
            Some(s) => push_bulk(&mut out, s.as_slice()),
            None => push_all(&mut out, null_bulk_string().as_slice()),
        }
        i = i + 1;
        assert(out@ + nullable_bulks(it.skip(i as int)) =~= array(it));
    }
    assert(it.skip(i as int) =~= Seq::<Option<Seq<u8>>>::empty());
    assert(out@ =~= array(it));
    out
}

pub open spec fn opt_view(o: Option<Vec<u8>>) -> Option<Seq<u8>> {
    match o {
        Some(v) => Some(v@),
        None => None,
    }
}

/// An array reply of bulk strings, all present.
pub fn string_array_reply(items: &Vec<Vec<u8>>) -> (r: Vec<u8>)
    ensures
        r@ == array(views(items@).map_values(|s: Seq<u8>| Some(s))),
{
    let ghost it = views(items@).map_values(|s: Seq<u8>| Some(s));
    let mut out: Vec<u8> = Vec::new();
    push_array_header(&mut out, items.len());
    let mut i: usize = 0;
    assert(it.skip(0) =~= it);
    while i < items.len()
        invariant
            i <= items@.len(),
            it == views(items@).map_values(|s: Seq<u8>| Some(s)),
            out@ + nullable_bulks(it.skip(i as int)) == array(it),
        decreases items@.len() - i,
    {
        assert(it.skip(i as int).drop_first() =~= it.skip(i + 1));
        push_bulk(&mut out, items[i].as_slice());
        i = i + 1;
        assert(out@ + nullable_bulks(it.skip(i as int)) =~= array(it));
    }
    assert(it.skip(i as int) =~= Seq::<Option<Seq<u8>>>::empty());
    assert(out@ =~= array(it));
    out
}

/// An array reply whose items are frames already encoded.
pub fn frames_array_reply(frames: &Vec<Vec<u8>>) -> (r: Vec<u8>)
    ensures
        r@ == array_header(frames@.len()) + concat(views(frames@)),
{
    let ghost fr = views(frames@);
    let mut out: Vec<u8> = Vec::new();
    push_array_header(&mut out, frames.len());
    let mut i: usize = 0;
    assert(fr.skip(0) =~= fr);
    while i < frames.len()
        invariant
            i <= frames@.len(),
            fr == views(frames@),
            out@ + concat(fr.skip(i as int)) == array_header(frames@.len()) + concat(fr),
        decreases frames@.len() - i,
    {
        assert(fr.skip(i as int).drop_first() =~= fr.skip(i + 1));
        push_all(&mut out, frames[i].as_slice());
        i = i + 1;
        assert(out@ + concat(fr.skip(i as int)) =~= array_header(frames@.len()) + concat(fr));
    }
    assert(fr.skip(i as int) =~= Seq::<Seq<u8>>::empty());
    assert(out@ =~= array_header(frames@.len()) + concat(fr));
    out
}

/// The snapshot handoff frame: a bulk header and the raw bytes, no trailing line break.
pub fn blob_reply(s: &[u8]) -> (r: Vec<u8>)
    ensures
        r@ == blob(s@),
{
    let mut out: Vec<u8> = Vec::new();
    out.push(36u8);
    push_dec(&mut out, s.len() as u64);
    push_crlf(&mut out);
    push_all(&mut out, s);
    assert(out@ =~= blob(s@));
    out
}

/// The request frame of `args`, as a client or a master sends it.
pub fn request_bytes(args: &Vec<Vec<u8>>) -> (r: Vec<u8>)
    ensures
        r@ == request_frame(views(args@)),
{
    let ghost a = views(args@);
    let mut out: Vec<u8> = Vec::new();
    push_array_header(&mut out, args.len());
    let mut i: usize = 0;
    assert(a.skip(0) =~= a);
    while i < args.len()
        invariant
            i <= args@.len(),
            a == views(args@),
            out@ + bulks(a.skip(i as int)) == request_frame(a),
        decreases args@.len() - i,
    {
        assert(a.skip(i as int).drop_first() =~= a.skip(i + 1));
        push_bulk(&mut out, args[i].as_slice());
        i = i + 1;
        assert(out@ + bulks(a.skip(i as int)) =~= request_frame(a));
    }
    assert(a.skip(i as int) =~= Seq::<Seq<u8>>::empty());
    assert(out@ =~= request_frame(a));
    out
}

} // verus!
