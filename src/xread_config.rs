//! The options of `XREAD`.
use vstd::prelude::*;
use vstd::string::StringSliceAdditionalSpecFns;
use crate::decimal::{parse_u64, spec_parse_u64};
use crate::resp::{push_all, views};
use crate::table::copy_bytes;
use crate::text::{eq_word, is_word, lit};

verus! {

/// `XREAD [COUNT n] [BLOCK ms] STREAMS key... id...`, read.
pub struct XreadConfig {
    pub count: Option<u64>,
    pub block: Option<u64>,
    /// Each stream key with the identifier to read after.
    pub streams: Vec<(Vec<u8>, Vec<u8>)>,
}

/// Pairs the first half of `s` with the second half.
pub open spec fn halves(s: Seq<Seq<u8>>) -> Seq<(Seq<u8>, Seq<u8>)> {
    Seq::new(s.len() / 2, |i: int| (s[i], s[i + s.len() / 2]))
}

/// The options from `args[i..]`: `Ok((count, block, streams))`, or the error
/// text and the position where reading stopped.
pub open spec fn spec_xread_args(args: Seq<Seq<u8>>, i: int, count: Option<u64>, block: Option<u64>) -> Result<(Option<u64>, Option<u64>, Seq<(Seq<u8>, Seq<u8>)>), (Seq<u8>, int)>
    decreases args.len() - i,
{
    if i < 0 || i >= args.len() {
        Err(("Missing STREAMS argument".spec_bytes(), i))
    } else if is_word(args[i], "count") || is_word(args[i], "block") {
        let is_count = is_word(args[i], "count");
        if i + 1 >= args.len() {
            Err((if is_count { "COUNT requires an argument".spec_bytes() } else { "BLOCK requires an argument".spec_bytes() }, i))
        } else {
            match spec_parse_u64(args[i + 1]) {
                None => Err((if is_count { "COUNT must be an integer".spec_bytes() } else { "BLOCK must be an integer".spec_bytes() }, i)),
                Some(n) => if is_count {
                    spec_xread_args(args, i + 2, Some(n), block)
                } else {
                    spec_xread_args(args, i + 2, count, Some(n))
                },
            }
        }
    } else if is_word(args[i], "streams") {
        let rest = args.skip(i + 1);
        if rest.len() == 0 || rest.len() % 2 != 0 {
            Err(("STREAMS must be followed by keys and their corresponding IDs".spec_bytes(), i + 1))
        } else {
            Ok((count, block, halves(rest)))
        }
    } else {
        Err(("Unknown or misplaced argument: ".spec_bytes() + args[i], i))
    }
}

pub open spec fn stream_pairs(s: Seq<(Vec<u8>, Vec<u8>)>) -> Seq<(Seq<u8>, Seq<u8>)> {
    s.map_values(|p: (Vec<u8>, Vec<u8>)| (p.0@, p.1@))
}

impl XreadConfig {
    /// Reads the options; returns them, how many arguments were read (at
    /// least one when there is an error) and the error text, if any.
    pub fn from_args(args: &[Vec<u8>]) -> (r: (Self, usize, Option<Vec<u8>>))
        ensures
            match spec_xread_args(views(args@), 0, None, None) {
                Ok((c, b, s)) => r.2 is None && r.1 == args@.len() && r.0.count == c && r.0.block == b
                    && stream_pairs(r.0.streams@) == s,
                Err((m, at)) => r.2 matches Some(e) && e@ == m && r.1 == (if at < 1 { 1 } else { at }),
            },
    {
        let ghost a = views(args@);
        let mut count: Option<u64> = None;
        let mut block: Option<u64> = None;
        let mut i: usize = 0;
        while i < args.len() && (eq_word(args[i].as_slice(), "count") || eq_word(args[i].as_slice(), "block"))
            invariant
                i <= args@.len(),
                a == views(args@),
                spec_xread_args(a, 0, None, None) == spec_xread_args(a, i as int, count, block),
            decreases args@.len() - i,
        {
            let is_count = eq_word(args[i].as_slice(), "count");
            assert(a[i as int] == args@[i as int]@);
            if args.len() - i < 2 {
                let msg = if is_count { "COUNT requires an argument" } else { "BLOCK requires an argument" };
                let at: usize = if i < 1 { 1 } else { i };
                return (XreadConfig { count, block, streams: Vec::new() }, at, Some(copy_bytes(lit(msg))));
            }
            assert(a[i + 1] == args@[i + 1]@);
            match parse_u64(args[i + 1].as_slice()) {
                Some(n) => {
                    if is_count {
                        count = Some(n);
                    } else {
                        block = Some(n);
                    }
                },
                None => {
                    let msg = if is_count { "COUNT must be an integer" } else { "BLOCK must be an integer" };
                    let at: usize = if i < 1 { 1 } else { i };
                    return (XreadConfig { count, block, streams: Vec::new() }, at, Some(copy_bytes(lit(msg))));
                },
            }
            i = i + 2;
        }
        if i == args.len() {
            let at: usize = if i < 1 { 1 } else { i };
            return (XreadConfig { count, block, streams: Vec::new() }, at, Some(copy_bytes(lit("Missing STREAMS argument"))));
        }
        assert(a[i as int] == args@[i as int]@);
        if !eq_word(args[i].as_slice(), "streams") {
            let mut msg = copy_bytes(lit("Unknown or misplaced argument: "));
            push_all(&mut msg, args[i].as_slice());
            let at: usize = if i < 1 { 1 } else { i };
            return (XreadConfig { count, block, streams: Vec::new() }, at, Some(msg));
        }
        let rest = args.len() - i - 1;
        if rest == 0 || rest % 2 != 0 {
            return (XreadConfig { count, block, streams: Vec::new() }, i + 1, Some(copy_bytes(lit("STREAMS must be followed by keys and their corresponding IDs"))));
        }
        let h = rest / 2;
        let ghost target = halves(a.skip(i + 1));
        let mut streams: Vec<(Vec<u8>, Vec<u8>)> = Vec::new();
        let mut j: usize = 0;
        let n = args.len();
        while j < h
            invariant
                n == args@.len(),
                j <= h,
                h == rest / 2,
                rest == args@.len() - i - 1,
                rest % 2 == 0,
                rest == 2 * h,
                i < args@.len(),
                a == views(args@),
                target == halves(a.skip(i + 1)),
                stream_pairs(streams@) == target.take(j as int),
            decreases h - j,
        {
            let ghost prev = streams@;
            streams.push((copy_bytes(args[i + 1 + j].as_slice()), copy_bytes(args[i + 1 + h + j].as_slice())));
            assert(a.skip(i + 1).len() == rest);
            assert(a.skip(i + 1)[j as int] == args@[i + 1 + j]@);
            assert(a.skip(i + 1)[j + h] == args@[i + 1 + h + j]@);
            assert(target[j as int] == (args@[i + 1 + j]@, args@[i + 1 + h + j]@));
            assert(stream_pairs(streams@) =~= stream_pairs(prev).push((args@[i + 1 + j]@, args@[i + 1 + h + j]@)));
            assert(target.take(j + 1) =~= target.take(j as int).push(target[j as int]));
            assert(stream_pairs(streams@) =~= target.take(j + 1));
            j = j + 1;
        }
        assert(target.take(j as int) =~= target);
        (XreadConfig { count, block, streams }, args.len(), None)
    }
}

} // verus!
