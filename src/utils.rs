//! Key patterns and replication offset arithmetic.
use vstd::prelude::*;
use crate::stream::{find_byte, find_byte_from};
use crate::table::bytes_eq;

verus! {

pub open spec fn starts_with(w: Seq<u8>, p: Seq<u8>) -> bool {
    p.len() <= w.len() && w.subrange(0, p.len() as int) == p
}

pub open spec fn ends_with(w: Seq<u8>, s: Seq<u8>) -> bool {
    s.len() <= w.len() && w.subrange(w.len() - s.len(), w.len() as int) == s
}

/// Glob with one `*`: the text before the first `*` must begin the word and
/// the text after it must end the word, without overlapping; a pattern with
/// no `*` must equal the word, and the empty pattern matches nothing.
pub open spec fn spec_matches(pattern: Seq<u8>, word: Seq<u8>) -> bool {
    let i = find_byte(pattern, 42u8);
    let prefix = pattern.subrange(0, i);
    let suffix = pattern.subrange(i + 1, pattern.len() as int);
    if pattern.len() == 0 {
        false
    } else if i < pattern.len() {
        starts_with(word, prefix) && ends_with(word, suffix) && prefix.len() + suffix.len()
            <= word.len()
    } else {
        pattern == word
    }
}

fn starts_with_exec(w: &[u8], p: &[u8]) -> (r: bool)
    ensures
        r == starts_with(w@, p@),
{
    if p.len() > w.len() {
        return false;
    }
    bytes_eq(&w[0..p.len()], p)
}

fn ends_with_exec(w: &[u8], s: &[u8]) -> (r: bool)
    ensures
        r == ends_with(w@, s@),
{
    if s.len() > w.len() {
        return false;
    }
    bytes_eq(&w[w.len() - s.len()..w.len()], s)
}

/// Whether `word` matches the key pattern `pattern`.
pub fn is_matched(pattern: &[u8], word: &[u8]) -> (r: bool)
    ensures
        r == spec_matches(pattern@, word@),
{
    if pattern.len() == 0 {
        return false;
    }
    let i = find_byte_from(pattern, 0, 42u8);
    assert(pattern@.subrange(0, pattern@.len() as int) =~= pattern@);
    if i < pattern.len() {
        let prefix = &pattern[0..i];
        let suffix = &pattern[i + 1..pattern.len()];
        starts_with_exec(word, prefix) && ends_with_exec(word, suffix) && prefix.len()
            <= word.len() - suffix.len()
    } else {
        bytes_eq(pattern, word)
    }
}

/// How far a replica's acknowledged offset lags the master's.
pub fn offset_difference(master_offset: usize, replica_offset: usize) -> (r: usize)
    requires
        replica_offset <= master_offset,
    ensures
        r == master_offset - replica_offset,
{
    master_offset - replica_offset
}

/// The byte length of a frame.
pub fn num_bytes(s: &[u8]) -> (r: usize)
    ensures
        r == s@.len(),
{
    s.len()
}

} // verus!
