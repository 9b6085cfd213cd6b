//! ASCII case folding and byte views of text literals.
use vstd::prelude::*;
use vstd::string::StringSliceAdditionalSpecFns;

verus! {

pub open spec fn lower_byte(c: u8) -> u8 {
    if 65 <= c <= 90 {
        (c + 32) as u8
    } else {
        c
    }
}

/// ASCII lowercase of a byte string.
pub open spec fn lower(s: Seq<u8>) -> Seq<u8> {
    s.map_values(|c: u8| lower_byte(c))
}

/// Whether `a`, lowercased, is the text `word`.
pub open spec fn is_word(a: Seq<u8>, word: &str) -> bool {
    lower(a) == word.spec_bytes()
}

/// The bytes of a text literal.
pub fn lit(s: &'static str) -> (r: &'static [u8])
    ensures
        r@ == s.spec_bytes(),
{
    s.as_bytes()
}

/// Whether `a`, lowercased, equals `word`.
pub fn eq_word(a: &[u8], word: &str) -> (r: bool)
    ensures
        r == is_word(a@, word),
{
    let w = word.as_bytes();
    if a.len() != w.len() {
        assert(lower(a@).len() == a@.len());
        return false;
    }
    let mut i: usize = 0;
    while i < a.len()
        invariant
            i <= a@.len(),
            a@.len() == w@.len(),
            w@ == word.spec_bytes(),
            forall|k: int| 0 <= k < i ==> lower_byte(a@[k]) == w@[k],
        decreases a@.len() - i,
    {
        let c = a[i];
        let l: u8 = if 65 <= c && c <= 90 { c + 32 } else { c };
        if l != w[i] {
            assert(lower(a@)[i as int] != w@[i as int]);
            return false;
        }
        i = i + 1;
    }
    assert(lower(a@) =~= w@);
    true
}

} // verus!
