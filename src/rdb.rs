//! Reading the snapshot file format: length and string encodings, expiry
//! records, key-value records and the metadata header.
use vstd::prelude::*;
use crate::decimal::{dec_int, push_dec_i64};
use crate::request::copy_range;
use crate::table::Table;

verus! {

pub open spec fn be16(b: Seq<u8>, i: int) -> nat {
    b[i] as nat * 256 + b[i + 1] as nat
}

pub open spec fn be32(b: Seq<u8>, i: int) -> nat {
    b[i] as nat * 16777216 + b[i + 1] as nat * 65536 + b[i + 2] as nat * 256 + b[i + 3] as nat
}

pub open spec fn le32(b: Seq<u8>, i: int) -> nat {
    b[i] as nat + b[i + 1] as nat * 256 + b[i + 2] as nat * 65536 + b[i + 3] as nat * 16777216
}

pub open spec fn le64(b: Seq<u8>, i: int) -> nat {
    le32(b, i) + le32(b, i + 4) * 4294967296
}

/// A length: its value and the bytes its encoding spans, or `None` when the
/// first byte's top bits are `11` or bytes are missing.
pub open spec fn spec_parse_len(b: Seq<u8>) -> Option<(nat, nat)> {
    if b.len() == 0 {
        None
    } else if b[0] < 64 {
        Some((b[0] as nat, 1))
    } else if b[0] < 128 {
        if b.len() >= 2 {
            Some(((b[0] - 64) as nat * 256 + b[1] as nat, 2))
        } else {
            None
        }
    } else if b[0] < 192 {
        if b.len() >= 5 {
            Some((be32(b, 1), 5))
        } else {
            None
        }
    } else {
        None
    }
}

/// Two's-complement reading of an unsigned value of `bits` bits.
pub open spec fn signed(u: nat, bits: nat) -> int {
    if bits == 8 {
        if u >= 128 { u - 256 } else { u as int }
    } else if bits == 16 {
        if u >= 32768 { u - 65536 } else { u as int }
    } else {
        if u >= 2147483648 { u - 4294967296 } else { u as int }
    }
}

/// A string: its bytes and the bytes its encoding spans. A length-prefixed
/// string is taken as it is; an integer-encoded one becomes its decimal text.
pub open spec fn spec_parse_string(b: Seq<u8>) -> Option<(Seq<u8>, nat)> {
    if b.len() == 0 {
        None
    } else if b[0] < 192 {
        match spec_parse_len(b) {
            Some((l, o)) => if o + l <= b.len() {
                Some((b.subrange(o as int, (o + l) as int), o + l))
            } else {
                None
            },
            None => None,
        }
    } else if b[0] == 192 && b.len() >= 2 {
        Some((dec_int(signed(b[1] as nat, 8)), 2))
    } else if b[0] == 193 && b.len() >= 3 {
        Some((dec_int(signed(be16(b, 1), 16)), 3))
    } else if b[0] == 194 && b.len() >= 5 {
        Some((dec_int(signed(be32(b, 1), 32)), 5))
    } else {
        None
    }
}

fn read_be32(b: &[u8], i: usize) -> (r: u64)
    requires
        i + 4 <= b@.len(),
    ensures
        r as nat == be32(b@, i as int),
{
    (b[i] as u64) * 16777216 + (b[i + 1] as u64) * 65536 + (b[i + 2] as u64) * 256 + (b[i
        + 3] as u64)
}

fn read_le32(b: &[u8], i: usize) -> (r: u64)
    requires
        i + 4 <= b@.len(),
    ensures
        r as nat == le32(b@, i as int),
        r < 4294967296,
{
    (b[i] as u64) + (b[i + 1] as u64) * 256 + (b[i + 2] as u64) * 65536 + (b[i + 3] as u64)
        * 16777216
}

/// Reads a length encoding at the start of `bytes`, if there is a whole one.
pub fn try_parse_len(bytes: &[u8]) -> (r: Option<(usize, usize)>)
    ensures
        match spec_parse_len(bytes@) {
            Some((l, n)) => r == Some((l as usize, n as usize)),
            None => r is None,
        },
{
    if bytes.len() == 0 {
        return None;
    }
    let first = bytes[0];
    if first < 64 {
        Some((first as usize, 1))
    } else if first < 128 {
        if bytes.len() < 2 {
            return None;
        }
        Some((((first - 64) as usize) * 256 + bytes[1] as usize, 2))
    } else if first < 192 {
        if bytes.len() < 5 {
            return None;
        }
        let v = read_be32(bytes, 1);
        assert(v <= u32::MAX);
        Some((v as usize, 5))
    } else {
        None
    }
}

/// Reads a length encoding at the start of `bytes`: the length and the bytes
/// the encoding spans.
pub fn parse_len(bytes: &[u8]) -> (r: (usize, usize))
    requires
        spec_parse_len(bytes@) is Some,
    ensures
        spec_parse_len(bytes@) == Some((r.0 as nat, r.1 as nat)),
{
    match try_parse_len(bytes) {
        Some(x) => x,
        None => (0, 0),
    }
}

/// Reads a string encoding at the start of `bytes`, if there is a whole one.
pub fn try_parse_string(bytes: &[u8]) -> (r: Option<(Vec<u8>, usize)>)
    ensures
        match (spec_parse_string(bytes@), r) {
            (Some((s, n)), Some((v, m))) => v@ == s && m as nat == n,
            (None, None) => true,
            _ => false,
        },
{
    if bytes.len() == 0 {
        return None;
    }
    let first = bytes[0];
    if first < 192 {
        match try_parse_len(bytes) {
            Some((len, offset)) => {
                if len > bytes.len() - offset {
                    return None;
                }
                let s = copy_range(bytes, offset, offset + len);
                Some((s, offset + len))
            },
            None => None,
        }
    } else {
        let mut out: Vec<u8> = Vec::new();
        if first == 192 && bytes.len() >= 2 {
            let u = bytes[1] as i64;
            let v: i64 = if u >= 128 { u - 256 } else { u };
            push_dec_i64(&mut out, v);
            assert(out@ =~= dec_int(signed(bytes@[1] as nat, 8)));
            Some((out, 2))
        } else if first == 193 && bytes.len() >= 3 {
            let u = (bytes[1] as i64) * 256 + bytes[2] as i64;
            let v: i64 = if u >= 32768 { u - 65536 } else { u };
            push_dec_i64(&mut out, v);
            assert(out@ =~= dec_int(signed(be16(bytes@, 1), 16)));
            Some((out, 3))
        } else if first == 194 && bytes.len() >= 5 {
            let u = read_be32(bytes, 1) as i64;
            let v: i64 = if u >= 2147483648 { u - 4294967296 } else { u };
            push_dec_i64(&mut out, v);
            assert(out@ =~= dec_int(signed(be32(bytes@, 1), 32)));
            Some((out, 5))
        } else {
            None
        }
    }
}

/// Reads a string encoding at the start of `bytes`: the string and the bytes
/// the encoding spans.
pub fn parse_string(bytes: &[u8]) -> (r: (Vec<u8>, usize))
    requires
        spec_parse_string(bytes@) is Some,
    ensures
        spec_parse_string(bytes@) == Some((r.0@, r.1 as nat)),
{
    match try_parse_string(bytes) {
        Some(x) => x,
        None => (Vec::new(), 0),
    }
}

/// An expiry record at the start of `b`: the time in milliseconds, whether it
/// was written in milliseconds, and the bytes it spans.
pub open spec fn spec_parse_expiry(b: Seq<u8>) -> Option<(nat, bool, nat)> {
    if b.len() >= 5 && b[0] == 0xFD {
        Some((le32(b, 1) * 1000, false, 5))
    } else if b.len() >= 9 && b[0] == 0xFC {
        Some((le64(b, 1), true, 9))
    } else {
        None
    }
}

/// Reads an expiry record (`0xFD` with seconds, `0xFC` with milliseconds).
pub fn parse_expiry(bytes: &[u8]) -> (r: Option<(u64, bool, usize)>)
    requires
        bytes@.len() >= 1,
        bytes@[0] == 0xFD ==> bytes@.len() >= 5,
        bytes@[0] == 0xFC ==> bytes@.len() >= 9,
    ensures
        match r {
            Some((t, ms, n)) => spec_parse_expiry(bytes@) == Some((t as nat, ms, n as nat)),
            None => spec_parse_expiry(bytes@) is None,
        },
{
    if bytes[0] == 0xFD {
        let s = read_le32(bytes, 1);
        Some((s * 1000, false, 5))
    } else if bytes[0] == 0xFC {
        let lo = read_le32(bytes, 1);
        let hi = read_le32(bytes, 5);
        Some((lo + hi * 4294967296, true, 9))
    } else {
        None
    }
}

/// Reads the value-type byte and key of a key-value record: the key, the
/// bytes spanned up to the value, and the value type.
pub fn parse_key_value(bytes: &[u8]) -> (r: (Vec<u8>, usize, u8))
    requires
        bytes@.len() >= 1,
        spec_parse_string(bytes@.drop_first()) is Some,
    ensures
        r.2 == bytes@[0],
        spec_parse_string(bytes@.drop_first()) == Some((r.0@, (r.1 - 1) as nat)),
        r.1 >= 1,
{
    let value_type = bytes[0];
    let rest = &bytes[1..bytes.len()];
    assert(rest@ =~= bytes@.drop_first());
    let (key, used) = parse_string(rest);
    (key, used + 1, value_type)
}

/// Reads a value of the given type; only strings (`0x00`) are known.
pub fn parse_value_by_type(value_type: u8, bytes: &[u8]) -> (r: (Vec<u8>, usize))
    requires
        value_type == 0,
        spec_parse_string(bytes@) is Some,
    ensures
        spec_parse_string(bytes@) == Some((r.0@, r.1 as nat)),
{
    parse_string(bytes)
}

/// The metadata records from `idx` up to the first `0xFE` or `0xFF` byte
/// (each an optional `0xFA` marker, a key string and a value string), and the
/// index of that byte.
pub open spec fn spec_header_entries(b: Seq<u8>, idx: int) -> Option<(Seq<(Seq<u8>, Seq<u8>)>, int)>
    decreases b.len() - idx,
{
    if idx < 0 || idx >= b.len() {
        None
    } else if b[idx] == 0xFE || b[idx] == 0xFF {
        Some((Seq::empty(), idx))
    } else {
        let i = if b[idx] == 0xFA { idx + 1 } else { idx };
        match spec_parse_string(b.skip(i)) {
            Some((k, kn)) => match spec_parse_string(b.skip(i + kn)) {
                Some((v, vn)) => if kn >= 1 && vn >= 1 {
                    match spec_header_entries(b, i + kn + vn) {
                        Some((rest, end)) => Some((seq![(k, v)] + rest, end)),
                        None => None,
                    }
                } else {
                    None
                },
                None => None,
            },
            None => None,
        }
    }
}

/// The map that inserting the pairs in order builds.
pub open spec fn fold_pairs(s: Seq<(Seq<u8>, Seq<u8>)>) -> Map<Seq<u8>, Seq<u8>>
    decreases s.len(),
{
    if s.len() == 0 {
        Map::empty()
    } else {
        fold_pairs(s.drop_last()).insert(s.last().0, s.last().1)
    }
}

/// The header of a snapshot file.
pub struct HeaderMetadata {
    pub magic_string: Vec<u8>,
    pub version_number_string: Vec<u8>,
    pub metadata_map: Table<Vec<u8>>,
}

impl HeaderMetadata {
    /// Reads the header: five magic bytes, four version bytes, then metadata
    /// records up to the first `0xFE` or `0xFF` byte, whose index is returned.
    pub fn from_bytes(bytes: &[u8]) -> (r: (Self, usize))
        requires
            bytes@.len() >= 9,
            spec_header_entries(bytes@, 9) is Some,
        ensures
            r.0.magic_string@ == bytes@.subrange(0, 5),
            r.0.version_number_string@ == bytes@.subrange(5, 9),
            r.0.metadata_map.wf(),
            match spec_header_entries(bytes@, 9) {
                Some((entries, end)) => r.1 == end && r.0.metadata_map@.dom() == fold_pairs(
                    entries,
                ).dom() && forall|k: Seq<u8>| #[trigger]
                    r.0.metadata_map@.contains_key(k) ==> r.0.metadata_map@[k]@ == fold_pairs(
                        entries,
                    )[k],
                None => false,
            },
    {
        let magic_string = copy_range(bytes, 0, 5);
        let version_number_string = copy_range(bytes, 5, 9);
        let mut metadata_map: Table<Vec<u8>> = Table::new();
        let ghost whole = spec_header_entries(bytes@, 9);
        let ghost done: Seq<(Seq<u8>, Seq<u8>)> = Seq::empty();
        let mut idx: usize = 9;
        while bytes[idx] != 0xFE && bytes[idx] != 0xFF
            invariant
                9 <= idx < bytes@.len(),
                metadata_map.wf(),
                whole == spec_header_entries(bytes@, 9),
                whole == match spec_header_entries(bytes@, idx as int) {
                    Some((rest, end)) => Some((done + rest, end)),
                    None => None,
                },
                whole is Some,
                metadata_map@.dom() == fold_pairs(done).dom(),
                forall|k: Seq<u8>| #[trigger]
                    metadata_map@.contains_key(k) ==> metadata_map@[k]@ == fold_pairs(done)[k],
            decreases bytes@.len() - idx,
        {
            if bytes[idx] == 0xFA {
                idx = idx + 1;
            }
            let rest = &bytes[idx..bytes.len()];
            assert(rest@ =~= bytes@.skip(idx as int));
            let (key, kn) = parse_string(rest);
            let rest2 = &bytes[idx + kn..bytes.len()];
            assert(rest2@ =~= bytes@.skip(idx + kn));
            let (value, vn) = parse_string(rest2);
            let ghost kv = (key@, value@);
            proof {
                let tail = spec_header_entries(bytes@, idx + kn + vn);
                if let Some((r2, e2)) = tail {
                    assert(done.push(kv) + r2 =~= done + (seq![kv] + r2));
                }
                assert(done.push(kv).drop_last() =~= done);
            }
            metadata_map.insert(key, value);
            proof {
                done = done.push(kv);
                assert(metadata_map@.dom() =~= fold_pairs(done).dom());
            }
            idx = idx + kn + vn;
        }
        assert(done + Seq::<(Seq<u8>, Seq<u8>)>::empty() =~= done);
        (HeaderMetadata { magic_string, version_number_string, metadata_map }, idx)
    }
}

/// Where the metadata records from `idx` end.
pub open spec fn header_end(b: Seq<u8>, idx: int) -> Option<int> {
    match spec_header_entries(b, idx) {
        Some((_, end)) => Some(end),
        None => None,
    }
}

/// The end of the header metadata that starts at 9, when it is well formed.
pub fn try_header_end(bytes: &[u8]) -> (r: Option<usize>)
    ensures
        match r {
            Some(e) => header_end(bytes@, 9) == Some(e as int) && e < bytes@.len(),
            None => header_end(bytes@, 9) is None,
        },
{
    let mut idx: usize = 9;
    while idx < bytes.len() && bytes[idx] != 0xFE && bytes[idx] != 0xFF
        invariant
            9 <= idx,
            header_end(bytes@, 9) == header_end(bytes@, idx as int),
        decreases bytes@.len() - idx,
    {
        if bytes[idx] == 0xFA {
            idx = idx + 1;
        }
        let rest = &bytes[idx..bytes.len()];
        assert(rest@ =~= bytes@.skip(idx as int));
        let kn = match try_parse_string(rest) {
            Some((_, n)) => n,
            None => {
                return None;
            },
        };
        let rest2 = &bytes[idx + kn..bytes.len()];
        assert(rest2@ =~= bytes@.skip(idx + kn));
        let vn = match try_parse_string(rest2) {
            Some((_, n)) => n,
            None => {
                return None;
            },
        };
        if kn < 1 || vn < 1 {
            return None;
        }
        idx = idx + kn + vn;
    }
    if idx >= bytes.len() {
        return None;
    }
    Some(idx)
}

/// A key-value record: its expiry in milliseconds, key and value.
pub type Record = (Option<nat>, Seq<u8>, Seq<u8>);

/// The key-value record at `i`: an optional expiry record, the value type
/// (only strings, `0x00`, are known), the key and the value.
pub open spec fn spec_record(b: Seq<u8>, i: int) -> Option<(Record, int)> {
    if i < 0 || i > b.len() {
        None
    } else {
        let (exp, j) = match spec_parse_expiry(b.skip(i)) {
            Some((t, _, n)) => (Some(t), i + n),
            None => (None, i),
        };
        if j >= b.len() || b[j] != 0 {
            None
        } else {
            match spec_parse_string(b.skip(j + 1)) {
                Some((k, kn)) => match spec_parse_string(b.skip(j + 1 + kn)) {
                    Some((v, vn)) => Some(((exp, k, v), j + 1 + kn + vn)),
                    None => None,
                },
                None => None,
            }
        }
    }
}

/// `n` records one after the other from `i`.
pub open spec fn spec_records(b: Seq<u8>, i: int, n: nat) -> Option<(Seq<Record>, int)>
    decreases n,
{
    if n == 0 {
        Some((Seq::empty(), i))
    } else {
        match spec_record(b, i) {
            Some((r, j)) => match spec_records(b, j, (n - 1) as nat) {
                Some((rest, e)) => Some((seq![r] + rest, e)),
                None => None,
            },
            None => None,
        }
    }
}

/// One database section at `i`: `0xFE`, a database number byte, `0xFB`, the
/// table size, the expires-table size, and that many records.
pub open spec fn spec_section(b: Seq<u8>, i: int) -> Option<(Seq<Record>, int)> {
    if i < 0 || i + 2 >= b.len() || b[i] != 0xFE || b[i + 2] != 0xFB {
        None
    } else {
        match spec_parse_len(b.skip(i + 3)) {
            Some((ht, u1)) => match spec_parse_len(b.skip(i + 3 + u1)) {
                Some((_, u2)) => spec_records(b, i + 3 + u1 + u2, ht),
                None => None,
            },
            None => None,
        }
    }
}

/// The database sections from `i` up to the `0xFF` end marker.
pub open spec fn spec_sections(b: Seq<u8>, i: int) -> Option<Seq<Record>>
    decreases b.len() - i,
{
    if i < 0 || i >= b.len() {
        None
    } else if b[i] == 0xFF {
        Some(Seq::empty())
    } else {
        match spec_section(b, i) {
            Some((recs, j)) => if i < j <= b.len() {
                match spec_sections(b, j) {
                    Some(rest) => Some(recs + rest),
                    None => None,
                }
            } else {
                None
            },
            None => None,
        }
    }
}

/// The records of a whole snapshot file, or `None` when it is malformed.
pub open spec fn spec_snapshot(b: Seq<u8>) -> Option<Seq<Record>> {
    match header_end(b, 9) {
        Some(end) => spec_sections(b, end),
        None => None,
    }
}

pub proof fn lemma_string_span(s: Seq<u8>)
    ensures
        match spec_parse_string(s) {
            Some((_, n)) => 1 <= n <= s.len(),
            None => true,
        },
{
}

pub proof fn lemma_record_span(b: Seq<u8>, i: int)
    ensures
        match spec_record(b, i) {
            Some((_, j)) => i < j <= b.len(),
            None => true,
        },
{
    if 0 <= i <= b.len() {
        let j = match spec_parse_expiry(b.skip(i)) {
            Some((t, _, n)) => i + n,
            None => i,
        };
        if j < b.len() && b[j] == 0 {
            lemma_string_span(b.skip(j + 1));
            if let Some((k, kn)) = spec_parse_string(b.skip(j + 1)) {
                lemma_string_span(b.skip(j + 1 + kn));
            }
        }
    }
}

/// One key read from a snapshot.
pub struct SnapshotEntry {
    pub key: Vec<u8>,
    pub value: Vec<u8>,
    /// Absolute expiry time in milliseconds.
    pub expire_at: Option<u64>,
}

pub open spec fn entry_record(e: SnapshotEntry) -> Record {
    (match e.expire_at {
        Some(t) => Some(t as nat),
        None => None,
    }, e.key@, e.value@)
}

fn read_record(b: &[u8], i: usize) -> (r: Option<(SnapshotEntry, usize)>)
    requires
        i <= b@.len(),
    ensures
        match (spec_record(b@, i as int), r) {
            (Some((rec, j)), Some((e, k))) => entry_record(e) == rec && k == j,
            (None, None) => true,
            _ => false,
        },
{
    let rest = &b[i..b.len()];
    assert(rest@ =~= b@.skip(i as int));
    let (exp, j): (Option<u64>, usize) = if rest.len() >= 1 && ((rest[0] == 0xFD && rest.len() >= 5) || (rest[0] == 0xFC && rest.len() >= 9)) {
        match parse_expiry(rest) {
            Some((t, _, n)) => (Some(t), i + n),
            None => (None, i),
        }
    } else {
        (None, i)
    };
    if j >= b.len() || b[j] != 0 {
        return None;
    }
    let r1 = &b[j + 1..b.len()];
    assert(r1@ =~= b@.skip(j + 1));
    let (k, kn) = match try_parse_string(r1) {
        Some(x) => x,
        None => {
            return None;
        },
    };
    let r2 = &b[j + 1 + kn..b.len()];
    assert(r2@ =~= b@.skip(j + 1 + kn));
    let (v, vn) = match try_parse_string(r2) {
        Some(x) => x,
        None => {
            return None;
        },
    };
    Some((SnapshotEntry { key: k, value: v, expire_at: exp }, j + 1 + kn + vn))
}

/// Reads `ht` records from `j`.
fn read_records(b: &[u8], j0: usize, ht: usize) -> (r: Option<(Vec<SnapshotEntry>, usize)>)
    requires
        j0 <= b@.len(),
    ensures
        match (spec_records(b@, j0 as int, ht as nat), r) {
            (Some((recs, e)), Some((v, k))) => v@.map_values(|e: SnapshotEntry| entry_record(e)) == recs && k == e
                && j0 <= k <= b@.len(),
            (None, None) => true,
            _ => false,
        },
{
    let mut n: usize = 0;
    let mut j: usize = j0;
    let ghost all = spec_records(b@, j0 as int, ht as nat);
    let mut sec: Vec<SnapshotEntry> = Vec::new();
    while n < ht
        invariant
            n <= ht,
            j0 <= j <= b@.len(),
            all == spec_records(b@, j0 as int, ht as nat),
            all == match spec_records(b@, j as int, (ht - n) as nat) {
                Some((rest, e)) => Some((sec@.map_values(|e: SnapshotEntry| entry_record(e)) + rest, e)),
                None => None,
            },
        decreases ht - n,
    {
        proof {
            lemma_record_span(b@, j as int);
        }
        match read_record(b, j) {
            Some((e, k)) => {
                let ghost prev = sec@.map_values(|e: SnapshotEntry| entry_record(e));
                let ghost er = entry_record(e);
                sec.push(e);
                proof {
                    assert(sec@.map_values(|e: SnapshotEntry| entry_record(e)) =~= prev.push(er));
                    match spec_records(b@, k as int, (ht - n - 1) as nat) {
                        Some((rest, en)) => {
                            assert(prev.push(er) + rest =~= prev + (seq![er] + rest));
                        },
                        None => {},
                    }
                }
                j = k;
                n = n + 1;
            },
            None => {
                return None;
            },
        }
    }
    proof {
        assert(sec@.map_values(|e: SnapshotEntry| entry_record(e)) + Seq::<Record>::empty() =~= sec@.map_values(|e: SnapshotEntry| entry_record(e)));
        lemma_records_span(b@, j0 as int, ht as nat);
    }
    Some((sec, j))
}

proof fn lemma_records_span(b: Seq<u8>, i: int, n: nat)
    ensures
        match spec_records(b, i, n) {
            Some((_, e)) => i <= e,
            None => true,
        },
    decreases n,
{
    if n > 0 {
        lemma_record_span(b, i);
        if let Some((r, j)) = spec_record(b, i) {
            lemma_records_span(b, j, (n - 1) as nat);
        }
    }
}

/// Reads one database section at `i`.
fn read_section(b: &[u8], i: usize) -> (r: Option<(Vec<SnapshotEntry>, usize)>)
    requires
        i < b@.len(),
    ensures
        match (spec_section(b@, i as int), r) {
            (Some((recs, e)), Some((v, k))) => v@.map_values(|e: SnapshotEntry| entry_record(e)) == recs && k == e
                && i < k <= b@.len(),
            (None, None) => true,
            _ => false,
        },
{
    if b[i] != 0xFE || b.len() - i <= 2 || b[i + 2] != 0xFB {
        return None;
    }
    let r0 = &b[i + 3..b.len()];
    assert(r0@ =~= b@.skip(i + 3));
    let (ht, u1) = match try_parse_len(r0) {
        Some(x) => x,
        None => {
            return None;
        },
    };
    let r1 = &b[i + 3 + u1..b.len()];
    assert(r1@ =~= b@.skip(i + 3 + u1));
    let (_, u2) = match try_parse_len(r1) {
        Some(x) => x,
        None => {
            return None;
        },
    };
    if u2 > b.len() - (i + 3 + u1) {
        return None;
    }
    read_records(b, i + 3 + u1 + u2, ht)
}

/// Reads the keys of a snapshot file: header, database sections and the end
/// marker; `None` when the file is malformed.
pub fn parse_snapshot(b: &[u8]) -> (r: Option<Vec<SnapshotEntry>>)
    ensures
        match (spec_snapshot(b@), r) {
            (Some(recs), Some(v)) => v@.map_values(|e: SnapshotEntry| entry_record(e)) == recs,
            (None, None) => true,
            _ => false,
        },
{
    let mut i = match try_header_end(b) {
        Some(e) => e,
        None => {
            return None;
        },
    };
    let ghost whole = spec_snapshot(b@);
    let mut out: Vec<SnapshotEntry> = Vec::new();
    proof {
        match spec_sections(b@, i as int) {
            Some(rest) => {
                assert(out@.map_values(|e: SnapshotEntry| entry_record(e)) + rest =~= rest);
            },
            None => {},
        }
    }
    while i < b.len() && b[i] != 0xFF
        invariant
            whole == spec_snapshot(b@),
            whole == match spec_sections(b@, i as int) {
                Some(rest) => Some(out@.map_values(|e: SnapshotEntry| entry_record(e)) + rest),
                None => None,
            },
        decreases b@.len() - i,
    {
        let (mut sec, j) = match read_section(b, i) {
            Some(x) => x,
            None => {
                return None;
            },
        };
        let ghost before = out@.map_values(|e: SnapshotEntry| entry_record(e));
        let ghost sv = sec@.map_values(|e: SnapshotEntry| entry_record(e));
        out.append(&mut sec);
        proof {
            let nv = out@.map_values(|e: SnapshotEntry| entry_record(e));
            assert(nv =~= before + sv);
            match spec_sections(b@, j as int) {
                Some(rest) => {
                    assert(before + (sv + rest) =~= nv + rest);
                },
                None => {},
            }
        }
        i = j;
    }
    if i >= b.len() {
        return None;
    }
    proof {
        assert(out@.map_values(|e: SnapshotEntry| entry_record(e)) + Seq::<Record>::empty() =~= out@.map_values(|e: SnapshotEntry| entry_record(e)));
    }
    Some(out)
}

} // verus!
