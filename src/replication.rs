//! Replication bookkeeping: the master's count of propagated bytes, a
//! replica's acknowledged offset, the handshake frames, the full-resync reply
//! and the arithmetic of `WAIT`.
use vstd::prelude::*;
use vstd::string::StringSliceAdditionalSpecFns;
use crate::decimal::{dec, parse_u64, push_dec, spec_parse_u64, u64_to_dec};
use crate::request::Request;
use crate::resp::{
    blob, parse_number_line, request_frame, simple, views, blob_reply, push_all, push_crlf,
    request_bytes,
};
use crate::table::copy_bytes;
use crate::text::{eq_word, is_word, lit};

verus! {

/// Total byte length of a list of frames.
pub open spec fn total_len(frames: Seq<Seq<u8>>) -> nat
    decreases frames.len(),
{
    if frames.len() == 0 {
        0
    } else {
        total_len(frames.drop_last()) + frames.last().len()
    }
}

/// The master's record of what it propagated.
pub struct ReplicationLog {
    /// Bytes propagated since start.
    pub offset_replica_sync: u64,
    /// The frames propagated since start.
    pub sent: Ghost<Seq<Seq<u8>>>,
}

impl ReplicationLog {
    /// The offset counts exactly the bytes of the frames propagated.
    pub open spec fn wf(&self) -> bool {
        self.offset_replica_sync as nat == total_len(self.sent@)
    }

    pub fn new() -> (r: Self)
        ensures
            r.wf(),
            r.offset_replica_sync == 0,
            r.sent@ == Seq::<Seq<u8>>::empty(),
    {
        ReplicationLog { offset_replica_sync: 0, sent: Ghost(Seq::empty()) }
    }

    /// Records that `frame` goes to every replica; refuses, changing nothing,
    /// when the offset would pass `u64::MAX`.
    pub fn record(&mut self, frame: &[u8]) -> (r: bool)
        requires
            old(self).wf(),
        ensures
            final(self).wf(),
            r == (old(self).offset_replica_sync + frame@.len() <= u64::MAX),
            r ==> final(self).offset_replica_sync == old(self).offset_replica_sync + frame@.len()
                && final(self).sent@ == old(self).sent@.push(frame@),
            !r ==> *final(self) == *old(self),
    {
        if frame.len() as u128 + self.offset_replica_sync as u128 > u64::MAX as u128 {
            return false;
        }
        let ghost before = self.sent@;
        self.offset_replica_sync = self.offset_replica_sync + frame.len() as u64;
        self.sent = Ghost(before.push(frame@));
        proof {
            assert(self.sent@.drop_last() =~= before);
        }
        true
    }
}

/// Whatever frames a master has propagated since start, its offset is their
/// total byte length.
pub proof fn lemma_offset_counts_frames(log: &ReplicationLog)
    requires
        log.wf(),
    ensures
        log.offset_replica_sync as nat == total_len(log.sent@),
{
}

/// A replica's count of the bytes of propagated commands it has taken in.
pub struct ReplicaLink {
    pub local_offset: u64,
}

pub open spec fn ack_frame_of(offset: u64) -> Seq<u8> {
    request_frame(seq!["REPLCONF".spec_bytes(), "ACK".spec_bytes(), dec(offset as nat)])
}

impl ReplicaLink {
    pub fn new() -> (r: Self)
        ensures
            r.local_offset == 0,
    {
        ReplicaLink { local_offset: 0 }
    }

    /// Counts a frame of `consumed` bytes taken from the master; refuses,
    /// changing nothing, when the offset would pass `u64::MAX`.
    pub fn advance(&mut self, consumed: usize) -> (r: bool)
        ensures
            r == (old(self).local_offset + consumed <= u64::MAX),
            r ==> final(self).local_offset == old(self).local_offset + consumed,
            !r ==> final(self).local_offset == old(self).local_offset,
    {
        if consumed as u128 + self.local_offset as u128 > u64::MAX as u128 {
            return false;
        }
        self.local_offset = self.local_offset + consumed as u64;
        true
    }

    /// `REPLCONF ACK <offset>`, the answer to the master's `GETACK`.
    pub fn ack_frame(&self) -> (r: Vec<u8>)
        ensures
            r@ == ack_frame_of(self.local_offset),
    {
        let mut args: Vec<Vec<u8>> = Vec::new();
        args.push(copy_bytes(lit("REPLCONF")));
        args.push(copy_bytes(lit("ACK")));
        args.push(u64_to_dec(self.local_offset));
        assert(views(args@) =~= seq!["REPLCONF".spec_bytes(), "ACK".spec_bytes(), dec(self.local_offset as nat)]);
        request_bytes(&args)
    }
}

/// The offset a replica acknowledges in `REPLCONF ACK <n>`.
pub open spec fn spec_ack(args: Seq<Seq<u8>>) -> Option<u64> {
    if args.len() == 3 && is_word(args[0], "replconf") && is_word(args[1], "ack") {
        spec_parse_u64(args[2])
    } else {
        None
    }
}

/// Reads `REPLCONF ACK <n>`.
pub fn parse_ack(req: &Request) -> (r: Option<u64>)
    ensures
        r == spec_ack(req@),
{
    let args = &req.args;
    if args.len() != 3 {
        return None;
    }
    assert(req@[0] == args@[0]@ && req@[1] == args@[1]@ && req@[2] == args@[2]@);
    if !eq_word(args[0].as_slice(), "replconf") || !eq_word(args[1].as_slice(), "ack") {
        return None;
    }
    parse_u64(args[2].as_slice())
}

/// The master's `REPLCONF GETACK *`.
pub fn getack_frame() -> (r: Vec<u8>)
    ensures
        r@ == request_frame(seq!["REPLCONF".spec_bytes(), "GETACK".spec_bytes(), "*".spec_bytes()]),
{
    let mut args: Vec<Vec<u8>> = Vec::new();
    args.push(copy_bytes(lit("REPLCONF")));
    args.push(copy_bytes(lit("GETACK")));
    args.push(copy_bytes(lit("*")));
    assert(views(args@) =~= seq!["REPLCONF".spec_bytes(), "GETACK".spec_bytes(), "*".spec_bytes()]);
    request_bytes(&args)
}

/// The frames a replica sends in its handshake, in order: `PING`,
/// `REPLCONF listening-port <port>`, `REPLCONF capa psync2`, `PSYNC ? -1`.
pub fn handshake_frames(listening_port: &[u8]) -> (r: Vec<Vec<u8>>)
    ensures
        views(r@) == seq![
            request_frame(seq!["PING".spec_bytes()]),
            request_frame(seq!["REPLCONF".spec_bytes(), "listening-port".spec_bytes(), listening_port@]),
            request_frame(seq!["REPLCONF".spec_bytes(), "capa".spec_bytes(), "psync2".spec_bytes()]),
            request_frame(seq!["PSYNC".spec_bytes(), "?".spec_bytes(), "-1".spec_bytes()]),
        ],
{
    let mut a1: Vec<Vec<u8>> = Vec::new();
    a1.push(copy_bytes(lit("PING")));
    assert(views(a1@) =~= seq!["PING".spec_bytes()]);
    let mut a2: Vec<Vec<u8>> = Vec::new();
    a2.push(copy_bytes(lit("REPLCONF")));
    a2.push(copy_bytes(lit("listening-port")));
    a2.push(copy_bytes(listening_port));
    assert(views(a2@) =~= seq!["REPLCONF".spec_bytes(), "listening-port".spec_bytes(), listening_port@]);
    let mut a3: Vec<Vec<u8>> = Vec::new();
    a3.push(copy_bytes(lit("REPLCONF")));
    a3.push(copy_bytes(lit("capa")));
    a3.push(copy_bytes(lit("psync2")));
    assert(views(a3@) =~= seq!["REPLCONF".spec_bytes(), "capa".spec_bytes(), "psync2".spec_bytes()]);
    let mut a4: Vec<Vec<u8>> = Vec::new();
    a4.push(copy_bytes(lit("PSYNC")));
    a4.push(copy_bytes(lit("?")));
    a4.push(copy_bytes(lit("-1")));
    assert(views(a4@) =~= seq!["PSYNC".spec_bytes(), "?".spec_bytes(), "-1".spec_bytes()]);
    let mut r: Vec<Vec<u8>> = Vec::new();
    r.push(request_bytes(&a1));
    r.push(request_bytes(&a2));
    r.push(request_bytes(&a3));
    r.push(request_bytes(&a4));
    assert(views(r@) =~= seq![
        request_frame(seq!["PING".spec_bytes()]),
        request_frame(seq!["REPLCONF".spec_bytes(), "listening-port".spec_bytes(), listening_port@]),
        request_frame(seq!["REPLCONF".spec_bytes(), "capa".spec_bytes(), "psync2".spec_bytes()]),
        request_frame(seq!["PSYNC".spec_bytes(), "?".spec_bytes(), "-1".spec_bytes()]),
    ]);
    r
}

/// Reads the `$<len>\r\n` header of the snapshot handoff: the payload length
/// and the header's length.
pub fn parse_blob_header(buf: &[u8]) -> (r: Option<(usize, usize)>)
    ensures
        match parse_number_line(buf@, 0, 36u8) {
            Some((l, q)) => r == Some((l as usize, q as usize)),
            None => r is None,
        },
{
    crate::request::read_number_line(buf, 0, 36u8)
}

/// `+FULLRESYNC <replid> <offset>\r\n` followed by the snapshot handoff.
pub open spec fn full_resync_of(replid: Seq<u8>, offset: u64, snapshot: Seq<u8>) -> Seq<u8> {
    simple("FULLRESYNC ".spec_bytes() + replid + seq![32u8] + dec(offset as nat)) + blob(snapshot)
}

pub fn full_resync_reply(replid: &[u8], offset: u64, snapshot: &[u8]) -> (r: Vec<u8>)
    ensures
        r@ == full_resync_of(replid@, offset, snapshot@),
{
    let mut out: Vec<u8> = Vec::new();
    out.push(43u8);
    push_all(&mut out, lit("FULLRESYNC "));
    push_all(&mut out, replid);
    out.push(32u8);
    push_dec(&mut out, offset);
    push_crlf(&mut out);
    let b = blob_reply(snapshot);
    push_all(&mut out, b.as_slice());
    assert(out@ =~= full_resync_of(replid@, offset, snapshot@));
    out
}

/// A minimal valid snapshot with no keys: header `REDIS0011`, metadata
/// `redis-ver 7.2.0`, `redis-bits 64`, `ctime`, `used-mem`, `aof-base 0`,
/// the end marker and its checksum.
pub open spec fn empty_snapshot_bytes() -> Seq<u8> {
    seq![
        0x52u8, 0x45, 0x44, 0x49, 0x53, 0x30, 0x30, 0x31, 0x31, 0xfa, 0x09, 0x72, 0x65, 0x64, 0x69,
        0x73, 0x2d, 0x76, 0x65, 0x72, 0x05, 0x37, 0x2e, 0x32, 0x2e, 0x30, 0xfa, 0x0a, 0x72, 0x65,
        0x64, 0x69, 0x73, 0x2d, 0x62, 0x69, 0x74, 0x73, 0xc0, 0x40, 0xfa, 0x05, 0x63, 0x74, 0x69,
        0x6d, 0x65, 0xc2, 0x6d, 0x08, 0xbc, 0x65, 0xfa, 0x08, 0x75, 0x73, 0x65, 0x64, 0x2d, 0x6d,
        0x65, 0x6d, 0xc2, 0xb0, 0xc4, 0x10, 0x00, 0xfa, 0x08, 0x61, 0x6f, 0x66, 0x2d, 0x62, 0x61,
        0x73, 0x65, 0xc0, 0x00, 0xff, 0xf0, 0x6e, 0x3b, 0xfe, 0xc0, 0xff, 0x5a, 0xa2
    ]
}

/// The snapshot sent when there is no file.
pub fn empty_snapshot() -> (r: Vec<u8>)
    ensures
        r@ == empty_snapshot_bytes(),
        r@.len() == 88,
{
    let r: Vec<u8> = vec![
        0x52u8, 0x45, 0x44, 0x49, 0x53, 0x30, 0x30, 0x31, 0x31, 0xfa, 0x09, 0x72, 0x65, 0x64, 0x69,
        0x73, 0x2d, 0x76, 0x65, 0x72, 0x05, 0x37, 0x2e, 0x32, 0x2e, 0x30, 0xfa, 0x0a, 0x72, 0x65,
        0x64, 0x69, 0x73, 0x2d, 0x62, 0x69, 0x74, 0x73, 0xc0, 0x40, 0xfa, 0x05, 0x63, 0x74, 0x69,
        0x6d, 0x65, 0xc2, 0x6d, 0x08, 0xbc, 0x65, 0xfa, 0x08, 0x75, 0x73, 0x65, 0x64, 0x2d, 0x6d,
        0x65, 0x6d, 0xc2, 0xb0, 0xc4, 0x10, 0x00, 0xfa, 0x08, 0x61, 0x6f, 0x66, 0x2d, 0x62, 0x61,
        0x73, 0x65, 0xc0, 0x00, 0xff, 0xf0, 0x6e, 0x3b, 0xfe, 0xc0, 0xff, 0x5a, 0xa2,
    ];
    assert(r@ =~= empty_snapshot_bytes());
    r
}

/// What `WAIT` answers at once: the replicas asked for, at most those
/// connected.
pub fn wait_promise(numreplicas: u64, connected: usize) -> (r: u64)
    ensures
        r == if numreplicas <= connected { numreplicas } else { connected as u64 },
{
    if numreplicas as u128 <= connected as u128 {
        numreplicas
    } else {
        connected as u64
    }
}

/// How many replicas have acknowledged exactly `target` bytes.
pub fn count_acked(offsets: &Vec<u64>, target: u64) -> (r: usize)
    ensures
        r == offsets@.filter(|o: u64| o == target).len(),
{
    let mut n: usize = 0;
    let mut i: usize = 0;
    proof {
        reveal(Seq::filter);
    }
    assert(offsets@.take(0).filter(|o: u64| o == target) =~= Seq::<u64>::empty());
    while i < offsets.len()
        invariant
            i <= offsets@.len(),
            n == offsets@.take(i as int).filter(|o: u64| o == target).len(),
            n <= i,
        decreases offsets@.len() - i,
    {
        proof {
            reveal(Seq::filter);
        }
        assert(offsets@.take(i + 1).drop_last() =~= offsets@.take(i as int));
        if offsets[i] == target {
            n = n + 1;
        }
        i = i + 1;
    }
    assert(offsets@.take(i as int) =~= offsets@);
    n
}

} // verus!
