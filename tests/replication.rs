use kvserver::commands::{Runner, ServerInfo};
use kvserver::connection::Connection;
use kvserver::keyspace::Keyspace;
use kvserver::replication::{
    count_acked, empty_snapshot, full_resync_reply, getack_frame, handshake_frames, parse_ack,
    parse_blob_header, wait_promise, ReplicaLink, ReplicationLog,
};
use kvserver::request::Request;

fn args(v: &[&str]) -> Vec<Vec<u8>> {
    v.iter().map(|s| s.as_bytes().to_vec()).collect()
}

#[test]
fn master_offset_counts_propagated_bytes() {
    let mut log = ReplicationLog::new();
    let info = ServerInfo {
        is_master: true,
        master_replid: b"id".to_vec(),
        master_repl_offset: 0,
        dir_path: b"d".to_vec(),
        dbfilename: b"f".to_vec(),
    };
    let mut ks = Keyspace::new();
    let mut c = Connection::new();
    let mut total = 0usize;
    for cmd in [&["SET", "x", "1"][..], &["INCR", "x"][..], &["DEL", "x"][..], &["GET", "x"][..]] {
        let r = Runner::new(args(cmd)).step(&mut ks, &mut c, &info, 0);
        for f in &r.propagate {
            assert!(log.record(f));
            total += f.len();
        }
    }
    assert_eq!(log.offset_replica_sync as usize, total);
    assert_eq!(total, 27 + 21 + 20);
}

#[test]
fn replica_offset_advances_by_frame_length() {
    let mut link = ReplicaLink::new();
    let frame = b"*3\r\n$3\r\nSET\r\n$1\r\nx\r\n$1\r\n1\r\n";
    let (_, n) = Request::try_parse(frame).unwrap();
    assert!(link.advance(n));
    assert_eq!(link.local_offset, frame.len() as u64);
    assert_eq!(link.ack_frame(), b"*3\r\n$8\r\nREPLCONF\r\n$3\r\nACK\r\n$2\r\n27\r\n".to_vec());
    let mut full = ReplicaLink { local_offset: u64::MAX };
    assert!(!full.advance(1));
    assert_eq!(full.local_offset, u64::MAX);
}

#[test]
fn record_refuses_overflow() {
    let mut log = ReplicationLog::new();
    assert!(log.record(b"abc"));
    assert_eq!(log.offset_replica_sync, 3);
}

#[test]
fn ack_parsing() {
    let (req, _) = Request::try_parse(b"*3\r\n$8\r\nREPLCONF\r\n$3\r\nACK\r\n$2\r\n31\r\n").unwrap();
    assert_eq!(parse_ack(&req), Some(31));
    let (req, _) = Request::try_parse(b"*1\r\n$4\r\nPING\r\n").unwrap();
    assert_eq!(parse_ack(&req), None);
    assert_eq!(
        getack_frame(),
        b"*3\r\n$8\r\nREPLCONF\r\n$6\r\nGETACK\r\n$1\r\n*\r\n".to_vec()
    );
}

#[test]
fn wait_arithmetic() {
    assert_eq!(wait_promise(1, 3), 1);
    assert_eq!(wait_promise(5, 2), 2);
    assert_eq!(wait_promise(0, 0), 0);
    assert_eq!(count_acked(&vec![29, 29, 0], 29), 2);
    assert_eq!(count_acked(&vec![], 29), 0);
}

#[test]
fn handshake_and_resync() {
    let frames = handshake_frames(b"6380");
    assert_eq!(frames[0], b"*1\r\n$4\r\nPING\r\n".to_vec());
    assert_eq!(
        frames[1],
        b"*3\r\n$8\r\nREPLCONF\r\n$14\r\nlistening-port\r\n$4\r\n6380\r\n".to_vec()
    );
    assert_eq!(frames[2], b"*3\r\n$8\r\nREPLCONF\r\n$4\r\ncapa\r\n$6\r\npsync2\r\n".to_vec());
    assert_eq!(frames[3], b"*3\r\n$5\r\nPSYNC\r\n$1\r\n?\r\n$2\r\n-1\r\n".to_vec());
    let snap = empty_snapshot();
    assert_eq!(snap.len(), 88);
    let reply = full_resync_reply(b"abc", 0, &snap);
    let head = b"+FULLRESYNC abc 0\r\n$88\r\n";
    assert_eq!(&reply[..head.len()], &head[..]);
    assert_eq!(&reply[head.len()..], &snap[..]);
    assert_eq!(parse_blob_header(b"$88\r\nREDIS"), Some((88, 5)));
    assert_eq!(parse_blob_header(b"$88\r"), None);
}
