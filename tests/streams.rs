use kvserver::commands::{Effect, Runner, ServerInfo};
use kvserver::connection::Connection;
use kvserver::keyspace::Keyspace;
use kvserver::stream::{compute_next_id, Stream, StreamError};
use kvserver::xread_config::XreadConfig;

fn args(v: &[&str]) -> Vec<Vec<u8>> {
    v.iter().map(|s| s.as_bytes().to_vec()).collect()
}

fn info() -> ServerInfo {
    ServerInfo {
        is_master: true,
        master_replid: b"x".to_vec(),
        master_repl_offset: 0,
        dir_path: b"d".to_vec(),
        dbfilename: b"f".to_vec(),
    }
}

fn run_at(ks: &mut Keyspace, c: &mut Connection, cmd: &[&str], now: u64) -> Vec<u8> {
    Runner::new(args(cmd)).step(ks, c, &info(), now).reply.unwrap()
}

fn kv(k: &str, v: &str) -> Vec<(Vec<u8>, Vec<u8>)> {
    vec![(k.as_bytes().to_vec(), v.as_bytes().to_vec())]
}

#[test]
fn explicit_ids_must_increase() {
    let mut s = Stream::new();
    assert_eq!(s.add_entries_at(b"1-1", kv("a", "1"), 0), Ok(b"1-1".to_vec()));
    assert_eq!(s.add_entries_at(b"1-2", kv("a", "2"), 0), Ok(b"1-2".to_vec()));
    assert_eq!(s.add_entries_at(b"1-2", kv("a", "3"), 0), Err(StreamError::NotAboveTop));
    assert_eq!(s.add_entries_at(b"0-5", kv("a", "3"), 0), Err(StreamError::NotAboveTop));
    assert_eq!(s.add_entries_at(b"0-0", kv("a", "3"), 0), Err(StreamError::NotAboveZero));
    assert_eq!(s.add_entries_at(b"abc", kv("a", "3"), 0), Err(StreamError::Invalid));
    assert_eq!(s.add_entries_at(b"1-2-3", kv("a", "3"), 0), Err(StreamError::Invalid));
    assert_eq!(s.add_entries_at(b"x-1", kv("a", "3"), 0), Err(StreamError::Invalid));
    assert_eq!(s.entries.len(), 2);
    for w in s.entries.windows(2) {
        assert!((w[0].milisec, w[0].sequence_number) < (w[1].milisec, w[1].sequence_number));
    }
}

#[test]
fn zero_zero_refused_on_fresh_stream() {
    let mut s = Stream::new();
    assert_eq!(s.add_entries_at(b"0-0", kv("a", "1"), 0), Err(StreamError::NotAboveZero));
    assert!(s.entries.is_empty());
}

#[test]
fn auto_sequence() {
    let mut s = Stream::new();
    assert_eq!(s.add_entries_at(b"0-*", kv("a", "1"), 0), Ok(b"0-1".to_vec()));
    assert_eq!(s.add_entries_at(b"0-*", kv("a", "1"), 0), Ok(b"0-2".to_vec()));
    assert_eq!(s.add_entries_at(b"5-*", kv("a", "1"), 0), Ok(b"5-0".to_vec()));
    assert_eq!(s.add_entries_at(b"5-*", kv("a", "1"), 0), Ok(b"5-1".to_vec()));
    assert_eq!(s.add_entries_at(b"4-*", kv("a", "1"), 0), Err(StreamError::NotAboveTop));
    let mut t = Stream::new();
    assert_eq!(t.add_entries_at(b"7-*", kv("a", "1"), 0), Ok(b"7-0".to_vec()));
}

#[test]
fn auto_id_uses_clock() {
    let mut s = Stream::new();
    assert_eq!(s.add_entries_at(b"*", kv("a", "1"), 1500), Ok(b"1500-0".to_vec()));
    assert_eq!(s.add_entries_at(b"*", kv("a", "1"), 1500), Ok(b"1500-1".to_vec()));
    assert_eq!(s.add_entries_at(b"*", kv("a", "1"), 1400), Ok(b"1500-2".to_vec()));
    assert_eq!(s.add_entries_at(b"*", kv("a", "1"), 1600), Ok(b"1600-0".to_vec()));
    assert!(s.add_entries(b"*", kv("b", "2")).is_ok());
}

#[test]
fn next_id_rules() {
    assert_eq!(compute_next_id(None, b"*", 9), Ok((9, 0)));
    assert_eq!(compute_next_id(Some((3, u64::MAX)), b"3-*", 0), Err(StreamError::NotAboveTop));
    assert_eq!(compute_next_id(Some((3, 4)), b"3-5", 0), Ok((3, 5)));
    assert_eq!(compute_next_id(None, b"-", 0), Err(StreamError::Invalid));
    assert_eq!(StreamError::NotAboveZero.message(), "The ID specified in XADD must be greater than 0-0");
}

#[test]
fn range_queries() {
    let mut s = Stream::new();
    for id in ["1-1", "1-5", "2-0", "3-3"] {
        s.add_entries_at(id.as_bytes(), kv("f", id), 0).unwrap();
    }
    assert_eq!(s.range((1, 5), (2, 0)), (1, 3));
    assert_eq!(s.range((0, 0), (9, 9)), (0, 4));
    assert_eq!(s.range((1, 2), (1, 4)).0, s.range((1, 2), (1, 4)).1);
    assert_eq!(s.range((2, 0), (2, 0)), (2, 3));
    assert_eq!(s.range_start((1, 6)), 2);
    assert_eq!(s.range_after((2, 0)), 3);
    assert_eq!(s.last_entry_id(), Some((3, 3)));
    assert_eq!(Stream::new().last_entry_id(), Some((0, 0)));
}

#[test]
fn xadd_then_xrange_same_id() {
    let mut ks = Keyspace::new();
    let mut c = Connection::new();
    assert_eq!(run_at(&mut ks, &mut c, &["XADD", "s", "1-1", "a", "b"], 0), b"$3\r\n1-1\r\n".to_vec());
    assert_eq!(run_at(&mut ks, &mut c, &["XADD", "s", "1-2", "t", "u", "v", "w"], 0), b"$3\r\n1-2\r\n".to_vec());
    assert_eq!(
        run_at(&mut ks, &mut c, &["XRANGE", "s", "1-2", "1-2"], 0),
        b"*1\r\n*2\r\n$3\r\n1-2\r\n*4\r\n$1\r\nt\r\n$1\r\nu\r\n$1\r\nv\r\n$1\r\nw\r\n".to_vec()
    );
    assert_eq!(
        run_at(&mut ks, &mut c, &["XRANGE", "s", "-", "+"], 0),
        b"*2\r\n*2\r\n$3\r\n1-1\r\n*2\r\n$1\r\na\r\n$1\r\nb\r\n*2\r\n$3\r\n1-2\r\n*4\r\n$1\r\nt\r\n$1\r\nu\r\n$1\r\nv\r\n$1\r\nw\r\n".to_vec()
    );
    assert_eq!(run_at(&mut ks, &mut c, &["XRANGE", "s", "2", "3"], 0), b"*0\r\n".to_vec());
    assert_eq!(
        run_at(&mut ks, &mut c, &["XRANGE", "s", "x", "3"], 0),
        b"-ERR Invalid stream ID specified as stream command argument\r\n".to_vec()
    );
}

#[test]
fn xadd_errors_and_propagation() {
    let mut ks = Keyspace::new();
    let mut c = Connection::new();
    assert_eq!(
        run_at(&mut ks, &mut c, &["XADD", "s", "0-0", "a", "b"], 0),
        b"-ERR The ID specified in XADD must be greater than 0-0\r\n".to_vec()
    );
    assert!(!ks.db.contains_key(b"s"));
    assert_eq!(
        run_at(&mut ks, &mut c, &["XADD", "s", "1-1", "a"], 0),
        b"-ERR wrong number of arguments for 'xadd' command\r\n".to_vec()
    );
    let r = Runner::new(args(&["XADD", "s", "5-*", "a", "b"])).step(&mut ks, &mut c, &info(), 0);
    assert_eq!(
        r.propagate,
        vec![b"*5\r\n$4\r\nXADD\r\n$1\r\ns\r\n$3\r\n5-0\r\n$1\r\na\r\n$1\r\nb\r\n".to_vec()]
    );
    assert_eq!(
        run_at(&mut ks, &mut c, &["XADD", "s", "4-1", "a", "b"], 0),
        b"-ERR The ID specified in XADD is equal or smaller than the target stream top item\r\n".to_vec()
    );
    run_at(&mut ks, &mut c, &["SET", "str", "v"], 0);
    assert_eq!(
        run_at(&mut ks, &mut c, &["XADD", "str", "1-1", "a", "b"], 0),
        b"-WRONGTYPE Operation against a key holding the wrong kind of value\r\n".to_vec()
    );
}

#[test]
fn xread_config_parsing() {
    let (cfg, used, err) = XreadConfig::from_args(&args(&["COUNT", "2", "BLOCK", "100", "STREAMS", "a", "b", "0-0", "$"]));
    assert!(err.is_none());
    assert_eq!(used, 9);
    assert_eq!(cfg.count, Some(2));
    assert_eq!(cfg.block, Some(100));
    assert_eq!(cfg.streams, vec![(b"a".to_vec(), b"0-0".to_vec()), (b"b".to_vec(), b"$".to_vec())]);
    let (_, _, err) = XreadConfig::from_args(&args(&["STREAMS", "a"]));
    assert_eq!(err, Some(b"STREAMS must be followed by keys and their corresponding IDs".to_vec()));
    let (_, used, err) = XreadConfig::from_args(&args(&["COUNT"]));
    assert_eq!(err, Some(b"COUNT requires an argument".to_vec()));
    assert_eq!(used, 1);
    let (_, _, err) = XreadConfig::from_args(&args(&["BLOCK", "x", "STREAMS", "a", "0"]));
    assert_eq!(err, Some(b"BLOCK must be an integer".to_vec()));
    let (_, _, err) = XreadConfig::from_args(&args(&["FOO"]));
    assert_eq!(err, Some(b"Unknown or misplaced argument: FOO".to_vec()));
    let (_, _, err) = XreadConfig::from_args(&args(&[]));
    assert_eq!(err, Some(b"Missing STREAMS argument".to_vec()));
}

#[test]
fn xread_without_block() {
    let mut ks = Keyspace::new();
    let mut c = Connection::new();
    run_at(&mut ks, &mut c, &["XADD", "s", "1-1", "a", "b"], 0);
    run_at(&mut ks, &mut c, &["XADD", "s", "1-2", "c", "d"], 0);
    assert_eq!(
        run_at(&mut ks, &mut c, &["XREAD", "STREAMS", "s", "1-1"], 0),
        b"*1\r\n*2\r\n$1\r\ns\r\n*1\r\n*2\r\n$3\r\n1-2\r\n*2\r\n$1\r\nc\r\n$1\r\nd\r\n".to_vec()
    );
    assert_eq!(run_at(&mut ks, &mut c, &["XREAD", "STREAMS", "s", "1-2"], 0), b"*-1\r\n".to_vec());
    assert_eq!(
        run_at(&mut ks, &mut c, &["XREAD", "COUNT", "1", "STREAMS", "s", "0-0"], 0),
        b"*1\r\n*2\r\n$1\r\ns\r\n*1\r\n*2\r\n$3\r\n1-1\r\n*2\r\n$1\r\na\r\n$1\r\nb\r\n".to_vec()
    );
}

#[test]
fn xread_dollar_snapshot() {
    let mut ks = Keyspace::new();
    let mut c = Connection::new();
    run_at(&mut ks, &mut c, &["XADD", "s", "1-1", "a", "b"], 0);
    let r = Runner::new(args(&["XREAD", "BLOCK", "0", "STREAMS", "s", "$"])).step(&mut ks, &mut c, &info(), 0);
    let (keys, afters, count) = match r.effect {
        Effect::BlockRead { keys, afters, count, timeout_ms } => {
            assert_eq!(timeout_ms, 0);
            (keys, afters, count)
        }
        _ => panic!("expected a blocking read"),
    };
    assert_eq!(afters, vec![(1, 1)]);
    assert!(ks.xread_once(&keys, &afters, count).is_none());
    run_at(&mut ks, &mut c, &["XADD", "s", "2-0", "x", "y"], 0);
    assert_eq!(
        ks.xread_once(&keys, &afters, count).unwrap(),
        b"*1\r\n*2\r\n$1\r\ns\r\n*1\r\n*2\r\n$3\r\n2-0\r\n*2\r\n$1\r\nx\r\n$1\r\ny\r\n".to_vec()
    );
}

#[test]
fn auto_id_at_clock_zero_is_above_zero() {
    let mut s = Stream::new();
    assert_eq!(s.add_entries_at(b"*", kv("a", "1"), 0), Ok(b"0-1".to_vec()));
    assert_eq!(s.add_entries_at(b"*", kv("a", "1"), 0), Ok(b"0-2".to_vec()));
    assert_eq!(StreamError::Invalid.message(), "The ID specified in XADD is not valid");
}
