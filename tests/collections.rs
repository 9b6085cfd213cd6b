use kvserver::commands::{Runner, ServerInfo};
use kvserver::connection::Connection;
use kvserver::keyspace::Keyspace;
use kvserver::zset::{window, ZSet};

fn args(v: &[&str]) -> Vec<Vec<u8>> {
    v.iter().map(|s| s.as_bytes().to_vec()).collect()
}

fn info() -> ServerInfo {
    ServerInfo {
        is_master: true,
        master_replid: b"x".to_vec(),
        master_repl_offset: 0,
        dir_path: b"d".to_vec(),
        dbfilename: b"f".to_vec(),
    }
}

fn run(ks: &mut Keyspace, c: &mut Connection, cmd: &[&str]) -> Vec<u8> {
    Runner::new(args(cmd)).step(ks, c, &info(), 0).reply.unwrap()
}

#[test]
fn rpush_lrange_lpop() {
    let mut ks = Keyspace::new();
    let mut c = Connection::new();
    assert_eq!(run(&mut ks, &mut c, &["RPUSH", "l", "a", "b", "c"]), b":3\r\n".to_vec());
    assert_eq!(
        run(&mut ks, &mut c, &["LRANGE", "l", "0", "-1"]),
        b"*3\r\n$1\r\na\r\n$1\r\nb\r\n$1\r\nc\r\n".to_vec()
    );
    assert_eq!(
        run(&mut ks, &mut c, &["LPOP", "l", "2"]),
        b"*2\r\n$1\r\na\r\n$1\r\nb\r\n".to_vec()
    );
    assert_eq!(run(&mut ks, &mut c, &["LLEN", "l"]), b":1\r\n".to_vec());
    assert_eq!(run(&mut ks, &mut c, &["LPOP", "l"]), b"$1\r\nc\r\n".to_vec());
    assert!(!ks.db.contains_key(b"l"));
    assert_eq!(run(&mut ks, &mut c, &["LPOP", "l"]), b"$-1\r\n".to_vec());
    assert_eq!(run(&mut ks, &mut c, &["LPOP", "l", "3"]), b"*0\r\n".to_vec());
    assert_eq!(run(&mut ks, &mut c, &["LLEN", "l"]), b":0\r\n".to_vec());
}

#[test]
fn lpush_puts_each_at_head() {
    let mut ks = Keyspace::new();
    let mut c = Connection::new();
    assert_eq!(run(&mut ks, &mut c, &["LPUSH", "l", "a", "b", "c"]), b":3\r\n".to_vec());
    assert_eq!(
        run(&mut ks, &mut c, &["LRANGE", "l", "0", "-1"]),
        b"*3\r\n$1\r\nc\r\n$1\r\nb\r\n$1\r\na\r\n".to_vec()
    );
    let r = Runner::new(args(&["LPUSH", "l", "d"])).step(&mut ks, &mut c, &info(), 0);
    assert_eq!(r.propagate, vec![b"*3\r\n$5\r\nLPUSH\r\n$1\r\nl\r\n$1\r\nd\r\n".to_vec()]);
}

#[test]
fn lrange_windows() {
    let mut ks = Keyspace::new();
    let mut c = Connection::new();
    run(&mut ks, &mut c, &["RPUSH", "l", "a", "b", "c", "d"]);
    assert_eq!(run(&mut ks, &mut c, &["LRANGE", "l", "1", "2"]), b"*2\r\n$1\r\nb\r\n$1\r\nc\r\n".to_vec());
    assert_eq!(run(&mut ks, &mut c, &["LRANGE", "l", "-2", "10"]), b"*2\r\n$1\r\nc\r\n$1\r\nd\r\n".to_vec());
    assert_eq!(run(&mut ks, &mut c, &["LRANGE", "l", "3", "1"]), b"*0\r\n".to_vec());
    assert_eq!(run(&mut ks, &mut c, &["LRANGE", "l", "9", "12"]), b"*0\r\n".to_vec());
    assert_eq!(run(&mut ks, &mut c, &["LRANGE", "nope", "0", "-1"]), b"*0\r\n".to_vec());
    assert_eq!(
        run(&mut ks, &mut c, &["LRANGE", "l", "a", "1"]),
        b"-ERR value is not an integer or out of range\r\n".to_vec()
    );
}

#[test]
fn window_arithmetic() {
    assert_eq!(window(5, 0, -1), (0, 5));
    assert_eq!(window(5, -3, -2), (2, 4));
    assert_eq!(window(5, -10, 2), (0, 3));
    assert_eq!(window(5, 4, 100), (4, 5));
    assert_eq!(window(5, 5, 6), (0, 0));
    assert_eq!(window(0, 0, -1), (0, 0));
    assert_eq!(window(3, i64::MIN, i64::MAX), (0, 3));
}

#[test]
fn list_errors() {
    let mut ks = Keyspace::new();
    let mut c = Connection::new();
    run(&mut ks, &mut c, &["SET", "s", "v"]);
    let wrong = b"-WRONGTYPE Operation against a key holding the wrong kind of value\r\n".to_vec();
    assert_eq!(run(&mut ks, &mut c, &["RPUSH", "s", "a"]), wrong);
    assert_eq!(run(&mut ks, &mut c, &["LPOP", "s"]), wrong);
    assert_eq!(run(&mut ks, &mut c, &["LLEN", "s"]), wrong);
    assert_eq!(run(&mut ks, &mut c, &["LRANGE", "s", "0", "1"]), wrong);
    assert_eq!(
        run(&mut ks, &mut c, &["RPUSH", "l"]),
        b"-ERR wrong number of arguments for 'rpush' command\r\n".to_vec()
    );
    run(&mut ks, &mut c, &["RPUSH", "l", "a"]);
    assert_eq!(
        run(&mut ks, &mut c, &["LPOP", "l", "0"]),
        b"-ERR value is not an integer or out of range\r\n".to_vec()
    );
}

#[test]
fn blpop_once_pops_head() {
    let mut ks = Keyspace::new();
    let mut c = Connection::new();
    assert!(ks.blpop_once(b"q").is_none());
    run(&mut ks, &mut c, &["RPUSH", "q", "x", "y"]);
    let o = ks.blpop_once(b"q").unwrap();
    assert_eq!(o.reply, b"*2\r\n$1\r\nq\r\n$1\r\nx\r\n".to_vec());
    assert_eq!(o.propagate.unwrap(), b"*2\r\n$4\r\nLPOP\r\n$1\r\nq\r\n".to_vec());
    assert_eq!(run(&mut ks, &mut c, &["LLEN", "q"]), b":1\r\n".to_vec());
}

#[test]
fn zadd_scenario() {
    let mut ks = Keyspace::new();
    let mut c = Connection::new();
    assert_eq!(ks.zadd(b"z", 1, b"a"), b":1\r\n".to_vec());
    assert_eq!(ks.zadd(b"z", 2, b"b"), b":1\r\n".to_vec());
    assert_eq!(ks.zadd(b"z", 1, b"a"), b":0\r\n".to_vec());
    assert_eq!(
        run(&mut ks, &mut c, &["ZRANGE", "z", "0", "-1"]),
        b"*2\r\n$1\r\na\r\n$1\r\nb\r\n".to_vec()
    );
    assert_eq!(run(&mut ks, &mut c, &["ZCARD", "z"]), b":2\r\n".to_vec());
    assert_eq!(run(&mut ks, &mut c, &["ZRANK", "z", "b"]), b":1\r\n".to_vec());
    assert_eq!(run(&mut ks, &mut c, &["ZRANK", "z", "q"]), b"$-1\r\n".to_vec());
    assert_eq!(ks.zscore(b"z", b"b").unwrap(), Some(2));
    assert_eq!(ks.zscore(b"z", b"q").unwrap(), None);
    assert_eq!(run(&mut ks, &mut c, &["ZREM", "z", "a"]), b":1\r\n".to_vec());
    assert_eq!(run(&mut ks, &mut c, &["ZREM", "z", "a"]), b":0\r\n".to_vec());
    assert_eq!(run(&mut ks, &mut c, &["ZCARD", "z"]), b":1\r\n".to_vec());
}

#[test]
fn zset_orders_by_score_then_member() {
    let mut z = ZSet::new();
    assert_eq!(z.zadd(5, b"b".to_vec()), 1);
    assert_eq!(z.zadd(5, b"a".to_vec()), 1);
    assert_eq!(z.zadd(1, b"c".to_vec()), 1);
    let all: Vec<Vec<u8>> = z.zrange(0, -1).into_iter().map(|p| p.1).collect();
    assert_eq!(all, vec![b"c".to_vec(), b"a".to_vec(), b"b".to_vec()]);
    assert_eq!(z.zadd(0, b"b".to_vec()), 0);
    let all: Vec<(u64, Vec<u8>)> = z.zrange(0, -1);
    assert_eq!(all, vec![(0, b"b".to_vec()), (1, b"c".to_vec()), (5, b"a".to_vec())]);
    assert_eq!(z.zrank(b"a"), Some(2));
    assert_eq!(z.zcard(), 3);
}

#[test]
fn zset_add_then_remove_restores() {
    let mut z = ZSet::new();
    z.zadd(3, b"x".to_vec());
    z.zadd(7, b"y".to_vec());
    let before = z.zrange(0, -1);
    z.zadd(5, b"m".to_vec());
    assert_eq!(z.zrem(b"m"), 1);
    assert_eq!(z.zrange(0, -1), before);
    assert_eq!(z.zscore(b"m"), None);
    assert_eq!(z.zcard(), 2);
}

#[test]
fn zset_errors() {
    let mut ks = Keyspace::new();
    let mut c = Connection::new();
    run(&mut ks, &mut c, &["SET", "s", "v"]);
    let wrong = b"-WRONGTYPE Operation against a key holding the wrong kind of value\r\n".to_vec();
    assert_eq!(ks.zadd(b"s", 1, b"a"), wrong);
    assert_eq!(run(&mut ks, &mut c, &["ZRANGE", "s", "0", "1"]), wrong);
    assert_eq!(run(&mut ks, &mut c, &["ZCARD", "s"]), wrong);
    assert!(ks.zscore(b"s", b"a").is_err());
    assert_eq!(run(&mut ks, &mut c, &["ZCARD", "none"]), b":0\r\n".to_vec());
    assert_eq!(
        run(&mut ks, &mut c, &["ZREM", "z"]),
        b"-ERR wrong number of arguments for 'zrem' command\r\n".to_vec()
    );
}

#[test]
fn zrem_propagates_only_when_removed() {
    let mut ks = Keyspace::new();
    let mut c = Connection::new();
    ks.zadd(b"z", 1, b"a");
    let r = Runner::new(args(&["ZREM", "z", "a"])).step(&mut ks, &mut c, &info(), 0);
    assert_eq!(r.reply.unwrap(), b":1\r\n".to_vec());
    assert_eq!(r.propagate, vec![b"*3\r\n$4\r\nZREM\r\n$1\r\nz\r\n$1\r\na\r\n".to_vec()]);
    let r = Runner::new(args(&["ZREM", "z", "a"])).step(&mut ks, &mut c, &info(), 0);
    assert_eq!(r.reply.unwrap(), b":0\r\n".to_vec());
    assert!(r.propagate.is_empty());
}
