use kvserver::commands::{Effect, Runner, ServerInfo};
use kvserver::config::Config;
use kvserver::connection::Connection;
use kvserver::keyspace::Keyspace;
use kvserver::request::Request;

fn args(v: &[&str]) -> Vec<Vec<u8>> {
    v.iter().map(|s| s.as_bytes().to_vec()).collect()
}

fn server() -> ServerInfo {
    ServerInfo {
        is_master: true,
        master_replid: b"8371b4fb1155b71f4a04d3e1bc3e18c4a990aeeb".to_vec(),
        master_repl_offset: 0,
        dir_path: b"/var/tmp/redis".to_vec(),
        dbfilename: b"dump.rdb".to_vec(),
    }
}

struct Session {
    ks: Keyspace,
    conn: Connection,
    info: ServerInfo,
}

impl Session {
    fn new() -> Self {
        Session { ks: Keyspace::new(), conn: Connection::new(), info: server() }
    }

    fn run_at(&mut self, cmd: &[&str], now: u64) -> Vec<u8> {
        let r = Runner::new(args(cmd)).step(&mut self.ks, &mut self.conn, &self.info, now);
        r.reply.expect("a reply")
    }

    fn run(&mut self, cmd: &[&str]) -> Vec<u8> {
        self.run_at(cmd, 1_000)
    }
}

#[test]
fn ping_over_the_wire() {
    let mut s = Session::new();
    let (req, n) = Request::try_parse(b"*1\r\n$4\r\nPING\r\n").unwrap();
    assert_eq!(n, 14);
    let r = Runner::new(req.args).step(&mut s.ks, &mut s.conn, &s.info, 0);
    assert_eq!(r.reply.unwrap(), b"+PONG\r\n".to_vec());
    assert!(r.propagate.is_empty());
}

#[test]
fn set_then_get() {
    let mut s = Session::new();
    assert_eq!(s.run(&["SET", "foo", "bar"]), b"+OK\r\n".to_vec());
    assert_eq!(s.run(&["GET", "foo"]), b"$3\r\nbar\r\n".to_vec());
}

#[test]
fn set_px_expires() {
    let mut s = Session::new();
    assert_eq!(s.run_at(&["SET", "foo", "baz", "PX", "100"], 1_000), b"+OK\r\n".to_vec());
    assert_eq!(s.run_at(&["GET", "foo"], 1_050), b"$3\r\nbaz\r\n".to_vec());
    assert_eq!(s.run_at(&["GET", "foo"], 1_150), b"$-1\r\n".to_vec());
    assert!(!s.ks.db.contains_key(b"foo"));
    assert!(!s.ks.config.contains_key(b"foo"));
}

#[test]
fn set_ex_in_seconds() {
    let mut s = Session::new();
    s.run_at(&["SET", "k", "v", "ex", "2"], 10_000);
    assert_eq!(s.ks.config.get(b"k").unwrap().expire_at, Some(12_000));
    assert_eq!(s.run_at(&["GET", "k"], 11_999), b"$1\r\nv\r\n".to_vec());
    assert_eq!(s.run_at(&["GET", "k"], 12_000), b"$-1\r\n".to_vec());
}

#[test]
fn set_errors() {
    let mut s = Session::new();
    assert_eq!(
        s.run(&["SET", "k"]),
        b"-ERR wrong number of arguments for 'set' command\r\n".to_vec()
    );
    assert_eq!(s.run(&["SET", "k", "v", "PX"]), b"-ERR syntax error\r\n".to_vec());
    assert_eq!(
        s.run(&["SET", "k", "v", "PX", "soon"]),
        b"-ERR value is not an integer or out of range\r\n".to_vec()
    );
    assert_eq!(
        s.run_at(&["SET", "k", "v", "EX", "18446744073709551615"], 5),
        b"-ERR invalid expire time in 'set' command\r\n".to_vec()
    );
    assert_eq!(s.run(&["GET", "k"]), b"$-1\r\n".to_vec());
}

#[test]
fn set_propagates_its_frame() {
    let mut s = Session::new();
    let r = Runner::new(args(&["set", "a", "1", "px", "50"])).step(&mut s.ks, &mut s.conn, &s.info, 0);
    assert_eq!(
        r.propagate,
        vec![b"*5\r\n$3\r\nSET\r\n$1\r\na\r\n$1\r\n1\r\n$2\r\nPX\r\n$2\r\n50\r\n".to_vec()]
    );
}

#[test]
fn multi_incr_exec() {
    let mut s = Session::new();
    assert_eq!(s.run(&["MULTI"]), b"+OK\r\n".to_vec());
    assert_eq!(s.run(&["INCR", "x"]), b"+QUEUED\r\n".to_vec());
    assert_eq!(s.run(&["INCR", "x"]), b"+QUEUED\r\n".to_vec());
    assert_eq!(s.run(&["EXEC"]), b"*2\r\n:1\r\n:2\r\n".to_vec());
    assert!(!s.conn.transaction.is_txing);
    assert_eq!(s.run(&["GET", "x"]), b"$1\r\n2\r\n".to_vec());
}

#[test]
fn exec_propagates_each_write() {
    let mut s = Session::new();
    s.run(&["MULTI"]);
    s.run(&["SET", "a", "1"]);
    s.run(&["GET", "a"]);
    s.run(&["INCR", "a"]);
    let r = Runner::new(args(&["EXEC"])).step(&mut s.ks, &mut s.conn, &s.info, 0);
    assert_eq!(r.reply.unwrap(), b"*3\r\n+OK\r\n$1\r\n1\r\n:2\r\n".to_vec());
    assert_eq!(r.propagate.len(), 2);
    assert_eq!(r.propagate[1], b"*2\r\n$4\r\nINCR\r\n$1\r\na\r\n".to_vec());
}

#[test]
fn transaction_errors() {
    let mut s = Session::new();
    assert_eq!(s.run(&["EXEC"]), b"-ERR EXEC without MULTI\r\n".to_vec());
    assert_eq!(s.run(&["DISCARD"]), b"-ERR DISCARD without MULTI\r\n".to_vec());
    s.run(&["MULTI"]);
    assert_eq!(s.run(&["MULTI"]), b"-ERR MULTI calls can not be nested\r\n".to_vec());
    s.run(&["SET", "a", "1"]);
    assert_eq!(s.run(&["DISCARD"]), b"+OK\r\n".to_vec());
    assert_eq!(s.run(&["GET", "a"]), b"$-1\r\n".to_vec());
}

#[test]
fn unknown_command_in_transaction_gives_null() {
    let mut s = Session::new();
    s.run(&["MULTI"]);
    s.run(&["FROB"]);
    s.run(&["PING"]);
    assert_eq!(s.run(&["EXEC"]), b"*2\r\n$-1\r\n+PONG\r\n".to_vec());
}

#[test]
fn unknown_and_empty_commands() {
    let mut s = Session::new();
    assert_eq!(s.run(&["FROB"]), b"-ERR unknown command\r\n".to_vec());
    assert_eq!(s.run(&[]), b"-ERR empty command\r\n".to_vec());
    assert_eq!(s.run(&["COMMAND", "DOCS"]), b"+OK\r\n".to_vec());
}

#[test]
fn echo_replies_its_argument() {
    let mut s = Session::new();
    assert_eq!(s.run(&["ECHO", "hey"]), b"+hey\r\n".to_vec());
}

#[test]
fn incr_cases() {
    let mut s = Session::new();
    assert_eq!(s.run(&["INCR", "n"]), b":1\r\n".to_vec());
    s.run(&["SET", "n", "41"]);
    assert_eq!(s.run(&["INCR", "n"]), b":42\r\n".to_vec());
    s.run(&["SET", "n", "-5"]);
    assert_eq!(s.run(&["INCR", "n"]), b":-4\r\n".to_vec());
    s.run(&["SET", "n", "abc"]);
    assert_eq!(s.run(&["INCR", "n"]), b"-ERR value is not an integer or out of range\r\n".to_vec());
    s.run(&["SET", "n", "9223372036854775807"]);
    assert_eq!(s.run(&["INCR", "n"]), b"-ERR value is not an integer or out of range\r\n".to_vec());
    s.run(&["RPUSH", "l", "a"]);
    assert_eq!(s.run(&["INCR", "l"]), b"-ERR value is not an integer or out of range\r\n".to_vec());
}

#[test]
fn incr_on_expired_key() {
    let mut s = Session::new();
    s.run_at(&["SET", "n", "1", "PX", "10"], 100);
    assert_eq!(s.run_at(&["INCR", "n"], 200), b"-ERR key n is expired\r\n".to_vec());
    assert!(!s.ks.db.contains_key(b"n"));
}

#[test]
fn del_and_type() {
    let mut s = Session::new();
    s.run(&["SET", "a", "1"]);
    s.run(&["RPUSH", "l", "x"]);
    s.run(&["XADD", "st", "1-1", "f", "v"]);
    assert_eq!(s.run(&["TYPE", "a"]), b"+string\r\n".to_vec());
    assert_eq!(s.run(&["TYPE", "l"]), b"+list\r\n".to_vec());
    assert_eq!(s.run(&["TYPE", "st"]), b"+stream\r\n".to_vec());
    assert_eq!(s.run(&["TYPE", "nope"]), b"+none\r\n".to_vec());
    assert_eq!(s.run(&["DEL", "a"]), b":1\r\n".to_vec());
    assert_eq!(s.run(&["DEL", "a"]), b":0\r\n".to_vec());
    assert_eq!(s.run(&["TYPE", "a"]), b"+none\r\n".to_vec());
}

#[test]
fn type_of_expired_key_is_none() {
    let mut s = Session::new();
    s.run_at(&["SET", "a", "1", "PX", "5"], 0);
    assert_eq!(s.run_at(&["TYPE", "a"], 5), b"+none\r\n".to_vec());
}

#[test]
fn get_on_list_is_wrongtype() {
    let mut s = Session::new();
    s.run(&["RPUSH", "l", "x"]);
    assert_eq!(
        s.run(&["GET", "l"]),
        b"-WRONGTYPE Operation against a key holding the wrong kind of value\r\n".to_vec()
    );
}

#[test]
fn keys_with_patterns() {
    let mut s = Session::new();
    s.run(&["SET", "foo", "1"]);
    s.run(&["SET", "fab", "2"]);
    s.run(&["SET", "bar", "3"]);
    assert_eq!(s.run(&["KEYS", "*"]), b"*3\r\n$3\r\nfoo\r\n$3\r\nfab\r\n$3\r\nbar\r\n".to_vec());
    assert_eq!(s.run(&["KEYS", "f*"]), b"*2\r\n$3\r\nfoo\r\n$3\r\nfab\r\n".to_vec());
    assert_eq!(s.run(&["KEYS", "*r"]), b"*1\r\n$3\r\nbar\r\n".to_vec());
    assert_eq!(s.run(&["KEYS", "f*b"]), b"*1\r\n$3\r\nfab\r\n".to_vec());
    assert_eq!(s.run(&["KEYS", "bar"]), b"*1\r\n$3\r\nbar\r\n".to_vec());
}

#[test]
fn keys_drops_expired() {
    let mut s = Session::new();
    s.run_at(&["SET", "a", "1", "PX", "10"], 0);
    s.run_at(&["SET", "b", "2"], 0);
    assert_eq!(s.run_at(&["KEYS", "*"], 20), b"*1\r\n$1\r\nb\r\n".to_vec());
    assert!(!s.ks.db.contains_key(b"a"));
}

#[test]
fn sweep_removes_expired_keys() {
    let mut ks = Keyspace::new();
    let mut c = Connection::new();
    let info = server();
    Runner::new(args(&["SET", "a", "1", "PX", "100"])).step(&mut ks, &mut c, &info, 0);
    Runner::new(args(&["SET", "b", "1", "PX", "5000"])).step(&mut ks, &mut c, &info, 0);
    Runner::new(args(&["SET", "c", "1"])).step(&mut ks, &mut c, &info, 0);
    ks.sweep(1_000);
    assert!(!ks.db.contains_key(b"a"));
    assert!(!ks.config.contains_key(b"a"));
    assert!(ks.db.contains_key(b"b"));
    assert!(ks.db.contains_key(b"c"));
}

#[test]
fn config_and_info() {
    let mut s = Session::new();
    assert_eq!(
        s.run(&["CONFIG", "GET", "dir"]),
        b"*2\r\n$3\r\ndir\r\n$14\r\n/var/tmp/redis\r\n".to_vec()
    );
    assert_eq!(
        s.run(&["CONFIG", "GET", "dbfilename"]),
        b"*2\r\n$10\r\ndbfilename\r\n$8\r\ndump.rdb\r\n".to_vec()
    );
    assert_eq!(s.run(&["CONFIG", "SET"]), b"-ERR invalid config argument\r\n".to_vec());
    let info = s.run(&["INFO", "replication"]);
    let text = String::from_utf8(info).unwrap();
    assert!(text.contains("role:master"));
    assert!(text.contains("master_repl_offset:0"));
    s.info.is_master = false;
    assert_eq!(s.run(&["INFO"]), b"$10\r\nrole:slave\r\n".to_vec());
}

#[test]
fn config_expiry_check() {
    let c = Config { expire_at: Some(10), updated_at: None };
    assert!(!c.is_expired_at(9));
    assert!(c.is_expired_at(10));
    let d: Config = Default::default();
    assert!(!d.is_expired_at(u64::MAX));
    assert!(!d.is_expired());
}

#[test]
fn effects_for_blocking_and_replication() {
    let mut s = Session::new();
    let r = Runner::new(args(&["BLPOP", "l", "0.5"])).step(&mut s.ks, &mut s.conn, &s.info, 0);
    assert!(r.reply.is_none());
    match r.effect {
        Effect::BlockPop { key, timeout } => {
            assert_eq!(key, b"l".to_vec());
            assert_eq!(timeout, b"0.5".to_vec());
        }
        _ => panic!("expected a blocking pop"),
    }
    let r = Runner::new(args(&["WAIT", "1", "500"])).step(&mut s.ks, &mut s.conn, &s.info, 0);
    assert!(matches!(r.effect, Effect::Wait { numreplicas: 1, timeout_ms: 500 }));
    let r = Runner::new(args(&["ZADD", "z", "1", "a"])).step(&mut s.ks, &mut s.conn, &s.info, 0);
    assert!(matches!(r.effect, Effect::Scored));
    let r = Runner::new(args(&["REPLCONF", "listening-port", "6380"])).step(&mut s.ks, &mut s.conn, &s.info, 0);
    assert_eq!(r.reply.unwrap(), b"+OK\r\n".to_vec());
    assert_eq!(s.conn.slave_port, Some(b"6380".to_vec()));
    let r = Runner::new(args(&["PSYNC", "?", "-1"])).step(&mut s.ks, &mut s.conn, &s.info, 0);
    assert!(matches!(r.effect, Effect::FullResync));
    assert!(s.conn.is_slave_established);
    let r = Runner::new(args(&["REPLCONF", "ACK", "31"])).step(&mut s.ks, &mut s.conn, &s.info, 0);
    assert!(matches!(r.effect, Effect::Ack(31)));
    let r = Runner::new(args(&["REPLCONF", "GETACK", "*"])).step(&mut s.ks, &mut s.conn, &s.info, 0);
    assert!(matches!(r.effect, Effect::GetAck));
    assert_eq!(s.run(&["REPLCONF", "bogus"]), b"-ERR syntax error\r\n".to_vec());
    assert_eq!(s.run(&["WAIT", "x", "1"]), b"-ERR invalid number of replicas\r\n".to_vec());
    assert_eq!(s.run(&["WAIT", "1", "x"]), b"-ERR invalid timeout\r\n".to_vec());
}

#[test]
fn connection_id_is_alphanumeric() {
    let c = Connection::new();
    assert_eq!(c.id.len(), 16);
    assert!(c.id.iter().all(|b| b.is_ascii_alphanumeric()));
    assert!(!c.transaction.is_txing);
}
