//! Command dispatch: from a parsed request and the connection's state to the
//! reply, the frames to propagate, and what is left for the server's loops.
use vstd::prelude::*;
use vstd::string::StringSliceAdditionalSpecFns;
use crate::connection::Connection;
use crate::decimal::{dec, parse_u64, push_dec, spec_parse_u64};
use crate::keyspace::{del_post, get_post, incr_post, keys_post, list_view, set_post, type_post, Keyspace, Outcome};
use crate::lists::{llen_post, lpop_post, lrange_post, push_post, somes, wrong_args};
use crate::sorted_sets::{zcard_reply, zrange_reply, zrank_reply, zrem_post};
use crate::streams::{holds_non_stream, resolve_after, xadd_post, xrange_post, xread_frames};
use crate::keyspace::ValueView;
use crate::resp::null_array;
use crate::resp::{array, bulk};
use crate::resp::{integer, request_frame};
use crate::resp::{
    array_header, concat, error, null_bulk, simple, views, bulk_string, error_reply,
    frames_array_reply, null_array_reply, null_bulk_string, push_all, simple_string,
    string_array_reply,
};
use crate::stream::StreamId;
use crate::table::copy_bytes;
use crate::text::{eq_word, is_word, lit};
use crate::transaction::Transaction;
use crate::xread_config::{spec_xread_args, stream_pairs, XreadConfig};

verus! {

/// What the server knows of itself that replies report.
pub struct ServerInfo {
    pub is_master: bool,
    pub master_replid: Vec<u8>,
    pub master_repl_offset: u64,
    pub dir_path: Vec<u8>,
    pub dbfilename: Vec<u8>,
}

/// Work that the server's loops do after a command, outside the keyspace.
pub enum Effect {
    Nothing,
    /// `BLPOP`: retry `Keyspace::blpop_once` on `key` until it pops or the
    /// timeout, given as text in seconds, runs out.
    BlockPop { key: Vec<u8>, timeout: Vec<u8> },
    /// `XREAD BLOCK`: retry `Keyspace::xread_once` until it reports or
    /// `timeout_ms` runs out (0: no limit); then a null array.
    BlockRead { keys: Vec<Vec<u8>>, afters: Vec<StreamId>, count: Option<u64>, timeout_ms: u64 },
    /// `WAIT`: reply `wait_promise`, then poll the replicas' offsets.
    Wait { numreplicas: u64, timeout_ms: u64 },
    /// `PSYNC`: send `full_resync_reply` and register the connection as a replica.
    FullResync,
    /// `REPLCONF ACK <n>` from a replica.
    Ack(u64),
    /// `REPLCONF GETACK`: answer with the replica's `ack_frame`.
    GetAck,
    /// A command whose arguments or reply hold floating-point numbers
    /// (`ZADD`, `ZSCORE`, `GEOADD`, `GEOPOS`).
    Scored,
}

/// The result of one command.
pub struct Response {
    pub reply: Option<Vec<u8>>,
    pub propagate: Vec<Vec<u8>>,
    pub effect: Effect,
}

pub open spec fn unknown_command() -> Seq<u8> {
    error("ERR unknown command".spec_bytes())
}

/// The commands that `run_command` carries out on its own.
pub open spec fn plain_command(name: Seq<u8>) -> bool {
    is_word(name, "ping") || is_word(name, "echo") || is_word(name, "set") || is_word(name, "get")
        || is_word(name, "del") || is_word(name, "incr") || is_word(name, "type") || is_word(name, "keys")
        || is_word(name, "config") || is_word(name, "info") || is_word(name, "rpush") || is_word(name, "lpush")
        || is_word(name, "lpop") || is_word(name, "llen") || is_word(name, "lrange") || is_word(name, "xadd")
        || is_word(name, "xrange") || is_word(name, "zrem") || is_word(name, "zrank") || is_word(name, "zrange")
        || is_word(name, "zcard") || is_word(name, "command") || is_word(name, "docs")
}

/// The bytes of the command names.
proof fn lemma_command_words()
    ensures
        "ping".spec_bytes() =~= seq![112u8, 105u8, 110u8, 103u8],
        "echo".spec_bytes() =~= seq![101u8, 99u8, 104u8, 111u8],
        "set".spec_bytes() =~= seq![115u8, 101u8, 116u8],
        "get".spec_bytes() =~= seq![103u8, 101u8, 116u8],
        "del".spec_bytes() =~= seq![100u8, 101u8, 108u8],
        "incr".spec_bytes() =~= seq![105u8, 110u8, 99u8, 114u8],
        "type".spec_bytes() =~= seq![116u8, 121u8, 112u8, 101u8],
        "keys".spec_bytes() =~= seq![107u8, 101u8, 121u8, 115u8],
        "config".spec_bytes() =~= seq![99u8, 111u8, 110u8, 102u8, 105u8, 103u8],
        "info".spec_bytes() =~= seq![105u8, 110u8, 102u8, 111u8],
        "rpush".spec_bytes() =~= seq![114u8, 112u8, 117u8, 115u8, 104u8],
        "lpush".spec_bytes() =~= seq![108u8, 112u8, 117u8, 115u8, 104u8],
        "lpop".spec_bytes() =~= seq![108u8, 112u8, 111u8, 112u8],
        "llen".spec_bytes() =~= seq![108u8, 108u8, 101u8, 110u8],
        "lrange".spec_bytes() =~= seq![108u8, 114u8, 97u8, 110u8, 103u8, 101u8],
        "xadd".spec_bytes() =~= seq![120u8, 97u8, 100u8, 100u8],
        "xrange".spec_bytes() =~= seq![120u8, 114u8, 97u8, 110u8, 103u8, 101u8],
        "zrem".spec_bytes() =~= seq![122u8, 114u8, 101u8, 109u8],
        "zrank".spec_bytes() =~= seq![122u8, 114u8, 97u8, 110u8, 107u8],
        "zrange".spec_bytes() =~= seq![122u8, 114u8, 97u8, 110u8, 103u8, 101u8],
        "zcard".spec_bytes() =~= seq![122u8, 99u8, 97u8, 114u8, 100u8],
        "command".spec_bytes() =~= seq![99u8, 111u8, 109u8, 109u8, 97u8, 110u8, 100u8],
        "docs".spec_bytes() =~= seq![100u8, 111u8, 99u8, 115u8],
{
    reveal_strlit("ping");
    vstd::string::is_ascii_spec_bytes("ping");
    reveal_strlit("echo");
    vstd::string::is_ascii_spec_bytes("echo");
    reveal_strlit("set");
    vstd::string::is_ascii_spec_bytes("set");
    reveal_strlit("get");
    vstd::string::is_ascii_spec_bytes("get");
    reveal_strlit("del");
    vstd::string::is_ascii_spec_bytes("del");
    reveal_strlit("incr");
    vstd::string::is_ascii_spec_bytes("incr");
    reveal_strlit("type");
    vstd::string::is_ascii_spec_bytes("type");
    reveal_strlit("keys");
    vstd::string::is_ascii_spec_bytes("keys");
    reveal_strlit("config");
    vstd::string::is_ascii_spec_bytes("config");
    reveal_strlit("info");
    vstd::string::is_ascii_spec_bytes("info");
    reveal_strlit("rpush");
    vstd::string::is_ascii_spec_bytes("rpush");
    reveal_strlit("lpush");
    vstd::string::is_ascii_spec_bytes("lpush");
    reveal_strlit("lpop");
    vstd::string::is_ascii_spec_bytes("lpop");
    reveal_strlit("llen");
    vstd::string::is_ascii_spec_bytes("llen");
    reveal_strlit("lrange");
    vstd::string::is_ascii_spec_bytes("lrange");
    reveal_strlit("xadd");
    vstd::string::is_ascii_spec_bytes("xadd");
    reveal_strlit("xrange");
    vstd::string::is_ascii_spec_bytes("xrange");
    reveal_strlit("zrem");
    vstd::string::is_ascii_spec_bytes("zrem");
    reveal_strlit("zrank");
    vstd::string::is_ascii_spec_bytes("zrank");
    reveal_strlit("zrange");
    vstd::string::is_ascii_spec_bytes("zrange");
    reveal_strlit("zcard");
    vstd::string::is_ascii_spec_bytes("zcard");
    reveal_strlit("command");
    vstd::string::is_ascii_spec_bytes("command");
    reveal_strlit("docs");
    vstd::string::is_ascii_spec_bytes("docs");
}

fn is_plain(name: &[u8]) -> (r: bool)
    ensures
        r == plain_command(name@),
{
    eq_word(name, "ping") || eq_word(name, "echo") || eq_word(name, "set") || eq_word(name, "get")
        || eq_word(name, "del") || eq_word(name, "incr") || eq_word(name, "type") || eq_word(name, "keys")
        || eq_word(name, "config") || eq_word(name, "info") || eq_word(name, "rpush") || eq_word(name, "lpush")
        || eq_word(name, "lpop") || eq_word(name, "llen") || eq_word(name, "lrange") || eq_word(name, "xadd")
        || eq_word(name, "xrange") || eq_word(name, "zrem") || eq_word(name, "zrank") || eq_word(name, "zrange")
        || eq_word(name, "zcard") || eq_word(name, "command") || eq_word(name, "docs")
}

fn only_reply(reply: Vec<u8>) -> (r: Outcome)
    ensures
        r.reply == reply,
        r.propagate is None,
{
    Outcome { reply, propagate: None }
}

/// `INFO`: the role, and on a master its replication id and offset.
pub fn info_reply(server: &ServerInfo) -> (r: Vec<u8>)
    ensures
        r@ == crate::resp::bulk(if server.is_master {
            "role:master\nmaster_replid:".spec_bytes() + server.master_replid@
                + "\nmaster_repl_offset:".spec_bytes() + dec(server.master_repl_offset as nat)
        } else {
            "role:slave".spec_bytes()
        }),
{
    let mut text: Vec<u8> = Vec::new();
    if server.is_master {
        push_all(&mut text, lit("role:master\nmaster_replid:"));
        push_all(&mut text, server.master_replid.as_slice());
        push_all(&mut text, lit("\nmaster_repl_offset:"));
        push_dec(&mut text, server.master_repl_offset);
    } else {
        push_all(&mut text, lit("role:slave"));
    }
    let ghost expected = if server.is_master {
        "role:master\nmaster_replid:".spec_bytes() + server.master_replid@
            + "\nmaster_repl_offset:".spec_bytes() + dec(server.master_repl_offset as nat)
    } else {
        "role:slave".spec_bytes()
    };
    assert(text@ =~= expected);
    bulk_string(text.as_slice())
}

/// The reply of `CONFIG GET dir|dbfilename`: the name and its value, an
/// empty array for another name.
pub open spec fn config_text(server: ServerInfo, a: Seq<Seq<u8>>) -> Seq<u8> {
    if a.len() < 2 || !is_word(a[0], "get") {
        error("ERR invalid config argument".spec_bytes())
    } else if is_word(a[1], "dir") {
        array(somes(seq!["dir".spec_bytes(), server.dir_path@]))
    } else if is_word(a[1], "dbfilename") {
        array(somes(seq!["dbfilename".spec_bytes(), server.dbfilename@]))
    } else {
        array(Seq::empty())
    }
}

/// The text that `INFO` reports.
pub open spec fn info_text(server: ServerInfo) -> Seq<u8> {
    if server.is_master {
        "role:master\nmaster_replid:".spec_bytes() + server.master_replid@
            + "\nmaster_repl_offset:".spec_bytes() + dec(server.master_repl_offset as nat)
    } else {
        "role:slave".spec_bytes()
    }
}

/// `CONFIG GET dir|dbfilename`.
fn config_reply(server: &ServerInfo, args: &[Vec<u8>]) -> (r: Vec<u8>)
    ensures
        r@ == config_text(*server, list_view(args@)),
{
    if args.len() < 2 || !eq_word(args[0].as_slice(), "get") {
        return error_reply(lit("ERR invalid config argument"));
    }
    let mut items: Vec<Vec<u8>> = Vec::new();
    if eq_word(args[1].as_slice(), "dir") {
        items.push(copy_bytes(lit("dir")));
        items.push(copy_bytes(server.dir_path.as_slice()));
        assert(views(items@).map_values(|s: Seq<u8>| Some(s)) =~= somes(seq!["dir".spec_bytes(), server.dir_path@]));
    } else if eq_word(args[1].as_slice(), "dbfilename") {
        items.push(copy_bytes(lit("dbfilename")));
        items.push(copy_bytes(server.dbfilename.as_slice()));
        assert(views(items@).map_values(|s: Seq<u8>| Some(s)) =~= somes(seq!["dbfilename".spec_bytes(), server.dbfilename@]));
    } else {
        assert(views(items@).map_values(|s: Seq<u8>| Some(s)) =~= Seq::<Option<Seq<u8>>>::empty());
    }
    string_array_reply(&items)
}

/// A reply with nothing propagated and the keyspace left as it was.
pub open spec fn reply_only(pre: Keyspace, post: Keyspace, o: Outcome, reply: Seq<u8>) -> bool {
    o.reply@ == reply && o.propagate is None && post == pre
}

/// What `run_command` does with the request `a`.
pub open spec fn command_post(pre: Keyspace, post: Keyspace, server: ServerInfo, a: Seq<Seq<u8>>, now: u64, r: Option<Outcome>) -> bool {
    if a.len() == 0 || !plain_command(a[0]) {
        r is None && post == pre
    } else {
        match r {
            None => false,
            Some(o) => {
                let name = a[0];
                let rest = a.skip(1);
                if is_word(name, "ping") {
                    reply_only(pre, post, o, simple("PONG".spec_bytes()))
                } else if is_word(name, "get") {
                    if rest.len() < 1 {
                        reply_only(pre, post, o, error(wrong_args("get")))
                    } else {
                        o.propagate is None && get_post(pre, post, rest[0], now, o.reply@)
                    }
                } else if is_word(name, "echo") {
                    reply_only(pre, post, o, simple(if rest.len() >= 1 { rest[0] } else { Seq::empty() }))
                } else if is_word(name, "set") {
                    set_post(pre, post, rest, now, o)
                } else if is_word(name, "del") {
                    if rest.len() < 1 {
                        reply_only(pre, post, o, error(wrong_args("del")))
                    } else {
                        del_post(pre, post, rest[0], o.reply@) && (o.propagate matches Some(f) && f@
                            == request_frame(seq!["DEL".spec_bytes(), rest[0]]))
                    }
                } else if is_word(name, "incr") {
                    if rest.len() < 1 {
                        reply_only(pre, post, o, error(wrong_args("incr")))
                    } else {
                        incr_post(pre, post, rest[0], now, o)
                    }
                } else if is_word(name, "type") {
                    if rest.len() < 1 {
                        reply_only(pre, post, o, error(wrong_args("type")))
                    } else {
                        o.propagate is None && type_post(pre, post, rest[0], now, o.reply@)
                    }
                } else if is_word(name, "keys") {
                    if rest.len() < 1 {
                        reply_only(pre, post, o, error(wrong_args("keys")))
                    } else {
                        o.propagate is None && keys_post(pre, post, rest[0], now, o.reply@)
                    }
                } else if is_word(name, "config") {
                    reply_only(pre, post, o, config_text(server, rest))
                } else if is_word(name, "info") {
                    reply_only(pre, post, o, bulk(info_text(server)))
                } else if is_word(name, "rpush") {
                    push_post(pre, post, rest, false, o)
                } else if is_word(name, "lpush") {
                    push_post(pre, post, rest, true, o)
                } else if is_word(name, "lpop") {
                    lpop_post(pre, post, rest, o)
                } else if is_word(name, "llen") {
                    if rest.len() < 1 {
                        reply_only(pre, post, o, error(wrong_args("llen")))
                    } else {
                        o.propagate is None && post == pre && llen_post(pre.values(), rest[0], o.reply@)
                    }
                } else if is_word(name, "lrange") {
                    o.propagate is None && post == pre && lrange_post(pre.values(), rest, o.reply@)
                } else if is_word(name, "xadd") {
                    xadd_post(pre, post, rest, now, o)
                } else if is_word(name, "xrange") {
                    o.propagate is None && post == pre && xrange_post(pre.values(), rest, o.reply@)
                } else if is_word(name, "zrem") {
                    zrem_post(pre, post, rest, o)
                } else if is_word(name, "zrank") {
                    o.propagate is None && post == pre && zrank_reply(pre.values(), rest, o.reply@)
                } else if is_word(name, "zrange") {
                    reply_only(pre, post, o, zrange_reply(pre.values(), rest))
                } else if is_word(name, "zcard") {
                    reply_only(pre, post, o, zcard_reply(pre.values(), rest))
                } else {
                    reply_only(pre, post, o, simple("OK".spec_bytes()))
                }
            },
        }
    }
}

/// Carries out a command that needs nothing beyond the keyspace and the
/// server's facts; `None` for any other command.
#[verifier::rlimit(100)]
pub fn run_command(ks: &mut Keyspace, server: &ServerInfo, args: &Vec<Vec<u8>>, now: u64) -> (r: Option<Outcome>)
    requires
        old(ks).wf(),
    ensures
        final(ks).wf(),
        command_post(*old(ks), *final(ks), *server, views(args@), now, r),
{
    proof {
        lemma_command_words();
    }
    if args.len() == 0 {
        return None;
    }
    let name = args[0].as_slice();
    if !is_plain(name) {
        return None;
    }
    let rest = &args.as_slice()[1..args.len()];
    assert(rest@.len() == args@.len() - 1);
    assert(forall|i: int| 0 <= i < rest@.len() ==> rest@[i] == args@[i + 1]);
    assert(list_view(rest@) =~= views(args@).skip(1));
    assert(views(args@)[0] == name@);
    if eq_word(name, "ping") {
        Some(only_reply(simple_string(lit("PONG"))))
    } else if eq_word(name, "get") {
        if rest.len() < 1 {
            Some(only_reply(crate::lists::wrong_args_reply("get")))
        } else {
            Some(only_reply(ks.get(rest[0].as_slice(), now)))
        }
    } else if eq_word(name, "echo") {
        if rest.len() >= 1 {
            Some(only_reply(simple_string(rest[0].as_slice())))
        } else {
            let empty: Vec<u8> = Vec::new();
            Some(only_reply(simple_string(empty.as_slice())))
        }
    } else if eq_word(name, "set") {
        Some(ks.set(rest, now))
    } else if eq_word(name, "del") {
        if rest.len() < 1 {
            Some(only_reply(crate::lists::wrong_args_reply("del")))
        } else {
            let reply = ks.del(rest[0].as_slice());
            let frame = crate::lists::frame_with("DEL", &rest[0..1]);
            assert(views(rest@.subrange(0, 1)) =~= seq![args@[1]@]);
            assert(seq!["DEL".spec_bytes()] + seq![args@[1]@] =~= seq!["DEL".spec_bytes(), args@[1]@]);
            Some(Outcome { reply, propagate: Some(frame) })
        }
    } else if eq_word(name, "incr") {
        if rest.len() < 1 {
            Some(only_reply(crate::lists::wrong_args_reply("incr")))
        } else {
            Some(ks.incr(rest[0].as_slice(), now))
        }
    } else if eq_word(name, "type") {
        if rest.len() < 1 {
            Some(only_reply(crate::lists::wrong_args_reply("type")))
        } else {
            Some(only_reply(ks.type_of(rest[0].as_slice(), now)))
        }
    } else if eq_word(name, "keys") {
        if rest.len() < 1 {
            Some(only_reply(crate::lists::wrong_args_reply("keys")))
        } else {
            Some(only_reply(ks.keys(rest[0].as_slice(), now)))
        }
    } else if eq_word(name, "config") {
        Some(only_reply(config_reply(server, rest)))
    } else if eq_word(name, "info") {
        Some(only_reply(info_reply(server)))
    } else if eq_word(name, "rpush") {
        Some(ks.push(rest, false))
    } else if eq_word(name, "lpush") {
        Some(ks.push(rest, true))
    } else if eq_word(name, "lpop") {
        Some(ks.lpop(rest))
    } else if eq_word(name, "llen") {
        if rest.len() < 1 {
            Some(only_reply(crate::lists::wrong_args_reply("llen")))
        } else {
            Some(only_reply(ks.llen(rest[0].as_slice())))
        }
    } else if eq_word(name, "lrange") {
        Some(only_reply(ks.lrange(rest)))
    } else if eq_word(name, "xadd") {
        Some(ks.xadd(rest, now))
    } else if eq_word(name, "xrange") {
        Some(only_reply(ks.xrange(rest)))
    } else if eq_word(name, "zrem") {
        Some(ks.zrem(rest))
    } else if eq_word(name, "zrank") {
        Some(only_reply(ks.zrank(rest)))
    } else if eq_word(name, "zrange") {
        Some(only_reply(ks.zrange(rest)))
    } else if eq_word(name, "zcard") {
        Some(only_reply(ks.zcard(rest)))
    } else {
        Some(only_reply(simple_string(lit("OK"))))
    }
}

/// A copy of a request's arguments.
pub fn copy_args(args: &Vec<Vec<u8>>) -> (r: Vec<Vec<u8>>)
    ensures
        views(r@) == views(args@),
{
    let mut out: Vec<Vec<u8>> = Vec::new();
    let mut i: usize = 0;
    while i < args.len()
        invariant
            i <= args@.len(),
            views(out@) == views(args@).take(i as int),
        decreases args@.len() - i,
    {
        let ghost prev = out@;
        out.push(copy_bytes(args[i].as_slice()));
        assert(views(out@) =~= views(prev).push(args@[i as int]@));
        assert(views(args@).take(i + 1) =~= views(args@).take(i as int).push(args@[i as int]@));
        i = i + 1;
    }
    assert(views(args@).take(i as int) =~= views(args@));
    out
}

pub open spec fn task_views(t: Seq<Vec<Vec<u8>>>) -> Seq<Seq<Seq<u8>>> {
    t.map_values(|a: Vec<Vec<u8>>| views(a@))
}

/// What running one queued request does: `command_post` for a plain
/// command, a null bulk and nothing else for any other.
pub open spec fn task_post(pre: Keyspace, post: Keyspace, server: ServerInfo, a: Seq<Seq<u8>>, now: u64, o: Outcome) -> bool {
    if a.len() > 0 && plain_command(a[0]) {
        command_post(pre, post, server, a, now, Some(o))
    } else {
        reply_only(pre, post, o, null_bulk())
    }
}

pub open spec fn opt_frame(p: Option<Vec<u8>>) -> Seq<Seq<u8>> {
    match p {
        Some(f) => seq![f@],
        None => Seq::empty(),
    }
}

/// The propagation frames of a run of outcomes, in order.
pub open spec fn all_frames(outs: Seq<Outcome>) -> Seq<Seq<u8>>
    decreases outs.len(),
{
    if outs.len() == 0 {
        Seq::empty()
    } else {
        all_frames(outs.drop_last()) + opt_frame(outs.last().propagate)
    }
}

/// Running `tasks` in order passes through `states` (the first before any
/// task, the last after all), task `i` giving `outs[i]` on `states[i]`.
pub open spec fn tasks_run(states: Seq<Keyspace>, outs: Seq<Outcome>, server: ServerInfo, tasks: Seq<Seq<Seq<u8>>>, now: u64) -> bool {
    &&& states.len() == tasks.len() + 1
    &&& outs.len() == tasks.len()
    &&& forall|i: int| 0 <= i < tasks.len() ==> #[trigger] task_post(states[i], states[i + 1], server, tasks[i], now, outs[i])
}

/// Running `tasks` in order from `pre` ends in `post`, task `i` replying
/// `replies[i]` on the state the earlier tasks left, and `frames` are their
/// propagation frames in order.
pub open spec fn tasks_post(pre: Keyspace, post: Keyspace, server: ServerInfo, tasks: Seq<Seq<Seq<u8>>>, now: u64, replies: Seq<Seq<u8>>, frames: Seq<Seq<u8>>) -> bool {
    exists|states: Seq<Keyspace>, outs: Seq<Outcome>| #[trigger] tasks_run(states, outs, server, tasks, now)
        && states[0] == pre && states.last() == post
        && replies == outs.map_values(|o: Outcome| o.reply@) && frames == all_frames(outs)
}

/// Runs the queue that `EXEC` releases.
pub struct TransactionRunner {
    pub transaction: Transaction,
}

impl TransactionRunner {
    /// Takes over the connection's queue, leaving the connection out of any
    /// transaction with an empty queue.
    pub fn new(connection: &mut Connection) -> (r: Self)
        ensures
            r.transaction.tasks@ == old(connection).transaction.tasks@,
            r.transaction.response@.len() == old(connection).transaction.response@.len(),
            !final(connection).transaction.is_txing,
            final(connection).transaction.tasks@.len() == 0,
            final(connection).transaction.response@.len() == 0,
            final(connection).transaction.job_done_at is None,
            final(connection).id == old(connection).id,
            final(connection).slave_port == old(connection).slave_port,
            final(connection).is_slave_established == old(connection).is_slave_established,
    {
        let mut t = Transaction::new();
        core::mem::swap(&mut t, &mut connection.transaction);
        TransactionRunner { transaction: t }
    }

    /// Runs one queued request: its reply frame and the frame to propagate.
    /// A request that is not a plain command gives a null bulk.
    pub fn exec(&self, ks: &mut Keyspace, server: &ServerInfo, args: &Vec<Vec<u8>>, now: u64) -> (r: Outcome)
        requires
            old(ks).wf(),
        ensures
            final(ks).wf(),
            task_post(*old(ks), *final(ks), *server, views(args@), now, r),
    {
        match run_command(ks, server, args, now) {
            Some(o) => o,
            None => Outcome { reply: null_bulk_string(), propagate: None },
        }
    }

    /// Runs the queue in order, appending each reply frame to `response`
    /// and noting the last index run; returns the frames to propagate.
    pub fn execute_transactions(&mut self, ks: &mut Keyspace, server: &ServerInfo, now: u64) -> (r: Vec<Vec<u8>>)
        requires
            old(ks).wf(),
        ensures
            final(ks).wf(),
            final(self).transaction.tasks@ == old(self).transaction.tasks@,
            final(self).transaction.response@.len() == old(self).transaction.response@.len()
                + old(self).transaction.tasks@.len(),
            final(self).transaction.response@.subrange(0, old(self).transaction.response@.len() as int)
                == old(self).transaction.response@,
            old(self).transaction.tasks@.len() > 0 ==> final(self).transaction.job_done_at == Some(
                (old(self).transaction.tasks@.len() - 1) as usize,
            ),
            old(self).transaction.tasks@.len() == 0 ==> final(self).transaction.job_done_at == old(self).transaction.job_done_at,
            tasks_post(
                *old(ks),
                *final(ks),
                *server,
                task_views(old(self).transaction.tasks@),
                now,
                views(final(self).transaction.response@).skip(old(self).transaction.response@.len() as int),
                views(r@),
            ),
    {
        let mut frames: Vec<Vec<u8>> = Vec::new();
        let mut i: usize = 0;
        let n = self.transaction.tasks.len();
        let ghost mut states: Seq<Keyspace> = seq![*ks];
        let ghost mut outs: Seq<Outcome> = Seq::empty();
        assert(views(self.transaction.response@).skip(old(self).transaction.response@.len() as int) =~= Seq::<Seq<u8>>::empty());
        while i < n
            invariant
                ks.wf(),
                i <= n,
                n == self.transaction.tasks@.len(),
                self.transaction.tasks@ == old(self).transaction.tasks@,
                self.transaction.response@.len() == old(self).transaction.response@.len() + i,
                self.transaction.response@.subrange(0, old(self).transaction.response@.len() as int)
                    == old(self).transaction.response@,
                i > 0 ==> self.transaction.job_done_at == Some((i - 1) as usize),
                i == 0 ==> self.transaction.job_done_at == old(self).transaction.job_done_at,
                tasks_run(states, outs, *server, task_views(old(self).transaction.tasks@).take(i as int), now),
                states[0] == *old(ks),
                states.last() == *ks,
                views(self.transaction.response@).skip(old(self).transaction.response@.len() as int)
                    == outs.map_values(|o: Outcome| o.reply@),
                views(frames@) == all_frames(outs),
            decreases n - i,
        {
            let ghost ts = task_views(old(self).transaction.tasks@);
            let ghost base = old(self).transaction.response@.len() as int;
            let task = copy_args(&self.transaction.tasks[i]);
            let o = self.exec(ks, server, &task, now);
            let ghost og = o;
            let ghost prev = self.transaction.response@;
            self.transaction.response.push(o.reply);
            assert(self.transaction.response@.subrange(0, old(self).transaction.response@.len() as int)
                =~= prev.subrange(0, old(self).transaction.response@.len() as int));
            match o.propagate {
                Some(f) => frames.push(f),
                None => {},
            }
            proof {
                let t1 = ts.take(i + 1);
                let rep1 = views(self.transaction.response@).skip(base);
                assert(t1[i as int] == views(task@));
                let states1 = states.push(*ks);
                let outs1 = outs.push(og);
                assert forall|j: int| 0 <= j < t1.len() implies #[trigger] task_post(states1[j], states1[j + 1], *server, t1[j], now, outs1[j]) by {
                    if j < i {
                        assert(t1[j] == ts.take(i as int)[j]);
                        assert(task_post(states[j], states[j + 1], *server, ts.take(i as int)[j], now, outs[j]));
                    }
                }
                assert(rep1 =~= views(prev).skip(base).push(og.reply@));
                assert(rep1 =~= outs1.map_values(|o: Outcome| o.reply@));
                assert(outs1.drop_last() =~= outs);
                assert(views(frames@) =~= all_frames(outs1));
                states = states1;
                outs = outs1;
            }
            self.transaction.job_done_at = Some(i);
            i = i + 1;
        }
        assert(task_views(old(self).transaction.tasks@).take(n as int) =~= task_views(old(self).transaction.tasks@));
        assert(tasks_run(states, outs, *server, task_views(old(self).transaction.tasks@), now));
        frames
    }
}

/// The connection's identity and replica state are as they were.
pub open spec fn same_identity(c0: Connection, c1: Connection) -> bool {
    c1.id == c0.id && c1.slave_port == c0.slave_port && c1.is_slave_established == c0.is_slave_established
}

/// No frame propagated and nothing left for the server's loops.
pub open spec fn quiet(r: Response) -> bool {
    r.propagate@.len() == 0 && r.effect is Nothing
}

pub open spec fn replies(r: Response, m: Seq<u8>) -> bool {
    r.reply matches Some(x) && x@ == m
}

/// The stream keys of `XREAD`'s pairs.
pub open spec fn pair_keys(s: Seq<(Seq<u8>, Seq<u8>)>) -> Seq<Seq<u8>> {
    s.map_values(|p: (Seq<u8>, Seq<u8>)| p.0)
}

/// Every stream of `XREAD` names a stream (or nothing) and a readable id.
pub open spec fn xread_readable(values: Map<Seq<u8>, ValueView>, s: Seq<(Seq<u8>, Seq<u8>)>) -> bool {
    forall|i: int| 0 <= i < s.len() ==> !holds_non_stream(values, (#[trigger] s[i]).0)
        && resolve_after(values, s[i].0, s[i].1) is Some
}

/// Where `XREAD` reads each stream from, taken when the command arrives.
pub open spec fn xread_starts(values: Map<Seq<u8>, ValueView>, s: Seq<(Seq<u8>, Seq<u8>)>) -> Seq<StreamId> {
    s.map_values(|p: (Seq<u8>, Seq<u8>)| resolve_after(values, p.0, p.1)->0)
}

/// What `XREAD` with arguments `a` answers, or leaves to the server's loop.
pub open spec fn xread_post(values: Map<Seq<u8>, ValueView>, a: Seq<Seq<u8>>, r: Response) -> bool {
    match spec_xread_args(a, 0, None, None) {
        Err((m, _)) => replies(r, error("ERR ".spec_bytes() + m)) && r.effect is Nothing,
        Ok((c, b, s)) => if !xread_readable(values, s) {
            r.reply is Some && r.effect is Nothing
        } else {
            let starts = xread_starts(values, s);
            let fr = xread_frames(values, pair_keys(s), starts, c);
            match b {
                None => r.effect is Nothing && replies(r, if fr.len() == 0 {
                    null_array()
                } else {
                    array_header(fr.len()) + concat(fr)
                }),
                Some(t) => r.reply is None && match r.effect {
                    Effect::BlockRead { keys, afters, count, timeout_ms } => views(keys@) == pair_keys(s)
                        && afters@ == starts && count == c && timeout_ms == t,
                    _ => false,
                },
            }
        },
    }
}

/// What `REPLCONF` does.
pub open spec fn replconf_post(c0: Connection, c1: Connection, a: Seq<Seq<u8>>, r: Response) -> bool {
    if a.len() >= 3 && is_word(a[1], "listening-port") {
        replies(r, simple("OK".spec_bytes())) && r.effect is Nothing && (c1.slave_port matches Some(p)
            && p@ == a[2]) && c1.id == c0.id && c1.is_slave_established == c0.is_slave_established
            && c1.transaction == c0.transaction
    } else if a.len() >= 3 && is_word(a[1], "capa") {
        replies(r, simple("OK".spec_bytes())) && r.effect is Nothing && c1 == c0
    } else if a.len() >= 2 && is_word(a[1], "getack") {
        r.reply is None && r.effect is GetAck && c1 == c0
    } else if a.len() >= 3 && is_word(a[1], "ack") && spec_parse_u64(a[2]) is Some {
        r.reply is None && r.effect == Effect::Ack(spec_parse_u64(a[2])->0) && c1 == c0
    } else {
        replies(r, error("ERR syntax error".spec_bytes())) && r.effect is Nothing && c1 == c0
    }
}

/// What `PSYNC` does.
pub open spec fn psync_post(c0: Connection, c1: Connection, a: Seq<Seq<u8>>, r: Response) -> bool {
    if a.len() < 3 {
        replies(r, error(wrong_args("psync"))) && r.effect is Nothing && c1 == c0
    } else {
        r.reply is None && r.effect is FullResync && c1.id == c0.id && c1.slave_port == c0.slave_port
            && c1.transaction == c0.transaction && c1.is_slave_established == (c0.is_slave_established
            || c0.slave_port is Some)
    }
}

/// What `WAIT` answers.
pub open spec fn wait_post(a: Seq<Seq<u8>>, r: Response) -> bool {
    if a.len() < 3 {
        replies(r, error(wrong_args("wait"))) && r.effect is Nothing
    } else if spec_parse_u64(a[1]) is None {
        replies(r, error("ERR invalid number of replicas".spec_bytes())) && r.effect is Nothing
    } else if spec_parse_u64(a[2]) is None {
        replies(r, error("ERR invalid timeout".spec_bytes())) && r.effect is Nothing
    } else {
        r.reply is None && r.effect == (Effect::Wait {
            numreplicas: spec_parse_u64(a[1])->0,
            timeout_ms: spec_parse_u64(a[2])->0,
        })
    }
}

/// What `BLPOP` answers.
pub open spec fn blpop_post(a: Seq<Seq<u8>>, r: Response) -> bool {
    if a.len() < 3 {
        replies(r, error(wrong_args("blpop"))) && r.effect is Nothing
    } else {
        r.reply is None && match r.effect {
            Effect::BlockPop { key, timeout } => key@ == a[1] && timeout@ == a[2],
            _ => false,
        }
    }
}

/// What `step_other` does with a request that is not a plain command.
pub open spec fn other_post(pre: Keyspace, post: Keyspace, c0: Connection, c1: Connection, a: Seq<Seq<u8>>, r: Response) -> bool {
    let name = a[0];
    &&& post == pre
    &&& r.propagate@.len() == 0
    &&& if is_word(name, "replconf") {
        replconf_post(c0, c1, a, r)
    } else if is_word(name, "psync") {
        psync_post(c0, c1, a, r)
    } else if is_word(name, "wait") {
        c1 == c0 && wait_post(a, r)
    } else if is_word(name, "blpop") {
        c1 == c0 && blpop_post(a, r)
    } else if is_word(name, "xread") {
        c1 == c0 && xread_post(pre.values(), a.skip(1), r)
    } else if is_word(name, "zadd") || is_word(name, "zscore") || is_word(name, "geoadd") || is_word(name, "geopos") {
        c1 == c0 && r.reply is None && r.effect is Scored
    } else {
        c1 == c0 && replies(r, unknown_command()) && r.effect is Nothing
    }
}

/// What `step` does with a request outside the transaction commands,
/// `PING` and the queue: a plain command as `command_post` says, with the
/// connection left as it was.
pub open spec fn plain_post(pre: Keyspace, post: Keyspace, server: ServerInfo, a: Seq<Seq<u8>>, now: u64, r: Response) -> bool {
    exists|o: Outcome| #[trigger] command_post(pre, post, server, a, now, Some(o)) && replies(r, o.reply@)
        && views(r.propagate@) == opt_frame(o.propagate) && r.effect is Nothing
}

/// What `step` does with the request `a` on a connection that was `c0`.
pub open spec fn step_post(pre: Keyspace, post: Keyspace, c0: Connection, c1: Connection, server: ServerInfo, a: Seq<Seq<u8>>, now: u64, r: Response) -> bool {
    let txing = c0.transaction.is_txing;
    if a.len() == 0 {
        replies(r, error("ERR empty command".spec_bytes())) && quiet(r) && post == pre && c1 == c0
    } else if is_word(a[0], "multi") {
        if txing {
            replies(r, error("ERR MULTI calls can not be nested".spec_bytes())) && quiet(r) && post == pre && c1 == c0
        } else {
            &&& replies(r, simple("OK".spec_bytes()))
            &&& quiet(r)
            &&& post == pre
            &&& same_identity(c0, c1)
            &&& c1.transaction.is_txing
            &&& c1.transaction.tasks@.len() == 0
            &&& c1.transaction.response@.len() == 0
            &&& c1.transaction.job_done_at is None
        }
    } else if is_word(a[0], "exec") {
        if !txing {
            replies(r, error("ERR EXEC without MULTI".spec_bytes())) && quiet(r) && post == pre && c1 == c0
        } else {
            &&& r.effect is Nothing
            &&& same_identity(c0, c1)
            &&& !c1.transaction.is_txing
            &&& c1.transaction.tasks@.len() == 0
            &&& c1.transaction.response@.len() == 0
            &&& c1.transaction.job_done_at is None
            &&& exists|rs: Seq<Seq<u8>>| #[trigger] tasks_post(pre, post, server, task_views(c0.transaction.tasks@), now, rs, views(r.propagate@))
                && replies(r, array_header(rs.len()) + concat(rs))
        }
    } else if is_word(a[0], "discard") {
        if !txing {
            replies(r, error("ERR DISCARD without MULTI".spec_bytes())) && quiet(r) && post == pre && c1 == c0
        } else {
            &&& replies(r, simple("OK".spec_bytes()))
            &&& quiet(r)
            &&& post == pre
            &&& same_identity(c0, c1)
            &&& !c1.transaction.is_txing
            &&& c1.transaction.tasks@.len() == 0
            &&& c1.transaction.response@.len() == 0
            &&& c1.transaction.job_done_at is None
        }
    } else if txing {
        &&& replies(r, queued_reply())
        &&& quiet(r)
        &&& post == pre
        &&& same_identity(c0, c1)
        &&& c1.transaction.is_txing
        &&& task_views(c1.transaction.tasks@) == task_views(c0.transaction.tasks@).push(a)
        &&& c1.transaction.response@ == c0.transaction.response@
        &&& c1.transaction.job_done_at == c0.transaction.job_done_at
    } else if is_word(a[0], "ping") {
        replies(r, simple("PONG".spec_bytes())) && quiet(r) && post == pre && c1 == c0
    } else if plain_command(a[0]) {
        c1 == c0 && plain_post(pre, post, server, a, now, r)
    } else {
        other_post(pre, post, c0, c1, a, r)
    }
}

/// `REPLCONF`: notes the replica's port, or asks the loops for an
/// acknowledgement.
fn step_replconf(args: &Vec<Vec<u8>>, conn: &mut Connection) -> (r: Response)
    requires
        args@.len() > 0,
    ensures
        replconf_post(*old(conn), *final(conn), views(args@), r),
        r.propagate@.len() == 0,
{
    if args.len() >= 3 && eq_word(args[1].as_slice(), "listening-port") {
        conn.slave_port = Some(copy_bytes(args[2].as_slice()));
        return Response { reply: Some(simple_string(lit("OK"))), propagate: Vec::new(), effect: Effect::Nothing };
    }
    if args.len() >= 3 && eq_word(args[1].as_slice(), "capa") {
        return Response { reply: Some(simple_string(lit("OK"))), propagate: Vec::new(), effect: Effect::Nothing };
    }
    if args.len() >= 2 && eq_word(args[1].as_slice(), "getack") {
        return Response { reply: None, propagate: Vec::new(), effect: Effect::GetAck };
    }
    if args.len() >= 3 && eq_word(args[1].as_slice(), "ack") {
        match parse_u64(args[2].as_slice()) {
            Some(n) => {
                return Response { reply: None, propagate: Vec::new(), effect: Effect::Ack(n) };
            },
            None => {},
        }
    }
    return Response { reply: Some(error_reply(lit("ERR syntax error"))), propagate: Vec::new(), effect: Effect::Nothing };
}

/// `PSYNC`: marks the connection as a replica when it announced a port.
fn step_psync(args: &Vec<Vec<u8>>, conn: &mut Connection) -> (r: Response)
    requires
        args@.len() > 0,
    ensures
        psync_post(*old(conn), *final(conn), views(args@), r),
        r.propagate@.len() == 0,
{
    if args.len() < 3 {
        return Response { reply: Some(crate::lists::wrong_args_reply("psync")), propagate: Vec::new(), effect: Effect::Nothing };
    }
    if conn.slave_port.is_some() {
        conn.is_slave_established = true;
    }
    return Response { reply: None, propagate: Vec::new(), effect: Effect::FullResync };
}

/// `WAIT numreplicas timeout`.
fn step_wait(args: &Vec<Vec<u8>>) -> (r: Response)
    requires
        args@.len() > 0,
    ensures
        wait_post(views(args@), r),
        r.propagate@.len() == 0,
{
    if args.len() < 3 {
        return Response { reply: Some(crate::lists::wrong_args_reply("wait")), propagate: Vec::new(), effect: Effect::Nothing };
    }
    let numreplicas = match parse_u64(args[1].as_slice()) {
        Some(n) => n,
        None => {
            return Response { reply: Some(error_reply(lit("ERR invalid number of replicas"))), propagate: Vec::new(), effect: Effect::Nothing };
        },
    };
    let timeout_ms = match parse_u64(args[2].as_slice()) {
        Some(t) => t,
        None => {
            return Response { reply: Some(error_reply(lit("ERR invalid timeout"))), propagate: Vec::new(), effect: Effect::Nothing };
        },
    };
    return Response { reply: None, propagate: Vec::new(), effect: Effect::Wait { numreplicas, timeout_ms } };
}

/// `BLPOP key timeout`.
fn step_blpop(args: &Vec<Vec<u8>>) -> (r: Response)
    requires
        args@.len() > 0,
    ensures
        blpop_post(views(args@), r),
        r.propagate@.len() == 0,
{
    if args.len() < 3 {
        return Response { reply: Some(crate::lists::wrong_args_reply("blpop")), propagate: Vec::new(), effect: Effect::Nothing };
    }
    return Response {
        reply: None,
        propagate: Vec::new(),
        effect: Effect::BlockPop { key: copy_bytes(args[1].as_slice()), timeout: copy_bytes(args[2].as_slice()) },
    };
}

/// `XREAD`: one read now, or the streams and starting points for the
/// server's loop when it blocks.
fn step_xread(ks: &Keyspace, args: &Vec<Vec<u8>>) -> (r: Response)
    requires
        ks.wf(),
        args@.len() > 0,
    ensures
        xread_post(ks.values(), views(args@).skip(1), r),
        r.propagate@.len() == 0,
{
    let rest = &args.as_slice()[1..args.len()];
    assert(views(rest@) =~= views(args@).skip(1));
    let (cfg, _, err) = XreadConfig::from_args(rest);
    let ghost s = stream_pairs(cfg.streams@);
    match err {
        Some(m) => {
            let mut text = copy_bytes(lit("ERR "));
            push_all(&mut text, m.as_slice());
            return Response { reply: Some(error_reply(text.as_slice())), propagate: Vec::new(), effect: Effect::Nothing };
        },
        None => {},
    }
    let afters = match ks.xread_afters(&cfg) {
        Ok(a) => a,
        Err(m) => {
            proof {
                let i = choose|i: int| 0 <= i < cfg.streams@.len() && (holds_non_stream(ks.values(), (#[trigger] cfg.streams@[i]).0@)
                    && m@ == error(crate::keyspace::wrongtype_msg()) || resolve_after(ks.values(), cfg.streams@[i].0@, cfg.streams@[i].1@) is None
                    && m@ == error("ERR Invalid stream ID specified as stream command argument".spec_bytes()));
                assert(s[i] == (cfg.streams@[i].0@, cfg.streams@[i].1@));
                assert(!xread_readable(ks.values(), s));
            }
            return Response { reply: Some(m), propagate: Vec::new(), effect: Effect::Nothing };
        },
    };
    proof {
        assert forall|i: int| 0 <= i < s.len() implies !holds_non_stream(ks.values(), (#[trigger] s[i]).0)
            && resolve_after(ks.values(), s[i].0, s[i].1) is Some by {
            assert(s[i] == (cfg.streams@[i].0@, cfg.streams@[i].1@));
            assert(resolve_after(ks.values(), cfg.streams@[i].0@, cfg.streams@[i].1@) == Some(afters@[i]));
        }
        assert(afters@ =~= xread_starts(ks.values(), s)) by {
            assert forall|i: int| 0 <= i < s.len() implies afters@[i] == xread_starts(ks.values(), s)[i] by {
                assert(s[i] == (cfg.streams@[i].0@, cfg.streams@[i].1@));
                assert(resolve_after(ks.values(), cfg.streams@[i].0@, cfg.streams@[i].1@) == Some(afters@[i]));
            }
        }
    }
    let mut keys: Vec<Vec<u8>> = Vec::new();
    let mut i: usize = 0;
    while i < cfg.streams.len()
        invariant
            i <= cfg.streams@.len(),
            s == stream_pairs(cfg.streams@),
            views(keys@) == pair_keys(s).take(i as int),
            afters@.len() == cfg.streams@.len(),
            ks.wf(),
        decreases cfg.streams@.len() - i,
    {
        let ghost prev = keys@;
        keys.push(copy_bytes(cfg.streams[i].0.as_slice()));
        assert(views(keys@) =~= views(prev).push(cfg.streams@[i as int].0@));
        assert(pair_keys(s).take(i + 1) =~= pair_keys(s).take(i as int).push(s[i as int].0));
        i = i + 1;
    }
    assert(pair_keys(s).take(i as int) =~= pair_keys(s));
    return match cfg.block {
        None => {
            let reply = match ks.xread_once(&keys, &afters, cfg.count) {
                Some(r) => r,
                None => null_array_reply(),
            };
            Response { reply: Some(reply), propagate: Vec::new(), effect: Effect::Nothing }
        },
        Some(t) => Response {
            reply: None,
            propagate: Vec::new(),
            effect: Effect::BlockRead { keys, afters, count: cfg.count, timeout_ms: t },
        },
    };
}

/// One request on one connection.
pub struct Runner {
    pub args: Vec<Vec<u8>>,
}

pub open spec fn queued_reply() -> Seq<u8> {
    simple("QUEUED".spec_bytes())
}

impl Runner {
    pub fn new(args: Vec<Vec<u8>>) -> (r: Self)
        ensures
            r.args == args,
    {
        Runner { args }
    }

    /// Carries out the request for `conn`.
    pub fn step(&self, ks: &mut Keyspace, conn: &mut Connection, server: &ServerInfo, now: u64) -> (r: Response)
        requires
            old(ks).wf(),
        ensures
            final(ks).wf(),
            step_post(*old(ks), *final(ks), *old(conn), *final(conn), *server, views(self.args@), now, r),
    {
        let args = &self.args;
        if args.len() == 0 {
            return Response { reply: Some(error_reply(lit("ERR empty command"))), propagate: Vec::new(), effect: Effect::Nothing };
        }
        let name = args[0].as_slice();
        if eq_word(name, "multi") {
            if conn.transaction.is_txing {
                return Response { reply: Some(error_reply(lit("ERR MULTI calls can not be nested"))), propagate: Vec::new(), effect: Effect::Nothing };
            }
            conn.transaction.begin();
            return Response { reply: Some(simple_string(lit("OK"))), propagate: Vec::new(), effect: Effect::Nothing };
        }
        if eq_word(name, "exec") {
            if !conn.transaction.is_txing {
                return Response { reply: Some(error_reply(lit("ERR EXEC without MULTI"))), propagate: Vec::new(), effect: Effect::Nothing };
            }
            let mut runner = TransactionRunner::new(conn);
            runner.transaction.response = Vec::new();
            let frames = runner.execute_transactions(ks, server, now);
            let reply = frames_array_reply(&runner.transaction.response);
            proof {
                assert(views(runner.transaction.response@).skip(0) =~= views(runner.transaction.response@));
            }
            let r = Response { reply: Some(reply), propagate: frames, effect: Effect::Nothing };
            proof {
                let rs = views(runner.transaction.response@);
                assert(views(r.propagate@) == views(frames@));
                assert(replies(r, array_header(rs.len()) + concat(rs)));
                assert(tasks_post(*old(ks), *ks, *server, task_views(old(conn).transaction.tasks@), now, rs, views(r.propagate@)));
            }
            return r;
        }
        if eq_word(name, "discard") {
            if !conn.transaction.is_txing {
                return Response { reply: Some(error_reply(lit("ERR DISCARD without MULTI"))), propagate: Vec::new(), effect: Effect::Nothing };
            }
            conn.transaction.discard();
            return Response { reply: Some(simple_string(lit("OK"))), propagate: Vec::new(), effect: Effect::Nothing };
        }
        if conn.transaction.is_txing {
            let queued = copy_args(args);
            let ghost before = conn.transaction.tasks@;
            conn.transaction.enqueue(queued);
            assert(task_views(conn.transaction.tasks@) =~= task_views(before).push(views(args@)));
            return Response { reply: Some(simple_string(lit("QUEUED"))), propagate: Vec::new(), effect: Effect::Nothing };
        }
        if eq_word(name, "ping") {
            return Response { reply: Some(simple_string(lit("PONG"))), propagate: Vec::new(), effect: Effect::Nothing };
        }
        self.step_other(ks, conn, server, now)
    }

    /// The commands past transactions and `PING`.
    fn step_other(&self, ks: &mut Keyspace, conn: &mut Connection, server: &ServerInfo, now: u64) -> (r: Response)
        requires
            old(ks).wf(),
            self.args@.len() > 0,
        ensures
            final(ks).wf(),
            plain_command(self.args@[0]@) ==> *final(conn) == *old(conn) && plain_post(
                *old(ks),
                *final(ks),
                *server,
                views(self.args@),
                now,
                r,
            ),
            !plain_command(self.args@[0]@) ==> other_post(*old(ks), *final(ks), *old(conn), *final(conn), views(self.args@), r),
    {
        let args = &self.args;
        let name = args[0].as_slice();
        match run_command(ks, server, args, now) {
            Some(o) => {
                let ghost og = o;
                let mut propagate: Vec<Vec<u8>> = Vec::new();
                match o.propagate {
                    Some(f) => propagate.push(f),
                    None => {},
                }
                assert(views(propagate@) =~= opt_frame(og.propagate));
                let r = Response { reply: Some(o.reply), propagate, effect: Effect::Nothing };
                assert(command_post(*old(ks), *ks, *server, views(self.args@), now, Some(og)));
                return r;
            },
            None => {},
        }
        if eq_word(name, "replconf") {
            return step_replconf(args, conn);
        }
        if eq_word(name, "psync") {
            return step_psync(args, conn);
        }
        if eq_word(name, "wait") {
            return step_wait(args);
        }
        if eq_word(name, "blpop") {
            return step_blpop(args);
        }
        if eq_word(name, "xread") {
            return step_xread(ks, args);
        }
        if eq_word(name, "zadd") || eq_word(name, "zscore") || eq_word(name, "geoadd") || eq_word(name, "geopos") {
            return Response { reply: None, propagate: Vec::new(), effect: Effect::Scored };
        }
        Response { reply: Some(error_reply(lit("ERR unknown command"))), propagate: Vec::new(), effect: Effect::Nothing }
    }
}

} // verus!
