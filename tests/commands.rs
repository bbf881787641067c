use kataradb::client::ClientSession;
use kataradb::cmd::command::{is_simple_command, SimpleCommand};
use kataradb::cmd::handler::CommandHandler;
use kataradb::cmd::transaction::{is_transaction_command, TransactionCommand};
use kataradb::io_multiplexer::{action_for, Event, EventAction};
use kataradb::resp::{DataType, RESPParser};
use kataradb::store::{ObjectValue, Store};

fn command(parts: &[&str]) -> DataType {
    DataType::Array(parts.iter().map(|p| DataType::BulkString(p.to_string())).collect())
}

fn wire(parts: &[&str]) -> Vec<u8> {
    RESPParser::new().encode(command(parts))
}

/// Feeds raw bytes to a connection and returns the bytes it answers.
fn serve(handler: &mut CommandHandler, session: &mut ClientSession, store: &mut Store, bytes: &[u8]) -> Vec<u8> {
    session.parser.feed(bytes);
    handler.handle_bulk(session, store).expect("well-formed input")
}

fn run_at(handler: &mut CommandHandler, session: &mut ClientSession, store: &mut Store, parts: &[&str], now: i64) -> Vec<u8> {
    let replies = handler.handle_requests_at(session, store, vec![command(parts)], now);
    RESPParser::new().encode_all(&replies)
}

#[test]
fn ping_replies_pong() {
    let (mut handler, mut session, mut store) = (CommandHandler::new(), ClientSession::new(), Store::new());
    let out = serve(&mut handler, &mut session, &mut store, b"*1\r\n$4\r\nPING\r\n");
    assert_eq!(out, b"+PONG\r\n".to_vec());
}

#[test]
fn set_then_get_in_one_burst() {
    let (mut handler, mut session, mut store) = (CommandHandler::new(), ClientSession::new(), Store::new());
    let out = serve(
        &mut handler,
        &mut session,
        &mut store,
        b"*3\r\n$3\r\nSET\r\n$1\r\nk\r\n$1\r\nv\r\n*2\r\n$3\r\nGET\r\n$1\r\nk\r\n",
    );
    assert_eq!(out, b"+OK\r\n$1\r\nv\r\n".to_vec());
}

#[test]
fn incr_counts_up() {
    let (mut handler, mut session, mut store) = (CommandHandler::new(), ClientSession::new(), Store::new());
    assert_eq!(serve(&mut handler, &mut session, &mut store, &wire(&["SET", "k", "1"])), b"+OK\r\n".to_vec());
    assert_eq!(serve(&mut handler, &mut session, &mut store, &wire(&["INCR", "k"])), b":2\r\n".to_vec());
    assert_eq!(serve(&mut handler, &mut session, &mut store, &wire(&["INCR", "k"])), b":3\r\n".to_vec());
    assert_eq!(serve(&mut handler, &mut session, &mut store, &wire(&["GET", "k"])), b"$1\r\n3\r\n".to_vec());
}

#[test]
fn expired_key_reads_as_missing() {
    let (mut handler, mut session, mut store) = (CommandHandler::new(), ClientSession::new(), Store::new());
    let t = 1_700_000_000_000;
    assert_eq!(run_at(&mut handler, &mut session, &mut store, &["SET", "a", "v", "EX", "1"], t), b"+OK\r\n".to_vec());
    assert_eq!(run_at(&mut handler, &mut session, &mut store, &["TTL", "a"], t), b":1\r\n".to_vec());
    assert_eq!(run_at(&mut handler, &mut session, &mut store, &["TTL", "a"], t + 1100), b":-2\r\n".to_vec());
    assert_eq!(run_at(&mut handler, &mut session, &mut store, &["GET", "a"], t + 1100), b"$0\r\n\r\n".to_vec());
}

#[test]
fn transaction_queues_then_executes() {
    let (mut handler, mut session, mut store) = (CommandHandler::new(), ClientSession::new(), Store::new());
    assert_eq!(serve(&mut handler, &mut session, &mut store, &wire(&["MULTI"])), b"+OK\r\n".to_vec());
    assert_eq!(serve(&mut handler, &mut session, &mut store, &wire(&["SET", "x", "1"])), b"+QUEUED\r\n".to_vec());
    assert_eq!(serve(&mut handler, &mut session, &mut store, &wire(&["SET", "y", "2"])), b"+QUEUED\r\n".to_vec());
    assert_eq!(serve(&mut handler, &mut session, &mut store, &wire(&["EXEC"])), b"*2\r\n+OK\r\n+OK\r\n".to_vec());
    assert_eq!(serve(&mut handler, &mut session, &mut store, &wire(&["GET", "x"])), b"$1\r\n1\r\n".to_vec());
}

#[test]
fn del_counts_present_keys() {
    let (mut handler, mut session, mut store) = (CommandHandler::new(), ClientSession::new(), Store::new());
    serve(&mut handler, &mut session, &mut store, &wire(&["SET", "b", "1"]));
    assert_eq!(serve(&mut handler, &mut session, &mut store, &wire(&["DEL", "a", "b", "c"])), b":1\r\n".to_vec());
    assert_eq!(serve(&mut handler, &mut session, &mut store, &wire(&["DEL", "b", "b"])), b":0\r\n".to_vec());
}

#[test]
fn queued_commands_are_not_seen_before_exec() {
    let (mut handler, mut session, mut store) = (CommandHandler::new(), ClientSession::new(), Store::new());
    let mut other = ClientSession::new();
    serve(&mut handler, &mut session, &mut store, &wire(&["MULTI"]));
    serve(&mut handler, &mut session, &mut store, &wire(&["SET", "x", "1"]));
    assert_eq!(session.cmd_queue.len(), 1);
    assert_eq!(serve(&mut handler, &mut other, &mut store, &wire(&["GET", "x"])), b"$0\r\n\r\n".to_vec());
    serve(&mut handler, &mut session, &mut store, &wire(&["EXEC"]));
    assert!(!session.is_transaction_active);
    assert!(session.cmd_queue.is_empty());
    assert_eq!(serve(&mut handler, &mut other, &mut store, &wire(&["GET", "x"])), b"$1\r\n1\r\n".to_vec());
}

#[test]
fn discard_and_nested_multi() {
    let (mut handler, mut session, mut store) = (CommandHandler::new(), ClientSession::new(), Store::new());
    serve(&mut handler, &mut session, &mut store, &wire(&["MULTI"]));
    assert_eq!(
        serve(&mut handler, &mut session, &mut store, &wire(&["MULTI"])),
        b"-ERR MULTI calls can not be nested\r\n".to_vec()
    );
    serve(&mut handler, &mut session, &mut store, &wire(&["SET", "x", "1"]));
    assert_eq!(serve(&mut handler, &mut session, &mut store, &wire(&["DISCARD"])), b"+OK\r\n".to_vec());
    assert!(!session.is_transaction_active);
    assert_eq!(serve(&mut handler, &mut session, &mut store, &wire(&["GET", "x"])), b"$0\r\n\r\n".to_vec());
    assert_eq!(serve(&mut handler, &mut session, &mut store, &wire(&["EXEC"])), b"*0\r\n".to_vec());
}

#[test]
fn replies_follow_request_order() {
    let (mut handler, mut session, mut store) = (CommandHandler::new(), ClientSession::new(), Store::new());
    let requests = vec![
        command(&["SET", "n", "10"]),
        DataType::Integer(5),
        command(&["INCR", "n"]),
        command(&["NOPE"]),
        command(&["GET", "n"]),
    ];
    let replies = handler.handle_requests_at(&mut session, &mut store, requests, 0);
    assert_eq!(
        replies,
        vec![
            DataType::SimpleString("OK".into()),
            DataType::Error("Not supported command".into()),
            DataType::Integer(11),
            DataType::SimpleString("OK".into()),
            DataType::BulkString("11".into()),
        ]
    );
}

#[test]
fn argument_errors() {
    let (mut handler, mut session, mut store) = (CommandHandler::new(), ClientSession::new(), Store::new());
    let bad = DataType::Array(vec![DataType::BulkString("GET".into()), DataType::Integer(1)]);
    assert_eq!(handler.execute_cmd(&mut store, bad), DataType::Error("Wrong argument type".into()));
    assert_eq!(handler.execute_cmd(&mut store, DataType::Array(vec![])), DataType::Error("Not supported command".into()));
    let cases: Vec<(&[&str], &[u8])> = vec![
        (&["SET", "k"], b"-ERR wrong number of arguments for 'set' command\r\n"),
        (&["SET", "k", "v", "PX", "1"], b"-ERR syntax error\r\n"),
        (&["SET", "k", "v", "EX"], b"-ERR syntax error\r\n"),
        (&["SET", "k", "v", "EX", "soon"], b"-ERR value is not an integer or out of range\r\n"),
        (&["SET", "k", "v", "EX", "9223372036854775807"], b"-ERR invalid expire time in 'set' command\r\n"),
        (&["GET"], b"-ERR wrong number of arguments for 'get' command\r\n"),
        (&["TTL"], b"-ERR wrong number of arguments for 'ttl' command\r\n"),
        (&["INCR"], b"-ERR wrong number of arguments for 'incr' command\r\n"),
        (&["EXPIRE", "k"], b"-Wrong number of arguments\r\n"),
    ];
    for (parts, expected) in cases {
        assert_eq!(run_at(&mut handler, &mut session, &mut store, parts, 0), expected.to_vec(), "{:?}", parts);
    }
    assert!(store.get_data().is_empty());
}

#[test]
fn incr_rejects_non_integers_and_overflow() {
    let (mut handler, mut session, mut store) = (CommandHandler::new(), ClientSession::new(), Store::new());
    run_at(&mut handler, &mut session, &mut store, &["SET", "s", "abc"], 0);
    run_at(&mut handler, &mut session, &mut store, &["SET", "m", "9223372036854775807"], 0);
    let err = b"-ERR value is not an integer or out of range\r\n".to_vec();
    assert_eq!(run_at(&mut handler, &mut session, &mut store, &["INCR", "s"], 0), err);
    assert_eq!(run_at(&mut handler, &mut session, &mut store, &["INCR", "m"], 0), err);
    assert_eq!(run_at(&mut handler, &mut session, &mut store, &["INCR", "new"], 0), b":1\r\n".to_vec());
    run_at(&mut handler, &mut session, &mut store, &["SET", "neg", "-5"], 0);
    assert_eq!(run_at(&mut handler, &mut session, &mut store, &["INCR", "neg"], 0), b":-4\r\n".to_vec());
}

#[test]
fn expire_and_ttl() {
    let mut store = Store::with_eviction(None);
    let (mut handler, mut session) = (CommandHandler::new(), ClientSession::new());
    run_at(&mut handler, &mut session, &mut store, &["SET", "k", "v"], 0);
    assert_eq!(run_at(&mut handler, &mut session, &mut store, &["TTL", "k"], 0), b":-1\r\n".to_vec());
    assert_eq!(run_at(&mut handler, &mut session, &mut store, &["TTL", "missing"], 0), b":-2\r\n".to_vec());
    assert_eq!(run_at(&mut handler, &mut session, &mut store, &["EXPIRE", "missing", "5"], 0), b":0\r\n".to_vec());
    assert_eq!(run_at(&mut handler, &mut session, &mut store, &["EXPIRE", "k", "x"], 0), b":0\r\n".to_vec());
    assert_eq!(run_at(&mut handler, &mut session, &mut store, &["EXPIRE", "k", "5"], 0), b":1\r\n".to_vec());
    assert_eq!(run_at(&mut handler, &mut session, &mut store, &["TTL", "k"], 1500), b":3\r\n".to_vec());
    assert_eq!(store.get_expiry("k"), Some(5000));
    assert_eq!(run_at(&mut handler, &mut session, &mut store, &["GET", "k"], 4999), b"$1\r\nv\r\n".to_vec());
    assert_eq!(run_at(&mut handler, &mut session, &mut store, &["GET", "k"], 5000), b"$0\r\n\r\n".to_vec());
}

#[test]
fn set_picks_the_string_encoding() {
    let mut store = Store::with_eviction(None);
    let (mut handler, mut session) = (CommandHandler::new(), ClientSession::new());
    run_at(&mut handler, &mut session, &mut store, &["SET", "i", "42"], 0);
    run_at(&mut handler, &mut session, &mut store, &["SET", "s", "hello"], 0);
    let i = store.get_at("i", 0).unwrap();
    let s = store.get_at("s", 0).unwrap();
    assert_eq!(i.type_encoding, 1);
    assert_eq!(s.type_encoding, 8);
    assert_eq!(*s.value, ObjectValue::String("hello".into()));
}

#[test]
fn info_reports_the_key_count() {
    let (mut handler, mut session, mut store) = (CommandHandler::new(), ClientSession::new(), Store::new());
    run_at(&mut handler, &mut session, &mut store, &["SET", "a", "1"], 0);
    run_at(&mut handler, &mut session, &mut store, &["SET", "b", "2"], 0);
    let replies = handler.handle_requests_at(&mut session, &mut store, vec![command(&["INFO"])], 0);
    assert_eq!(replies, vec![DataType::BulkString("# Keyspace\r\ndb0:keys=2\r\n".into())]);
}

#[test]
fn bgrewriteaof_yields_replayable_set_commands() {
    let (mut handler, mut session, mut store) = (CommandHandler::new(), ClientSession::new(), Store::new());
    run_at(&mut handler, &mut session, &mut store, &["SET", "a", "1"], 0);
    run_at(&mut handler, &mut session, &mut store, &["SET", "b", "two"], 0);
    assert!(handler.take_aof().is_none());
    assert_eq!(run_at(&mut handler, &mut session, &mut store, &["BGREWRITEAOF"], 0), b"+OK\r\n".to_vec());
    let aof = handler.take_aof().expect("a rewrite");
    assert!(handler.take_aof().is_none());
    let mut expected = wire(&["SET", "a", "1"]);
    expected.extend(wire(&["SET", "b", "two"]));
    assert_eq!(aof, expected);

    let mut replay_store = Store::new();
    let mut replay = ClientSession::new();
    let out = serve(&mut handler, &mut replay, &mut replay_store, &aof);
    assert_eq!(out, b"+OK\r\n+OK\r\n".to_vec());
    assert_eq!(replay_store.get_data().len(), 2);
}

#[test]
fn unknown_commands_reply_ok() {
    let (mut handler, mut session, mut store) = (CommandHandler::new(), ClientSession::new(), Store::new());
    assert_eq!(serve(&mut handler, &mut session, &mut store, &wire(&["HELLO"])), b"+OK\r\n".to_vec());
    assert_eq!(serve(&mut handler, &mut session, &mut store, b"*1\r\n+PING\r\n"), b"+PONG\r\n".to_vec());
}

#[test]
fn partial_requests_wait_for_the_rest() {
    let (mut handler, mut session, mut store) = (CommandHandler::new(), ClientSession::new(), Store::new());
    assert_eq!(serve(&mut handler, &mut session, &mut store, b"*1\r\n$4\r\nPI"), Vec::<u8>::new());
    assert_eq!(serve(&mut handler, &mut session, &mut store, b"NG\r\n"), b"+PONG\r\n".to_vec());
    session.parser.feed(b"!bad\r\n");
    assert!(handler.handle_bulk(&mut session, &mut store).is_err());
}

#[test]
fn command_names() {
    assert_eq!(is_simple_command(&DataType::BulkString("EXPIRE".into())), Some(SimpleCommand::EXPIRE));
    assert_eq!(is_simple_command(&DataType::SimpleString("INFO".into())), Some(SimpleCommand::INFO));
    assert_eq!(is_simple_command(&DataType::BulkString("ping".into())), None);
    assert_eq!(is_simple_command(&DataType::Integer(1)), None);
    assert_eq!(is_transaction_command(&DataType::BulkString("EXEC".into())), Some(TransactionCommand::EXEC));
    assert_eq!(is_transaction_command(&DataType::SimpleString("EXEC".into())), None);
}

#[test]
fn event_actions() {
    let listener = 3;
    assert_eq!(action_for(&Event::new(3, -1), listener), EventAction::Accept);
    let mut e = Event::new(7, -1);
    assert_eq!(action_for(&e, listener), EventAction::Ignore);
    e.has_data = true;
    assert_eq!(action_for(&e, listener), EventAction::Serve { close: false });
    e.connection_closed = true;
    assert_eq!(action_for(&e, listener), EventAction::Serve { close: true });
    e.has_data = false;
    assert_eq!(action_for(&e, listener), EventAction::Close);
}

#[test]
fn bgrewriteaof_skips_expired_keys() {
    let (mut handler, mut session, mut store) = (CommandHandler::new(), ClientSession::new(), Store::new());
    run_at(&mut handler, &mut session, &mut store, &["SET", "gone", "1", "EX", "1"], 0);
    run_at(&mut handler, &mut session, &mut store, &["SET", "kept", "2"], 0);
    run_at(&mut handler, &mut session, &mut store, &["BGREWRITEAOF"], 2000);
    assert_eq!(handler.take_aof(), Some(wire(&["SET", "kept", "2"])));
}
