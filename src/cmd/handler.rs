//! The dispatcher: routes requests to the commands, queues them inside a
//! transaction, and answers a pipelined batch in order.

use vstd::prelude::*;
use crate::client::ClientSession;
use crate::cmd::cmd_bgrewriteaof::{aof_commands, bgrewriteaof_command_effect, BgRewriteAofCommand};
use crate::cmd::cmd_del::{del_command_effect, DelCommand};
use crate::cmd::cmd_expire::{expire_command_effect, ExpireCommand};
use crate::cmd::cmd_get::{get_command_effect, GetCommand};
use crate::cmd::cmd_incr::{incr_command_effect, IncrCommand};
use crate::cmd::cmd_info::{info_command_effect, InfoCommand};
use crate::cmd::cmd_ping::{ping_command_effect, PingCommand};
use crate::cmd::cmd_set::{set_command_effect, SetCommand};
use crate::cmd::cmd_ttl::{ttl_command_effect, TTLCommand};
use crate::cmd::command::{is_simple_command, simple_command_of, SimpleCommand};
use crate::cmd::transaction::{is_transaction_command, transaction_command_of, TransactionCommand};
use crate::resp::{
    encodings, error_of, error_reply, parse_frames, simple_of, simple_reply, views, DataType,
    DecodeError, Frames,
};
use crate::store::{now_millis, Store};

verus! {

/// Every element after the first is a bulk string.
pub open spec fn bulk_args(items: Seq<DataType>) -> bool {
    forall|i: int| 1 <= i < items.len() ==> (#[trigger] items[i]) is BulkString
}

/// A request that names a command: a non-empty array.
pub open spec fn is_request(req: DataType) -> bool {
    req is Array && req->Array_0@.len() > 0
}

/// The arguments of a request: its elements after the first, as strings.
pub open spec fn request_args(items: Seq<DataType>) -> Seq<String> {
    Seq::new((items.len() - 1) as nat, |i: int| items[i + 1]->BulkString_0)
}

/// What executing one request outside a transaction at `now_ms` does:
/// malformed requests and unknown commands leave the keyspace alone; a
/// registered command does what that command does with the arguments.
pub open spec fn command_effect(s0: Store, req: DataType, now_ms: i64, resp: DataType, s1: Store) -> bool {
    &&& s1.wf()
    &&& is_request(req) && bulk_args(req->Array_0@) ==> {
        let args = request_args(req->Array_0@);
        match simple_command_of(req->Array_0@[0]) {
            Some(SimpleCommand::PING) => ping_command_effect(args, s0, s1, now_ms, resp@),
            Some(SimpleCommand::SET) => set_command_effect(args, s0, s1, now_ms, resp@),
            Some(SimpleCommand::GET) => get_command_effect(args, s0, s1, now_ms, resp@),
            Some(SimpleCommand::TTL) => ttl_command_effect(args, s0, s1, now_ms, resp@),
            Some(SimpleCommand::DEL) => del_command_effect(args, s0, s1, now_ms, resp@),
            Some(SimpleCommand::EXPIRE) => expire_command_effect(args, s0, s1, now_ms, resp@),
            Some(SimpleCommand::INCR) => incr_command_effect(args, s0, s1, now_ms, resp@),
            Some(SimpleCommand::INFO) => info_command_effect(args, s0, s1, now_ms, resp@),
            Some(SimpleCommand::BGREWRITEAOF) => bgrewriteaof_command_effect(
                args,
                s0,
                s1,
                now_ms,
                resp@,
            ),
            None => true,
        }
    }
    &&& !is_request(req) ==> resp@ == error_of("Not supported command"@) && s1 == s0
    &&& is_request(req) && simple_command_of(req->Array_0@[0]) is None ==> resp@ == simple_of(
        "OK"@,
    ) && s1 == s0
    &&& is_request(req) && simple_command_of(req->Array_0@[0]) is Some && !bulk_args(
        req->Array_0@,
    ) ==> resp@ == error_of("Wrong argument type"@) && s1 == s0
}

/// Executing `queue` in order from `store0` gives `results` and ends in `store1`.
pub open spec fn executed_in_order(
    store0: Store,
    queue: Seq<DataType>,
    now_ms: i64,
    results: Seq<DataType>,
    store1: Store,
) -> bool {
    exists|stores: Seq<Store>|
        stores.len() == queue.len() + 1 && results.len() == queue.len() && stores[0] == store0
            && stores.last() == store1 && forall|i: int|
            0 <= i < queue.len() ==> #[trigger] command_effect(
                stores[i],
                queue[i],
                now_ms,
                results[i],
                stores[i + 1],
            )
}

/// Handling `requests` in order from a keyspace and session gives
/// `responses`, one per request, and ends in `store1` and `session1`.
pub open spec fn handled_in_order(
    store0: Store,
    session0: ClientSession,
    requests: Seq<DataType>,
    now_ms: i64,
    responses: Seq<DataType>,
    store1: Store,
    session1: ClientSession,
) -> bool {
    exists|stores: Seq<Store>, sessions: Seq<ClientSession>|
        stores.len() == requests.len() + 1 && sessions.len() == requests.len() + 1
            && responses.len() == requests.len() && stores[0] == store0 && sessions[0] == session0
            && stores.last() == store1 && sessions.last() == session1 && forall|i: int|
            0 <= i < requests.len() ==> #[trigger] request_effect(
                stores[i],
                sessions[i],
                requests[i],
                now_ms,
                responses[i],
                stores[i + 1],
                sessions[i + 1],
            )
}

/// What handling one request of a connection does.
pub open spec fn request_effect(
    store0: Store,
    session0: ClientSession,
    req: DataType,
    now_ms: i64,
    resp: DataType,
    store1: Store,
    session1: ClientSession,
) -> bool {
    &&& store1.wf()
    &&& session1.parser == session0.parser
    &&& !is_request(req) ==> resp@ == error_of("Not supported command"@) && store1 == store0
        && session1 == session0
    &&& is_request(req) ==> match transaction_command_of(req->Array_0@[0]) {
        Some(TransactionCommand::MULTI) => if session0.is_transaction_active {
            resp@ == error_of("ERR MULTI calls can not be nested"@) && store1 == store0 && session1
                == session0
        } else {
            resp@ == simple_of("OK"@) && store1 == store0 && session1.is_transaction_active
                && session1.cmd_queue == session0.cmd_queue
        },
        Some(TransactionCommand::EXEC) => resp is Array && executed_in_order(
            store0,
            session0.cmd_queue@,
            now_ms,
            resp->Array_0@,
            store1,
        ) && !session1.is_transaction_active && session1.cmd_queue@.len() == 0,
        Some(TransactionCommand::DISCARD) => resp@ == simple_of("OK"@) && store1 == store0
            && !session1.is_transaction_active && session1.cmd_queue@.len() == 0,
        None => if session0.is_transaction_active {
            resp@ == simple_of("QUEUED"@) && store1 == store0 && session1.is_transaction_active
                && session1.cmd_queue@ == session0.cmd_queue@.push(req)
        } else {
            command_effect(store0, req, now_ms, resp, store1) && session1 == session0
        },
    }
}

/// What answering the buffered requests of a connection at `now_ms` does:
/// a decoding error leaves everything as it was; otherwise every complete
/// request is taken from the buffer and handled in order, and the reply is
/// the wire form of the responses, in order.
pub open spec fn bulk_effect(
    store0: Store,
    session0: ClientSession,
    now_ms: i64,
    r: Result<Vec<u8>, DecodeError>,
    store1: Store,
    session1: ClientSession,
) -> bool {
    match parse_frames(session0.parser@, 0) {
        Frames::Failed(x) => r == Err::<Vec<u8>, DecodeError>(x) && store1 == store0
            && session1.parser@ == session0.parser@
            && session1.is_transaction_active == session0.is_transaction_active
            && session1.cmd_queue == session0.cmd_queue,
        Frames::Values(vs, end) => r is Ok && session1.parser@ == session0.parser@.subrange(end, session0.parser@.len() as int) && exists|
            decoded: ClientSession,
            requests: Seq<DataType>,
            responses: Seq<DataType>,
        |
            decoded.is_transaction_active == session0.is_transaction_active
                && decoded.cmd_queue == session0.cmd_queue && views(requests) == vs
                && handled_in_order(
                store0,
                decoded,
                requests,
                now_ms,
                responses,
                store1,
                session1,
            ) && r->Ok_0@ == encodings(views(responses)),
    }
}

/// Handling requests never touches the decoder of the session.
proof fn lemma_parser_kept(
    sessions: Seq<ClientSession>,
    requests: Seq<DataType>,
    now_ms: i64,
    responses: Seq<DataType>,
    stores: Seq<Store>,
)
    requires
        sessions.len() == requests.len() + 1,
        stores.len() == requests.len() + 1,
        responses.len() == requests.len(),
        forall|i: int|
            0 <= i < requests.len() ==> #[trigger] request_effect(
                stores[i],
                sessions[i],
                requests[i],
                now_ms,
                responses[i],
                stores[i + 1],
                sessions[i + 1],
            ),
    ensures
        forall|i: int| 0 <= i < sessions.len() ==> #[trigger] sessions[i].parser == sessions[0].parser,
{
    assert forall|i: int| 0 <= i < sessions.len() implies #[trigger] sessions[i].parser
        == sessions[0].parser by {
        lemma_parser_kept_upto(sessions, requests, now_ms, responses, stores, i);
    }
}

proof fn lemma_parser_kept_upto(
    sessions: Seq<ClientSession>,
    requests: Seq<DataType>,
    now_ms: i64,
    responses: Seq<DataType>,
    stores: Seq<Store>,
    i: int,
)
    requires
        sessions.len() == requests.len() + 1,
        stores.len() == requests.len() + 1,
        responses.len() == requests.len(),
        0 <= i < sessions.len(),
        forall|j: int|
            0 <= j < requests.len() ==> #[trigger] request_effect(
                stores[j],
                sessions[j],
                requests[j],
                now_ms,
                responses[j],
                stores[j + 1],
                sessions[j + 1],
            ),
    ensures
        sessions[i].parser == sessions[0].parser,
    decreases i,
{
    if i > 0 {
        lemma_parser_kept_upto(sessions, requests, now_ms, responses, stores, i - 1);
        let j = i - 1;
        assert(request_effect(
            stores[j],
            sessions[j],
            requests[j],
            now_ms,
            responses[j],
            stores[j + 1],
            sessions[j + 1],
        ));
        assert(j + 1 == i);
    }
}

pub struct CommandHandler {
    pending_aof: Option<Vec<u8>>,
}

impl CommandHandler {
    pub fn new() -> (r: Self)
        ensures
            r.pending_aof() is None,
    {
        CommandHandler { pending_aof: None }
    }

    /// The append-only file that the last `BGREWRITEAOF` produced, not yet taken.
    pub closed spec fn pending_aof(&self) -> Option<Seq<u8>> {
        match self.pending_aof {
            Some(v) => Some(v@),
            None => None,
        }
    }

    /// Hands over the append-only file to write, if a rewrite produced one.
    pub fn take_aof(&mut self) -> (r: Option<Vec<u8>>)
        ensures
            final(self).pending_aof() is None,
            match r {
                Some(v) => old(self).pending_aof() == Some(v@),
                None => old(self).pending_aof() is None,
            },
    {
        self.pending_aof.take()
    }

    /// The arguments of a request: every element after the first, which must be bulk strings.
    fn extract_args(&self, data: &Vec<DataType>) -> (r: Result<Vec<String>, DataType>)
        requires
            data@.len() > 0,
        ensures
            r is Ok <==> bulk_args(data@),
            r is Ok ==> r->Ok_0@ == request_args(data@),
            r is Err ==> r->Err_0@ == error_of("Wrong argument type"@),
    {
        let mut result: Vec<String> = Vec::new();
        let mut i: usize = 1;
        while i < data.len()
            invariant
                1 <= i <= data@.len(),
                forall|j: int| 1 <= j < i ==> (#[trigger] data@[j]) is BulkString,
                result@ == Seq::new((i - 1) as nat, |j: int| data@[j + 1]->BulkString_0),
            decreases data@.len() - i,
        {
            match &data[i] {
                DataType::BulkString(value) => {
                    result.push(value.clone());
                    assert(result@ =~= Seq::new(i as nat, |j: int| data@[j + 1]->BulkString_0));
                },
                _ => {
                    return Err(error_reply("Wrong argument type"));
                },
            }
            i += 1;
        }
        assert(result@ =~= request_args(data@));
        Ok(result)
    }

    /// Executes a request outside a transaction at `now_ms`.
    pub fn execute_cmd_at(&mut self, store: &mut Store, request: DataType, now_ms: i64) -> (r: DataType)
        requires
            old(store).wf(),
        ensures
            command_effect(*old(store), request, now_ms, r, *final(store)),
            is_request(request) && bulk_args(request->Array_0@) && simple_command_of(
                request->Array_0@[0],
            ) == Some(SimpleCommand::BGREWRITEAOF) ==> final(self).pending_aof() == Some(
                encodings(aof_commands(old(store).entries(), old(store).expirations(), now_ms)),
            ),
            !(is_request(request) && bulk_args(request->Array_0@) && simple_command_of(
                request->Array_0@[0],
            ) == Some(SimpleCommand::BGREWRITEAOF)) ==> final(self).pending_aof() == old(self).pending_aof(),
    {
        match &request {
            DataType::Array(data) => {
                if data.len() == 0 {
                    return error_reply("Not supported command");
                }
                match is_simple_command(&data[0]) {
                    None => simple_reply("OK"),
                    Some(command) => match self.extract_args(data) {
                        Err(e) => e,
                        Ok(args) => match command {
                            SimpleCommand::PING => PingCommand.execute(&args, store, now_ms),
                            SimpleCommand::SET => SetCommand.execute(&args, store, now_ms),
                            SimpleCommand::GET => GetCommand.execute(&args, store, now_ms),
                            SimpleCommand::TTL => TTLCommand.execute(&args, store, now_ms),
                            SimpleCommand::DEL => DelCommand.execute(&args, store, now_ms),
                            SimpleCommand::EXPIRE => ExpireCommand.execute(&args, store, now_ms),
                            SimpleCommand::INCR => IncrCommand.execute(&args, store, now_ms),
                            SimpleCommand::INFO => InfoCommand.execute(&args, store, now_ms),
                            SimpleCommand::BGREWRITEAOF => {
                                let (reply, aof) = BgRewriteAofCommand.execute(&args, store, now_ms);
                                self.pending_aof = Some(aof);
                                reply
                            },
                        },
                    },
                }
            },
            _ => error_reply("Not supported command"),
        }
    }

    /// Executes a request outside a transaction now.
    pub fn execute_cmd(&mut self, store: &mut Store, request: DataType) -> (r: DataType)
        requires
            old(store).wf(),
        ensures
            exists|now_ms: i64| command_effect(*old(store), request, now_ms, r, *final(store)),
    {
        let now_ms = now_millis();
        self.execute_cmd_at(store, request, now_ms)
    }

    fn execute_transaction_command(
        &mut self,
        cmd: TransactionCommand,
        session: &mut ClientSession,
        store: &mut Store,
        now_ms: i64,
    ) -> (r: DataType)
        requires
            old(store).wf(),
        ensures
            final(store).wf(),
            final(session).parser == old(session).parser,
            match cmd {
                TransactionCommand::MULTI => if old(session).is_transaction_active {
                    r@ == error_of("ERR MULTI calls can not be nested"@) && *final(store) == *old(store) && *final(session) == *old(session)
                } else {
                    r@ == simple_of("OK"@) && *final(store) == *old(store)
                        && final(session).is_transaction_active && final(session).cmd_queue == old(session).cmd_queue
                },
                TransactionCommand::EXEC => r is Array && executed_in_order(
                    *old(store),
                    old(session).cmd_queue@,
                    now_ms,
                    r->Array_0@,
                    *final(store),
                ) && !final(session).is_transaction_active && final(session).cmd_queue@.len() == 0,
                TransactionCommand::DISCARD => r@ == simple_of("OK"@) && *final(store) == *old(store) && !final(session).is_transaction_active && final(session).cmd_queue@.len() == 0,
            },
    {
        match cmd {
            TransactionCommand::MULTI => {
                if session.is_transaction_active {
                    return error_reply("ERR MULTI calls can not be nested");
                }
                session.is_transaction_active = true;
                simple_reply("OK")
            },
            TransactionCommand::EXEC => {
                let mut queued: Vec<DataType> = Vec::new();
                core::mem::swap(&mut queued, &mut session.cmd_queue);
                let ghost all = queued@;
                let ghost mut stores: Seq<Store> = seq![*store];
                let mut results: Vec<DataType> = Vec::new();
                while queued.len() > 0
                    invariant
                        store.wf(),
                        results@.len() + queued@.len() == all.len(),
                        queued@ == all.subrange(results@.len() as int, all.len() as int),
                        stores.len() == results@.len() + 1,
                        stores[0] == *old(store),
                        stores.last() == *store,
                        forall|i: int|
                            0 <= i < results@.len() ==> #[trigger] command_effect(
                                stores[i],
                                all[i],
                                now_ms,
                                results@[i],
                                stores[i + 1],
                            ),
                    decreases queued@.len(),
                {
                    let cmd = queued.remove(0);
                    assert(cmd == all[results@.len() as int]);
                    let result = self.execute_cmd_at(store, cmd, now_ms);
                    proof {
                        stores = stores.push(*store);
                    }
                    results.push(result);
                }
                assert(executed_in_order(*old(store), all, now_ms, results@, *store));
                session.is_transaction_active = false;
                DataType::Array(results)
            },
            TransactionCommand::DISCARD => {
                session.cmd_queue.clear();
                session.is_transaction_active = false;
                simple_reply("OK")
            },
        }
    }

    /// Handles one request of a connection at `now_ms`: a transaction verb
    /// drives the transaction; inside a transaction any other request is
    /// queued, not executed; outside one it is executed.
    pub fn handle_request_at(
        &mut self,
        session: &mut ClientSession,
        store: &mut Store,
        request: DataType,
        now_ms: i64,
    ) -> (r: DataType)
        requires
            old(store).wf(),
        ensures
            request_effect(*old(store), *old(session), request, now_ms, r, *final(store), *final(session)),
    {
        let first = match &request {
            DataType::Array(data) => {
                if data.len() == 0 {
                    return error_reply("Not supported command");
                }
                is_transaction_command(&data[0])
            },
            _ => {
                return error_reply("Not supported command");
            },
        };
        match first {
            Some(transaction_cmd) => {
                self.execute_transaction_command(transaction_cmd, session, store, now_ms)
            },
            None => {
                if session.is_transaction_active {
                    session.cmd_queue.push(request);
                    simple_reply("QUEUED")
                } else {
                    self.execute_cmd_at(store, request, now_ms)
                }
            },
        }
    }

    /// Handles a pipelined batch at `now_ms`: one response per request, in
    /// order, each the response to its request in the state that the requests
    /// before it left.
    pub fn handle_requests_at(
        &mut self,
        session: &mut ClientSession,
        store: &mut Store,
        requests: Vec<DataType>,
        now_ms: i64,
    ) -> (r: Vec<DataType>)
        requires
            old(store).wf(),
        ensures
            final(store).wf(),
            handled_in_order(
                *old(store),
                *old(session),
                requests@,
                now_ms,
                r@,
                *final(store),
                *final(session),
            ),
    {
        let ghost all = requests@;
        let total = requests.len();
        let ghost mut stores: Seq<Store> = seq![*store];
        let ghost mut sessions: Seq<ClientSession> = seq![*session];
        let mut pending = requests;
        let mut results: Vec<DataType> = Vec::new();
        let mut i: usize = 0;
        while pending.len() > 0
            invariant
                store.wf(),
                i == results@.len(),
                i + pending@.len() == all.len(),
                total == all.len(),
                pending@ == all.subrange(i as int, all.len() as int),
                stores.len() == i + 1,
                sessions.len() == i + 1,
                stores[0] == *old(store),
                sessions[0] == *old(session),
                stores.last() == *store,
                sessions.last() == *session,
                forall|j: int|
                    0 <= j < i ==> #[trigger] request_effect(
                        stores[j],
                        sessions[j],
                        all[j],
                        now_ms,
                        results@[j],
                        stores[j + 1],
                        sessions[j + 1],
                    ),
            decreases pending@.len(),
        {
            let request = pending.remove(0);
            assert(request == all[i as int]);
            let response = self.handle_request_at(session, store, request, now_ms);
            proof {
                stores = stores.push(*store);
                sessions = sessions.push(*session);
            }
            results.push(response);
            i += 1;
        }
        assert(all =~= requests@);
        assert(handled_in_order(*old(store), *old(session), all, now_ms, results@, *store, *session));
        results
    }

    /// Decodes every complete request buffered in the session and answers
    /// them at `now_ms`, in order, as one burst of bytes to send. A decoding
    /// error means the connection is out of step and must be closed.
    pub fn handle_bulk_at(&mut self, session: &mut ClientSession, store: &mut Store, now_ms: i64) -> (r: Result<Vec<u8>, DecodeError>)
        requires
            old(store).wf(),
        ensures
            final(store).wf(),
            bulk_effect(*old(store), *old(session), now_ms, r, *final(store), *final(session)),
    {
        let requests = match session.parser.decode_next_bulk() {
            Ok(requests) => requests,
            Err(e) => {
                return Err(e);
            },
        };
        let ghost decoded = *session;
        let ghost request_seq = requests@;
        let responses = self.handle_requests_at(session, store, requests, now_ms);
        let bytes = session.parser.encode_all(&responses);
        proof {
            let hs = choose|stores: Seq<Store>, sessions: Seq<ClientSession>|
                stores.len() == request_seq.len() + 1 && sessions.len() == request_seq.len() + 1
                    && responses@.len() == request_seq.len() && stores[0] == *old(store)
                    && sessions[0] == decoded && stores.last() == *store && sessions.last()
                    == *session && forall|i: int|
                    0 <= i < request_seq.len() ==> #[trigger] request_effect(
                        stores[i],
                        sessions[i],
                        request_seq[i],
                        now_ms,
                        responses@[i],
                        stores[i + 1],
                        sessions[i + 1],
                    );
            lemma_parser_kept(hs.1, request_seq, now_ms, responses@, hs.0);
        }
        Ok(bytes)
    }

    /// Answers the buffered requests now; see `handle_bulk_at`.
    pub fn handle_bulk(&mut self, session: &mut ClientSession, store: &mut Store) -> (r: Result<Vec<u8>, DecodeError>)
        requires
            old(store).wf(),
        ensures
            final(store).wf(),
            exists|now_ms: i64| bulk_effect(*old(store), *old(session), now_ms, r, *final(store), *final(session)),
    {
        let now_ms = now_millis();
        self.handle_bulk_at(session, store, now_ms)
    }
}

} // verus!
