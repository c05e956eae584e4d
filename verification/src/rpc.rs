//! The control requests: what is asked, and what is answered.
//!
//! A request and an answer are a big-endian length of four bytes and that many bytes.
use crate::bytes::{be_bytes, be_value, lemma_be_bytes_len, push_be, push_bytes, read_be};
use crate::number::{decimal, push_decimal};
use crate::pg::{pg_fault_text, PgError, PgFault};
use crate::scaler::{PoolerPicture, PoolerStats};
use crate::text::{copy_str, same_str};
use vstd::prelude::*;

verus! {

/// The longest request that is read.
pub const MAX_RPC_BODY: u64 = 1_048_576;

/// How long a connection may take.
pub const RPC_TIMEOUT_SECS: u64 = 60;

/// The length that the head of a request announces, if it is not too large.
pub open spec fn body_length(head: Seq<u8>) -> Result<nat, Seq<char>> {
    let len = be_value(head);
    if len > MAX_RPC_BODY {
        Err("rpc body too large: "@ + decimal(len) + " bytes"@)
    } else {
        Ok(len)
    }
}

/// Reads the length of a request.
pub fn request_length(head: &[u8]) -> (r: Result<u64, String>)
    requires
        head@.len() == 4,
    ensures
        match r {
            Ok(n) => body_length(head@) == Ok::<nat, Seq<char>>(n as nat),
            Err(m) => body_length(head@) == Err::<nat, Seq<char>>(m@),
        },
{
    let len: u64 = read_be(head, 0, 4);
    assert(head@.subrange(0, 4) =~= head@);
    if len > MAX_RPC_BODY {
        let mut m: String = copy_str("rpc body too large: ");
        push_decimal(&mut m, len);
        m.append(" bytes");
        Err(m)
    } else {
        Ok(len)
    }
}

/// A message on the wire.
pub open spec fn rpc_message(body: Seq<u8>) -> Seq<u8> {
    be_bytes(body.len(), 4) + body
}

/// Puts the length before a message.
pub fn rpc_frame(body: &[u8]) -> (r: Vec<u8>)
    requires
        body@.len() <= u32::MAX,
    ensures
        r@ == rpc_message(body@),
{
    let mut out: Vec<u8> = Vec::new();
    push_be(&mut out, body.len() as u64, 4);
    push_bytes(&mut out, body);
    out
}

/// A message of allowed length is read back whole.
pub proof fn law_message_reads_back(body: Seq<u8>)
    requires
        body.len() <= MAX_RPC_BODY,
    ensures
        ({
            let m = rpc_message(body);
            &&& body_length(m.take(4)) == Ok::<nat, Seq<char>>(body.len())
            &&& m.skip(4) == body
        }),
{
    let m = rpc_message(body);
    lemma_be_bytes_len(body.len(), 4);
    crate::bytes::lemma_capacities();
    crate::bytes::law_be_reads_back(body.len(), 4);
    assert(m.take(4) =~= be_bytes(body.len(), 4));
    assert(m.skip(4) =~= body);
}

/// What a request asks for.
#[derive(Clone, Copy, Debug, PartialEq, Eq, Structural)]
pub enum Task {
    /// Run `CHECKPOINT`.
    Checkpoint,
    /// Tell the state of the pooler.
    Pooler,
    /// Ask whether the server is ready.
    Health,
    Reload,
    Promote,
}

/// An answer.
#[derive(Debug)]
pub struct RpcResponse {
    pub ok: bool,
    pub error: Option<String>,
    pub pooler: Option<PoolerStats>,
}

/// An answer, without its representation.
pub struct Answer {
    pub ok: bool,
    pub error: Option<Seq<char>>,
    pub pooler: Option<PoolerPicture>,
}

impl View for RpcResponse {
    type V = Answer;

    open spec fn view(&self) -> Answer {
        Answer {
            ok: self.ok,
            error: match self.error {
                Some(m) => Some(m@),
                None => None,
            },
            pooler: match self.pooler {
                Some(p) => Some(p@),
                None => None,
            },
        }
    }
}

/// A refusal with its reason.
pub open spec fn refusal(m: Seq<char>) -> Answer {
    Answer { ok: false, error: Some(m), pooler: None }
}

/// A plain success.
pub open spec fn consent() -> Answer {
    Answer { ok: true, error: None, pooler: None }
}

impl RpcResponse {
    /// A plain success.
    pub fn ok() -> (r: RpcResponse)
        ensures
            r@ == consent(),
    {
        RpcResponse { ok: true, error: None, pooler: None }
    }

    /// A refusal with its reason.
    pub fn err(msg: String) -> (r: RpcResponse)
        ensures
            r@ == refusal(msg@),
    {
        RpcResponse { ok: false, error: Some(msg), pooler: None }
    }

    /// The state of the pooler.
    pub fn pooler(stats: PoolerStats) -> (r: RpcResponse)
        ensures
            r@ == (Answer { ok: true, error: None, pooler: Some(stats@) }),
    {
        RpcResponse { ok: true, error: None, pooler: Some(stats) }
    }
}

/// What a command asks for, or the refusal that it gets at once.
pub open spec fn command(cmd: Seq<char>) -> Result<Task, Seq<char>> {
    if cmd == "checkpoint"@ {
        Ok(Task::Checkpoint)
    } else if cmd == "pooler"@ {
        Ok(Task::Pooler)
    } else if cmd == "health"@ {
        Ok(Task::Health)
    } else if cmd == "reload"@ {
        Ok(Task::Reload)
    } else if cmd == "promote"@ {
        Ok(Task::Promote)
    } else if cmd == "backup"@ {
        Err("not implemented"@)
    } else {
        Err("unknown command: "@ + cmd)
    }
}

/// Tells what a command asks for, or answers it at once.
pub fn dispatch(cmd: &str) -> (r: Result<Task, RpcResponse>)
    ensures
        match (r, command(cmd@)) {
            (Ok(a), Ok(b)) => a == b,
            (Err(a), Err(m)) => a@ == refusal(m),
            _ => false,
        },
{
    if same_str(cmd, "checkpoint") {
        Ok(Task::Checkpoint)
    } else if same_str(cmd, "pooler") {
        Ok(Task::Pooler)
    } else if same_str(cmd, "health") {
        Ok(Task::Health)
    } else if same_str(cmd, "reload") {
        Ok(Task::Reload)
    } else if same_str(cmd, "promote") {
        Ok(Task::Promote)
    } else if same_str(cmd, "backup") {
        Err(RpcResponse::err(copy_str("not implemented")))
    } else {
        let mut m: String = copy_str("unknown command: ");
        m.append(cmd);
        Err(RpcResponse::err(m))
    }
}

/// Answers a request that cannot be read.
pub fn invalid_request(reason: &str) -> (r: RpcResponse)
    ensures
        r@ == refusal("invalid request: "@ + reason@),
{
    let mut m: String = copy_str("invalid request: ");
    m.append(reason);
    RpcResponse::err(m)
}

/// The answer to a request that ran a command on the server, with what went wrong, if anything did.
pub open spec fn outcome_answer(fault: Option<PgFault>) -> Answer {
    match fault {
        None => consent(),
        Some(e) => refusal(pg_fault_text(e)),
    }
}

/// Answers a request that ran a command on the server: a checkpoint, a reload or a promotion.
pub fn answer_command(outcome: &Result<(), PgError>) -> (r: RpcResponse)
    ensures
        r@ == outcome_answer(
            match outcome {
                Ok(_) => None,
                Err(e) => Some(e@),
            },
        ),
{
    match outcome {
        Ok(_) => RpcResponse::ok(),
        Err(e) => RpcResponse::err(e.to_string()),
    }
}

/// The answer to the question whether the server is ready.
pub open spec fn health_answer(ready: bool) -> Answer {
    if ready {
        consent()
    } else {
        refusal("postgres not ready"@)
    }
}

/// Answers whether the server is ready.
pub fn answer_health(ready: bool) -> (r: RpcResponse)
    ensures
        r@ == health_answer(ready),
{
    if ready {
        RpcResponse::ok()
    } else {
        RpcResponse::err(copy_str("postgres not ready"))
    }
}

/// The answer with the state of the pooler, if it can be read.
pub open spec fn pooler_answer(picture: Option<PoolerPicture>) -> Answer {
    match picture {
        Some(p) => Answer { ok: true, error: None, pooler: Some(p) },
        None => refusal("pooler stats lock poisoned"@),
    }
}

/// Answers with the state of the pooler, unless it cannot be read.
pub fn answer_pooler(stats: Option<PoolerStats>) -> (r: RpcResponse)
    ensures
        r@ == pooler_answer(
            match stats {
                Some(s) => Some(s@),
                None => None,
            },
        ),
{
    match stats {
        Some(s) => RpcResponse::pooler(s),
        None => RpcResponse::err(copy_str("pooler stats lock poisoned")),
    }
}

/// A request of up to a megabyte is read; a longer one is refused before it is.
pub proof fn law_long_requests_are_refused(head: Seq<u8>)
    ensures
        body_length(head) is Ok <==> be_value(head) <= 1_048_576,
        body_length(head) matches Ok(n) ==> n == be_value(head),
{
}

/// Each command asks for what its name says; a backup is not to be had, and any other command is
/// refused by name.
pub proof fn law_commands_are_told_apart(cmd: Seq<char>)
    ensures
        command("checkpoint"@) == Ok::<Task, Seq<char>>(Task::Checkpoint),
        command("pooler"@) == Ok::<Task, Seq<char>>(Task::Pooler),
        command("health"@) == Ok::<Task, Seq<char>>(Task::Health),
        command("reload"@) == Ok::<Task, Seq<char>>(Task::Reload),
        command("promote"@) == Ok::<Task, Seq<char>>(Task::Promote),
        command("backup"@) is Err,
        cmd != "checkpoint"@ && cmd != "pooler"@ && cmd != "health"@ && cmd != "reload"@ && cmd
            != "promote"@ && cmd != "backup"@ ==> command(cmd) == Err::<Task, Seq<char>>(
            "unknown command: "@ + cmd,
        ),
{
    reveal_strlit("checkpoint");
    reveal_strlit("pooler");
    reveal_strlit("health");
    reveal_strlit("reload");
    reveal_strlit("promote");
    reveal_strlit("backup");
    assert("checkpoint"@[0] == 'c' && "pooler"@[1] == 'o' && "health"@[0] == 'h' && "reload"@[0]
        == 'r' && "promote"@[1] == 'r' && "backup"@[0] == 'b' && "pooler"@[0] == 'p'
        && "promote"@[0] == 'p');
}

/// An answer says yes exactly if what was asked for was done or holds; it names a reason exactly if
/// it says no, and tells of the pooler only where that was asked and is known.
pub proof fn law_answers_are_honest(
    fault: Option<PgFault>,
    ready: bool,
    picture: Option<PoolerPicture>,
)
    ensures
        outcome_answer(fault).ok <==> fault is None,
        outcome_answer(fault).error is Some <==> fault is Some,
        fault matches Some(e) ==> outcome_answer(fault).error == Some(pg_fault_text(e)),
        health_answer(ready).ok == ready,
        health_answer(ready).error is Some <==> !ready,
        pooler_answer(picture).ok <==> picture is Some,
        pooler_answer(picture).pooler == picture,
        outcome_answer(fault).pooler is None && health_answer(ready).pooler is None,
{
}

} // verus!
