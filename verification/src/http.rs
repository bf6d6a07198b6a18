use vstd::prelude::*;

verus! {

use crate::wire::append_all;

/// Errors of the HTTP fetch driver. The closed set mirrors the three ways a
/// fetch can fail: the software network stack reported a socket operation
/// failure, the target URL exposes no host, or (reserved) the response
/// content could not be decoded — current decoding is lossy and never fails.
#[derive(Clone, Copy, PartialEq, Eq, Structural, Debug)]
pub enum UpstreamError {
    Network,
    InvalidUrl,
    Content,
}

/// The phase the fetch is in. Transitions are monotonic: a fetch never
/// returns to an earlier phase, and only `Response` may repeat itself while
/// data is being drained.
#[derive(Clone, Copy, PartialEq, Eq, Structural, Debug)]
pub enum ConnectionState {
    Connect,
    Request,
    Response,
    Done,
}

/// A snapshot of the socket's status predicates, as the software network
/// stack reports them at one poll.
#[derive(Clone, Copy, PartialEq, Eq, Structural, Debug)]
pub struct SocketStatus {
    pub is_active: bool,
    pub may_send: bool,
    pub can_recv: bool,
    pub may_recv: bool,
}

/// The socket operation the driver must perform this iteration.
#[derive(Clone, Copy, PartialEq, Eq, Structural, Debug)]
pub enum FetchAction {
    /// Open the connection to the target's port 80 from a fresh ephemeral port.
    IssueConnect,
    /// Write the whole request buffer in one send.
    SendRequest,
    /// Drain all currently receivable bytes and forward them to the sink.
    ReceiveData,
    /// The peer closed and everything was drained: the fetch is complete.
    Finish,
    /// No transition this iteration; wait for the next poll.
    Wait,
}

/// One step of the fetch state machine: from the current phase and a socket
/// status snapshot to the phase entered when the chosen action succeeds, and
/// that action.
pub open spec fn spec_plan_step(state: ConnectionState, st: SocketStatus) -> (ConnectionState, FetchAction) {
    match state {
        ConnectionState::Connect => if !st.is_active {
            (ConnectionState::Request, FetchAction::IssueConnect)
        } else {
            (ConnectionState::Connect, FetchAction::Wait)
        },
        ConnectionState::Request => if st.may_send {
            (ConnectionState::Response, FetchAction::SendRequest)
        } else {
            (ConnectionState::Request, FetchAction::Wait)
        },
        ConnectionState::Response => if st.can_recv {
            (ConnectionState::Response, FetchAction::ReceiveData)
        } else if !st.may_recv {
            (ConnectionState::Done, FetchAction::Finish)
        } else {
            (ConnectionState::Response, FetchAction::Wait)
        },
        ConnectionState::Done => (ConnectionState::Done, FetchAction::Finish),
    }
}

/// Decide the next phase and action from the current phase and a status
/// snapshot. Pure: the caller performs the action and only adopts the new
/// phase when the action succeeded.
pub fn plan_step(state: ConnectionState, st: SocketStatus) -> (r: (ConnectionState, FetchAction))
    ensures
        r == spec_plan_step(state, st),
{
    match state {
        ConnectionState::Connect => if !st.is_active {
            (ConnectionState::Request, FetchAction::IssueConnect)
        } else {
            (ConnectionState::Connect, FetchAction::Wait)
        },
        ConnectionState::Request => if st.may_send {
            (ConnectionState::Response, FetchAction::SendRequest)
        } else {
            (ConnectionState::Request, FetchAction::Wait)
        },
        ConnectionState::Response => if st.can_recv {
            (ConnectionState::Response, FetchAction::ReceiveData)
        } else if !st.may_recv {
            (ConnectionState::Done, FetchAction::Finish)
        } else {
            (ConnectionState::Response, FetchAction::Wait)
        },
        ConnectionState::Done => (ConnectionState::Done, FetchAction::Finish),
    }
}

/// The position of a phase in the fixed progression
/// `Connect, Request, Response, Done`.
pub open spec fn state_index(s: ConnectionState) -> int {
    match s {
        ConnectionState::Connect => 0,
        ConnectionState::Request => 1,
        ConnectionState::Response => 2,
        ConnectionState::Done => 3,
    }
}

/// The fetch state machine never moves backward and never skips a phase:
/// each step keeps the phase or advances it by exactly one, so the only
/// possible progression is `Connect, Request, Response, Done`, with
/// `Response` alone allowed to repeat while data is drained.
pub proof fn lemma_transitions_in_order(state: ConnectionState, st: SocketStatus)
    ensures
        state_index(state) <= state_index(spec_plan_step(state, st).0),
        state_index(spec_plan_step(state, st).0) <= state_index(state) + 1,
        spec_plan_step(state, st).0 == state || spec_plan_step(state, st).0 != state && state_index(
            spec_plan_step(state, st).0) == state_index(state) + 1,
{
}

/// Each socket operation is issued from exactly one phase: a connect only
/// from `Connect` on an inactive socket, the request send only from
/// `Request` once the socket may send, and a receive only from `Response`
/// while data is receivable. In particular no receive is ever attempted
/// before the request phase has completed.
pub proof fn lemma_actions_follow_states(state: ConnectionState, st: SocketStatus)
    ensures
        spec_plan_step(state, st).1 == FetchAction::IssueConnect <==> state
            == ConnectionState::Connect && !st.is_active,
        spec_plan_step(state, st).1 == FetchAction::SendRequest <==> state
            == ConnectionState::Request && st.may_send,
        spec_plan_step(state, st).1 == FetchAction::ReceiveData <==> state
            == ConnectionState::Response && st.can_recv,
        spec_plan_step(state, st).0 == ConnectionState::Done && state != ConnectionState::Done
            ==> state == ConnectionState::Response && !st.can_recv && !st.may_recv,
        spec_plan_step(state, st).1 == FetchAction::Wait ==> spec_plan_step(state, st).0 == state,
{
}

/// The bytes `"GET "`.
pub open spec fn request_prefix() -> Seq<u8> {
    seq![71u8, 69u8, 84u8, 32u8]
}

/// The bytes `" HTTP/1.0\r\nHost: "`.
pub open spec fn request_mid() -> Seq<u8> {
    seq![
        32u8,
        72u8,
        84u8,
        84u8,
        80u8,
        47u8,
        49u8,
        46u8,
        48u8,
        13u8,
        10u8,
        72u8,
        111u8,
        115u8,
        116u8,
        58u8,
        32u8,
    ]
}

/// The bytes `"\r\nConnection: close\r\n\r\n"`.
pub open spec fn request_suffix() -> Seq<u8> {
    seq![
        13u8,
        10u8,
        67u8,
        111u8,
        110u8,
        110u8,
        101u8,
        99u8,
        116u8,
        105u8,
        111u8,
        110u8,
        58u8,
        32u8,
        99u8,
        108u8,
        111u8,
        115u8,
        101u8,
        13u8,
        10u8,
        13u8,
        10u8,
    ]
}

/// The literal request text
/// `GET <path> HTTP/1.0\r\nHost: <host>\r\nConnection: close\r\n\r\n`.
pub open spec fn request_bytes(path: Seq<u8>, host: Seq<u8>) -> Seq<u8> {
    request_prefix() + path + request_mid() + host + request_suffix()
}

/// Build the request buffer for `path` and `host`, byte for byte the text
/// `GET <path> HTTP/1.0\r\nHost: <host>\r\nConnection: close\r\n\r\n`.
pub fn build_request(path: &Vec<u8>, host: &Vec<u8>) -> (r: Vec<u8>)
    ensures
        r@ == request_bytes(path@, host@),
{
    let mut out: Vec<u8> = Vec::new();
    out.push(71u8);
    out.push(69u8);
    out.push(84u8);
    out.push(32u8);
    proof {
        assert(out@ =~= request_prefix());
    }
    append_all(&mut out, path);
    let mut mid: Vec<u8> = Vec::new();
    mid.push(32u8);
    mid.push(72u8);
    mid.push(84u8);
    mid.push(84u8);
    mid.push(80u8);
    mid.push(47u8);
    mid.push(49u8);
    mid.push(46u8);
    mid.push(48u8);
    mid.push(13u8);
    mid.push(10u8);
    mid.push(72u8);
    mid.push(111u8);
    mid.push(115u8);
    mid.push(116u8);
    mid.push(58u8);
    mid.push(32u8);
    proof {
        assert(mid@ =~= request_mid());
    }
    append_all(&mut out, &mid);
    append_all(&mut out, host);
    let mut suffix: Vec<u8> = Vec::new();
    suffix.push(13u8);
    suffix.push(10u8);
    suffix.push(67u8);
    suffix.push(111u8);
    suffix.push(110u8);
    suffix.push(110u8);
    suffix.push(101u8);
    suffix.push(99u8);
    suffix.push(116u8);
    suffix.push(105u8);
    suffix.push(111u8);
    suffix.push(110u8);
    suffix.push(58u8);
    suffix.push(32u8);
    suffix.push(99u8);
    suffix.push(108u8);
    suffix.push(111u8);
    suffix.push(115u8);
    suffix.push(101u8);
    suffix.push(13u8);
    suffix.push(10u8);
    suffix.push(13u8);
    suffix.push(10u8);
    proof {
        assert(suffix@ =~= request_suffix());
    }
    append_all(&mut out, &suffix);
    proof {
        assert(out@ =~= request_bytes(path@, host@));
    }
    out
}

/// Set up the request buffer for a fetch. A target without a host is
/// rejected with `InvalidUrl` before any socket operation; otherwise the
/// returned buffer is exactly the request text for the target's path and
/// host.
pub fn prepare_request(host: &Option<Vec<u8>>, path: &Vec<u8>) -> (r: Result<Vec<u8>, UpstreamError>)
    ensures
        host is None <==> r is Err,
        r matches Err(e) ==> e == UpstreamError::InvalidUrl,
        host matches Some(h) ==> r matches Ok(v) && v@ == request_bytes(path@, h@),
{
    match host {
        None => Err(UpstreamError::InvalidUrl),
        Some(h) => Ok(build_request(path, h)),
    }
}

/// One scripted iteration of the drive loop: the socket status the stack
/// reports at this poll, whether the socket operation issued this
/// iteration (if any) succeeds, and the bytes handed over when data is
/// received.
pub struct ScriptStep {
    pub status: SocketStatus,
    pub op_ok: bool,
    pub data: Vec<u8>,
}

/// How a driven fetch ended.
#[derive(Clone, Copy, PartialEq, Eq, Structural, Debug)]
pub enum FetchResult {
    /// The `Done` phase was reached: the only successful exit.
    Completed,
    /// A socket operation failed; carries the phase it was issued from.
    Aborted(ConnectionState),
    /// The script ended before the fetch was done.
    Starved,
}

/// The outcome of driving the fetch state machine from `state` over the
/// scripted iterations `script`: how the fetch ends and the bytes received
/// before it does. A failed socket operation aborts at once, in the phase
/// it was issued from, and nothing later in the script is consumed.
pub open spec fn spec_run_script(script: Seq<ScriptStep>, state: ConnectionState) -> (
    FetchResult,
    Seq<u8>,
)
    decreases script.len(),
{
    if state == ConnectionState::Done {
        (FetchResult::Completed, Seq::<u8>::empty())
    } else if script.len() == 0 {
        (FetchResult::Starved, Seq::<u8>::empty())
    } else {
        let step = script[0];
        let next = spec_plan_step(state, step.status).0;
        let action = spec_plan_step(state, step.status).1;
        match action {
            FetchAction::Wait => spec_run_script(script.skip(1), next),
            FetchAction::Finish => (FetchResult::Completed, Seq::<u8>::empty()),
            FetchAction::IssueConnect => if step.op_ok {
                spec_run_script(script.skip(1), next)
            } else {
                (FetchResult::Aborted(state), Seq::<u8>::empty())
            },
            FetchAction::SendRequest => if step.op_ok {
                spec_run_script(script.skip(1), next)
            } else {
                (FetchResult::Aborted(state), Seq::<u8>::empty())
            },
            FetchAction::ReceiveData => if step.op_ok {
                (
                    spec_run_script(script.skip(1), next).0,
                    step.data@ + spec_run_script(script.skip(1), next).1,
                )
            } else {
                (FetchResult::Aborted(state), Seq::<u8>::empty())
            },
        }
    }
}

/// Drive the fetch state machine over a scripted stack, starting in
/// `Connect`: each iteration inspects the next scripted status snapshot,
/// performs the planned action against the script, and collects received
/// bytes. The fetch completes only by reaching `Done`; a failed socket
/// operation aborts it at once, in the phase it was issued from, with
/// nothing further attempted — in particular no receive after a failed
/// send.
pub fn run_script(script: &Vec<ScriptStep>) -> (r: (FetchResult, Vec<u8>))
    ensures
        r.0 == spec_run_script(script@, ConnectionState::Connect).0,
        r.1@ == spec_run_script(script@, ConnectionState::Connect).1,
{
    let mut state = ConnectionState::Connect;
    let mut out: Vec<u8> = Vec::new();
    let mut k: usize = 0;
    proof {
        assert(script@.skip(0) =~= script@);
        assert(out@ + spec_run_script(script@, state).1 =~= spec_run_script(script@, state).1);
    }
    loop
        invariant
            k <= script@.len(),
            spec_run_script(script@, ConnectionState::Connect).0 == spec_run_script(
                script@.skip(k as int),
                state,
            ).0,
            spec_run_script(script@, ConnectionState::Connect).1 == out@ + spec_run_script(
                script@.skip(k as int),
                state,
            ).1,
        decreases script@.len() - k,
    {
        let ghost rest = script@.skip(k as int);
        if matches!(state, ConnectionState::Done) {
            proof {
                assert(out@ + spec_run_script(rest, state).1 =~= out@);
            }
            return (FetchResult::Completed, out);
        }
        if k == script.len() {
            proof {
                assert(out@ + spec_run_script(rest, state).1 =~= out@);
            }
            return (FetchResult::Starved, out);
        }
        let step = &script[k];
        proof {
            assert(rest[0] == script@[k as int]);
            assert(rest.skip(1) =~= script@.skip(k as int + 1));
        }
        let (next, action) = plan_step(state, step.status);
        match action {
            FetchAction::Wait => {
                state = next;
            },
            FetchAction::Finish => {
                proof {
                    assert(out@ + spec_run_script(rest, state).1 =~= out@);
                }
                return (FetchResult::Completed, out);
            },
            FetchAction::IssueConnect => {
                if step.op_ok {
                    state = next;
                } else {
                    proof {
                        assert(out@ + spec_run_script(rest, state).1 =~= out@);
                    }
                    return (FetchResult::Aborted(state), out);
                }
            },
            FetchAction::SendRequest => {
                if step.op_ok {
                    state = next;
                } else {
                    proof {
                        assert(out@ + spec_run_script(rest, state).1 =~= out@);
                    }
                    return (FetchResult::Aborted(state), out);
                }
            },
            FetchAction::ReceiveData => {
                if step.op_ok {
                    proof {
                        assert((out@ + script@[k as int].data@) + spec_run_script(
                            script@.skip(k as int + 1),
                            next,
                        ).1 =~= out@ + (script@[k as int].data@ + spec_run_script(
                            script@.skip(k as int + 1),
                            next,
                        ).1));
                    }
                    append_all(&mut out, &step.data);
                    state = next;
                } else {
                    proof {
                        assert(out@ + spec_run_script(rest, state).1 =~= out@);
                    }
                    return (FetchResult::Aborted(state), out);
                }
            },
        }
        k = k + 1;
    }
}

/// A failed send aborts the fetch at once, in the `Request` phase: when
/// the machine is in `Request`, the socket may send and the scripted send
/// fails, the run ends as `Aborted(Request)`, consumes nothing further of
/// the script and receives no byte — in particular no receive is
/// attempted after the failed send.
pub proof fn lemma_send_failure_aborts(script: Seq<ScriptStep>)
    requires
        script.len() > 0,
        script[0].status.may_send,
        !script[0].op_ok,
    ensures
        spec_run_script(script, ConnectionState::Request) == (
            FetchResult::Aborted(ConnectionState::Request),
            Seq::<u8>::empty(),
        ),
{
}

/// Draw an ephemeral source port, uniformly from the registered private
/// range 49152 through 65535.
pub fn random_port() -> (r: u16)
    ensures
        49152 <= r <= 65535,
{
    let x: u16 = rand::random();
    49152 + x % 16384
}

} // verus!
