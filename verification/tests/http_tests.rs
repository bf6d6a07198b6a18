use mget::http::ConnectionState;
use mget::http::FetchAction;
use mget::http::FetchResult;
use mget::http::ScriptStep;
use mget::http::SocketStatus;
use mget::http::UpstreamError;
use mget::http::build_request;
use mget::http::plan_step;
use mget::http::prepare_request;
use mget::http::random_port;
use mget::http::run_script;

fn status(is_active: bool, may_send: bool, can_recv: bool, may_recv: bool) -> SocketStatus {
    SocketStatus { is_active, may_send, can_recv, may_recv }
}

#[test]
fn request_buffer_is_byte_identical() {
    let r = build_request(&b"/index.html".to_vec(), &b"example.com".to_vec());
    assert_eq!(
        r,
        b"GET /index.html HTTP/1.0\r\nHost: example.com\r\nConnection: close\r\n\r\n".to_vec()
    );
}

#[test]
fn prepare_request_builds_for_a_host() {
    let r = prepare_request(&Some(b"example.com".to_vec()), &b"/".to_vec()).unwrap();
    assert_eq!(
        r,
        b"GET / HTTP/1.0\r\nHost: example.com\r\nConnection: close\r\n\r\n".to_vec()
    );
}

#[test]
fn missing_host_fails_before_any_socket_operation() {
    assert_eq!(
        prepare_request(&None, &b"/".to_vec()),
        Err(UpstreamError::InvalidUrl)
    );
}

#[test]
fn plan_step_transitions_in_order() {
    // Inactive socket: connect is issued and the request phase entered.
    assert_eq!(
        plan_step(ConnectionState::Connect, status(false, false, false, false)),
        (ConnectionState::Request, FetchAction::IssueConnect)
    );
    // Not yet ready to send: wait.
    assert_eq!(
        plan_step(ConnectionState::Request, status(true, false, false, true)),
        (ConnectionState::Request, FetchAction::Wait)
    );
    // Ready to send: the one send, then the response phase.
    assert_eq!(
        plan_step(ConnectionState::Request, status(true, true, false, true)),
        (ConnectionState::Response, FetchAction::SendRequest)
    );
    // Receivable data: drain and stay in the response phase.
    assert_eq!(
        plan_step(ConnectionState::Response, status(true, true, true, true)),
        (ConnectionState::Response, FetchAction::ReceiveData)
    );
    // Nothing receivable yet, peer still open: wait.
    assert_eq!(
        plan_step(ConnectionState::Response, status(true, false, false, true)),
        (ConnectionState::Response, FetchAction::Wait)
    );
    // Peer closed and drained: done.
    assert_eq!(
        plan_step(ConnectionState::Response, status(true, false, false, false)),
        (ConnectionState::Done, FetchAction::Finish)
    );
}

#[test]
fn scripted_fetch_completes_in_order() {
    let mut script = vec![
        // Socket inactive: the connect is issued.
        ScriptStep { status: status(false, false, false, false), op_ok: true, data: vec![] },
        // One poll later the socket may send: the request goes out.
        ScriptStep { status: status(true, true, false, true), op_ok: true, data: vec![] },
    ];
    // Receivable data for several drain iterations.
    for chunk in [&b"HTTP/1.0 200 OK\r\n\r\n"[..], b"hello ", b"world"] {
        script.push(ScriptStep {
            status: status(true, true, true, true),
            op_ok: true,
            data: chunk.to_vec(),
        });
    }
    // Then the peer closes and everything is drained.
    script.push(ScriptStep { status: status(true, false, false, false), op_ok: true, data: vec![] });
    let (result, received) = run_script(&script);
    assert_eq!(result, FetchResult::Completed);
    assert_eq!(received, b"HTTP/1.0 200 OK\r\n\r\nhello world".to_vec());

    // The same progression, step by step: no transition out of order.
    let mut state = ConnectionState::Connect;
    let mut trace = vec![state];
    for step in &script {
        let (next, _) = plan_step(state, step.status);
        if next != state {
            trace.push(next);
        }
        state = next;
    }
    assert_eq!(
        trace,
        vec![
            ConnectionState::Connect,
            ConnectionState::Request,
            ConnectionState::Response,
            ConnectionState::Done,
        ]
    );
}

#[test]
fn send_failure_aborts_in_request_state() {
    let script = vec![
        ScriptStep { status: status(false, false, false, false), op_ok: true, data: vec![] },
        // The send fails; later receivable data must never be touched.
        ScriptStep { status: status(true, true, false, true), op_ok: false, data: vec![] },
        ScriptStep {
            status: status(true, true, true, true),
            op_ok: true,
            data: b"never seen".to_vec(),
        },
    ];
    let (result, received) = run_script(&script);
    assert_eq!(result, FetchResult::Aborted(ConnectionState::Request));
    assert_eq!(received, Vec::<u8>::new());
}

#[test]
fn connect_failure_aborts_in_connect_state() {
    let script = vec![
        ScriptStep { status: status(false, false, false, false), op_ok: false, data: vec![] },
    ];
    let (result, received) = run_script(&script);
    assert_eq!(result, FetchResult::Aborted(ConnectionState::Connect));
    assert_eq!(received, Vec::<u8>::new());
}

#[test]
fn script_may_end_before_the_fetch_is_done() {
    let (result, received) = run_script(&Vec::new());
    assert_eq!(result, FetchResult::Starved);
    assert_eq!(received, Vec::<u8>::new());
}

#[test]
fn ephemeral_ports_stay_in_the_private_range() {
    for _ in 0..10000 {
        let p = random_port();
        assert!((49152..=65535).contains(&p));
    }
}
