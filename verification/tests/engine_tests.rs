use http_benchmarks::engine::{ClientEngine, EngineAction, EngineEvent, EngineState};
use http_benchmarks::wire::encode_request;

const KEEP_ALIVE_RESP: &[u8] = b"HTTP/1.1 204 No Content\r\nConnection: keep-alive\r\n\r\n";
const CLOSE_RESP: &[u8] = b"HTTP/1.1 204 No Content\r\nConnection: close\r\n\r\n";

fn plain_engine() -> ClientEngine {
    ClientEngine::new("bench.example:1234".to_string(), 11, false, false)
}

#[test]
fn connects_then_frames_a_request() {
    let mut e = plain_engine();
    assert_eq!(e.step(EngineEvent::Ready, false, 1), EngineAction::Connect);
    assert_eq!(e.state, EngineState::Connecting);
    let t: u64 = 1_500_000_000;
    assert_eq!(e.step(EngineEvent::ConnectOk, false, t), EngineAction::Write);
    assert_eq!(e.state, EngineState::Sending);
    assert_eq!(e.snd, encode_request("bench.example:1234", 11, t));
    assert_eq!(e.unsent_request(), &e.snd[..]);
}

#[test]
fn connect_failure_backs_off_and_retries() {
    let mut e = plain_engine();
    assert_eq!(e.step(EngineEvent::Ready, false, 1), EngineAction::Connect);
    assert_eq!(e.step(EngineEvent::ConnectFailed, false, 2), EngineAction::Backoff);
    assert_eq!(e.state, EngineState::Connecting);
    assert_eq!(e.step(EngineEvent::Ready, false, 3), EngineAction::Connect);
}

#[test]
fn partial_writes_are_resumed() {
    let mut e = plain_engine();
    e.step(EngineEvent::Ready, false, 1);
    e.step(EngineEvent::ConnectOk, false, 2);
    let total = e.snd.len();
    assert_eq!(e.step(EngineEvent::Wrote(5), false, 3), EngineAction::Write);
    assert_eq!(e.bytes_sent, 5);
    assert_eq!(e.unsent_request().len(), total - 5);
    assert_eq!(e.step(EngineEvent::WriteFailed, false, 4), EngineAction::Write);
    assert_eq!(e.bytes_sent, 5);
    assert_eq!(e.step(EngineEvent::Wrote(total - 5), false, 5), EngineAction::Read);
    assert_eq!(e.state, EngineState::Receiving);
    assert_eq!(e.n_sent_stream, 1);
    assert_eq!(e.n_sent, 0);
}

fn drive_to_receiving(e: &mut ClientEngine) {
    e.step(EngineEvent::Ready, false, 1);
    e.step(EngineEvent::ConnectOk, false, 2);
    let total = e.snd.len();
    e.step(EngineEvent::Wrote(total), false, 3);
    assert_eq!(e.state, EngineState::Receiving);
}

#[test]
fn keep_alive_response_reuses_the_connection() {
    let mut e = plain_engine();
    drive_to_receiving(&mut e);
    let t: u64 = 7_000_000_000;
    let act = e.step(EngineEvent::ReadSome(KEEP_ALIVE_RESP.to_vec()), false, t);
    // Complete response with the keep-alive token: count it and send the
    // next request on the same connection.
    assert_eq!(act, EngineAction::Write);
    assert_eq!(e.n_sent, 1);
    assert_eq!(e.state, EngineState::Sending);
    assert_eq!(e.snd, encode_request("bench.example:1234", 11, t));
}

#[test]
fn response_without_keep_alive_reconnects() {
    let mut e = plain_engine();
    drive_to_receiving(&mut e);
    let act = e.step(EngineEvent::ReadSome(CLOSE_RESP.to_vec()), false, 9);
    assert_eq!(act, EngineAction::Connect);
    assert_eq!(e.n_sent, 1);
    assert_eq!(e.state, EngineState::Connecting);
}

#[test]
fn reads_accumulate_until_the_terminator() {
    let mut e = plain_engine();
    drive_to_receiving(&mut e);
    assert_eq!(
        e.step(EngineEvent::ReadSome(b"HTTP/1.1 204 No".to_vec()), false, 4),
        EngineAction::Read,
    );
    assert_eq!(e.n_sent, 0);
    assert_eq!(e.step(EngineEvent::ReadFailed, false, 5), EngineAction::Read);
    assert_eq!(
        e.step(
            EngineEvent::ReadSome(b" Content\r\nConnection: keep-alive\r\n\r\n".to_vec()),
            false,
            6,
        ),
        EngineAction::Write,
    );
    assert_eq!(e.n_sent, 1);
}

#[test]
fn throttle_sleeps_between_requests() {
    let mut e = ClientEngine::new("h".to_string(), 11, false, true);
    drive_to_receiving(&mut e);
    let act = e.step(EngineEvent::ReadSome(KEEP_ALIVE_RESP.to_vec()), false, 7);
    assert_eq!(act, EngineAction::Throttle);
    assert_eq!(e.state, EngineState::Throttling);
    assert_eq!(e.n_sent, 1);
    // After the sleep, the keep-alive decision is made.
    assert_eq!(e.step(EngineEvent::Ready, false, 8), EngineAction::Write);
    assert_eq!(e.state, EngineState::Sending);
}

#[test]
fn tls_engine_handshakes_before_sending() {
    let mut e = ClientEngine::new("h".to_string(), 12, true, false);
    assert_eq!(e.step(EngineEvent::Ready, false, 1), EngineAction::Connect);
    assert_eq!(e.step(EngineEvent::ConnectOk, false, 2), EngineAction::Handshake);
    assert_eq!(e.state, EngineState::Handshaking);
    assert_eq!(e.step(EngineEvent::HandshakeWouldBlock, false, 3), EngineAction::Handshake);
    let t: u64 = 4_000_000_000;
    assert_eq!(e.step(EngineEvent::HandshakeOk, false, t), EngineAction::Write);
    assert_eq!(e.state, EngineState::Sending);
    assert_eq!(e.snd, encode_request("h", 12, t));
}

#[test]
fn handshake_failure_backs_off_like_a_connect_failure() {
    let mut e = ClientEngine::new("h".to_string(), 12, true, false);
    e.step(EngineEvent::Ready, false, 1);
    e.step(EngineEvent::ConnectOk, false, 2);
    assert_eq!(e.step(EngineEvent::HandshakeFailed, false, 3), EngineAction::Backoff);
    assert_eq!(e.state, EngineState::Connecting);
    assert_eq!(e.step(EngineEvent::Ready, false, 4), EngineAction::Connect);
}

#[test]
fn cancellation_stops_at_any_boundary_and_keeps_the_count() {
    let mut e = plain_engine();
    drive_to_receiving(&mut e);
    e.step(EngineEvent::ReadSome(KEEP_ALIVE_RESP.to_vec()), false, 5);
    assert_eq!(e.n_sent, 1);
    let act = e.step(EngineEvent::WriteFailed, true, 6);
    assert_eq!(act, EngineAction::Stop);
    assert_eq!(e.state, EngineState::Done);
    assert_eq!(e.n_sent, 1);
    // Once done, the engine stays done.
    assert_eq!(e.step(EngineEvent::Ready, false, 7), EngineAction::Stop);
    assert_eq!(e.n_sent, 1);
}

#[test]
fn cancellation_before_counting_does_not_count() {
    let mut e = plain_engine();
    drive_to_receiving(&mut e);
    // The response may be complete in the buffer, but cancellation is
    // observed first.
    let act = e.step(EngineEvent::ReadSome(KEEP_ALIVE_RESP.to_vec()), true, 5);
    assert_eq!(act, EngineAction::Stop);
    assert_eq!(e.n_sent, 0);
}
