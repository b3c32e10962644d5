use lox_linein_bridge::session::{
    capture_closed, on_capture_error, GateChange, Step, StreamSession, Tally, TickAction,
};
use lox_linein_bridge::status::StatusHandle;
use lox_linein_bridge::stream::{ConnectPlan, FrameOutcome, IngestTarget};

const MS: u128 = 1_000_000;
const SECOND: u128 = 1_000 * MS;

/// At this rate a chunk has 4 bytes and the buffer 8.
const TINY: u32 = 1;
/// At this rate a chunk has 40 bytes and the buffer 8000.
const SLOW: u32 = 1_000;

fn ws() -> IngestTarget {
    IngestTarget::Ws {
        url: "ws://server/ingest".to_string(),
    }
}

fn session(rate: u32) -> (StreamSession<f32>, StatusHandle<f32>) {
    (
        StreamSession::new(ws(), -45.0, 2 * SECOND, rate, 0),
        StatusHandle::new("hw:0", "ws"),
    )
}

fn streaming(rate: u32) -> (StreamSession<f32>, StatusHandle<f32>) {
    let (mut session, mut status) = session(rate);
    session.on_connected(&mut status);
    let change = session.on_chunk(vec![], Some(-10.0), true, 0, &mut status);
    assert_eq!(change, GateChange::Opened { track_change: false });
    (session, status)
}

fn payload(action: TickAction) -> Vec<u8> {
    match action {
        TickAction::Send(payload) => payload,
        other => panic!("{:?}", other),
    }
}

fn state(status: &mut StatusHandle<f32>) -> String {
    status.bridge_status().state
}

fn error(status: &mut StatusHandle<f32>) -> Option<String> {
    status.bridge_status().last_error
}

#[test]
fn a_session_connects_and_backs_off() {
    let (mut session, mut status) = session(SLOW);
    assert_eq!(state(&mut status), "IDLE");
    match session.next_step(&mut status) {
        Step::Connect(ConnectPlan::Ws { url }) => assert_eq!(url, "ws://server/ingest"),
        other => panic!("{:?}", other),
    }
    assert_eq!(state(&mut status), "RECONNECTING");
    assert_eq!(session.on_connect_failed("refused".to_string(), &mut status), 1000);
    assert_eq!(error(&mut status), Some("refused".to_string()));
    assert_eq!(session.on_connect_failed("refused".to_string(), &mut status), 2000);
    session.on_connected(&mut status);
    assert_eq!(state(&mut status), "STREAMING");
    assert_eq!(error(&mut status), None);
    assert!(matches!(session.next_step(&mut status), Step::Wait));
    session.on_lost("broken pipe".to_string(), &mut status);
    assert_eq!(error(&mut status), Some("broken pipe".to_string()));
    assert!(matches!(session.next_step(&mut status), Step::Connect(_)));
    // The delay starts over after a connection.
    assert_eq!(session.on_connect_failed("refused".to_string(), &mut status), 1000);
}

#[test]
fn nothing_is_sent_before_sound_or_without_a_connection() {
    let (mut session, mut status) = session(TINY);
    session.on_connected(&mut status);
    session.on_chunk(vec![1, 2, 3, 4], Some(-60.0), false, 0, &mut status);
    assert_eq!(state(&mut status), "IDLE");
    assert!(matches!(session.on_tick(), TickAction::Idle));
    session.on_chunk(vec![], Some(-10.0), true, MS, &mut status);
    session.on_lost("gone".to_string(), &mut status);
    assert!(matches!(session.on_tick(), TickAction::Idle));
    session.on_connected(&mut status);
    // What was queued meanwhile goes out in order.
    assert_eq!(payload(session.on_tick()), [1, 2, 3, 4]);
}

#[test]
fn sent_bytes_are_captured_bytes_in_order() {
    let (mut session, mut status) = streaming(SLOW);
    let captured: Vec<u8> = (0..250u32).map(|i| i as u8).collect();
    let mut sent = Vec::new();
    for part in captured.chunks(50) {
        session.on_chunk(part.to_vec(), Some(-10.0), true, MS, &mut status);
    }
    // Six whole chunks are queued: four go out at once, then the other two.
    let first = payload(session.on_tick());
    assert_eq!(first.len(), 160);
    sent.extend(first);
    let second = payload(session.on_tick());
    assert_eq!(second.len(), 80);
    sent.extend(second);
    assert_eq!(sent, captured[..240]);
    // The rest is less than a chunk and is neither sent nor padded.
    assert!(matches!(session.on_tick(), TickAction::Short));
    assert_eq!(session.counters().underrun_bytes, 30);
    session.on_chunk(vec![7; 30], Some(-10.0), true, MS, &mut status);
    let third = payload(session.on_tick());
    assert_eq!(third[..10], captured[240..]);
    assert_eq!(third[10..], [7; 30]);
}

#[test]
fn a_full_buffer_drops_the_oldest_bytes_and_counts_them() {
    let (mut session, mut status) = streaming(TINY);
    session.on_chunk((0..6).collect(), Some(-10.0), true, MS, &mut status);
    assert_eq!(session.counters().overrun_bytes, 0);
    session.on_chunk((6..11).collect(), Some(-10.0), true, MS, &mut status);
    assert_eq!(session.counters().overrun_bytes, 3);
    assert_eq!(payload(session.on_tick()), [3, 4, 5, 6, 7, 8, 9, 10]);
    // A chunk longer than the buffer leaves its own end.
    session.on_chunk((100..120).collect(), Some(-10.0), true, MS, &mut status);
    assert_eq!(session.counters().overrun_bytes, 15);
    assert_eq!(
        payload(session.on_tick()),
        [112, 113, 114, 115, 116, 117, 118, 119]
    );
}

#[test]
fn silence_ends_the_stream_after_the_hold_time() {
    let (mut session, mut status) = streaming(TINY);
    session.on_sent(4, "t".to_string(), &mut status);
    let quiet = |session: &mut StreamSession<f32>, status: &mut StatusHandle<f32>, at| {
        session.on_chunk(vec![1, 2, 3, 4], Some(-60.0), false, at, status)
    };
    assert_eq!(quiet(&mut session, &mut status, 2 * SECOND), GateChange::Unchanged);
    assert_eq!(state(&mut status), "STREAMING");
    assert_eq!(payload(session.on_tick()), [1, 2, 3, 4]);
    assert_eq!(quiet(&mut session, &mut status, 2 * SECOND + 1), GateChange::Closed);
    assert_eq!(state(&mut status), "IDLE");
    assert!(matches!(session.on_tick(), TickAction::Idle));
    // What was queued is gone when sound returns.
    session.on_chunk(vec![9, 9, 9, 9], Some(-10.0), true, 3 * SECOND, &mut status);
    assert_eq!(payload(session.on_tick()), [9, 9, 9, 9]);
    assert!(matches!(session.on_tick(), TickAction::Short));
}

#[test]
fn a_gap_of_two_seconds_is_a_track_change() {
    for (gap, expected) in [(2 * SECOND - 1, false), (2 * SECOND, true)] {
        let (mut session, mut status) = streaming(TINY);
        let closed = 3 * SECOND;
        let quiet = session.on_chunk(vec![], Some(-60.0), false, closed, &mut status);
        assert_eq!(quiet, GateChange::Closed);
        let loud = session.on_chunk(vec![], Some(-10.0), true, closed + gap, &mut status);
        assert_eq!(loud, GateChange::Opened { track_change: expected });
        let told = if expected { Some(true) } else { None };
        assert_eq!(status.bridge_status().track_change, told);
        assert_eq!(status.bridge_status().track_change, None);
    }
}

#[test]
fn a_chunk_without_samples_is_not_heard() {
    let (mut session, mut status) = streaming(TINY);
    let change = session.on_chunk(vec![5], None, false, 100 * SECOND, &mut status);
    assert_eq!(change, GateChange::Unchanged);
    assert_eq!(status.bridge_status().rms_db, None);
    // The sound gate is still open, and the byte is queued.
    session.on_chunk(vec![6, 7, 8], Some(-10.0), true, 100 * SECOND, &mut status);
    assert_eq!(status.bridge_status().rms_db, Some(-10.0));
    assert_eq!(payload(session.on_tick()), [5, 6, 7, 8]);
}

#[test]
fn new_settings_leave_the_stream_alone() {
    let (mut session, mut status) = streaming(TINY);
    session.on_chunk(vec![1, 2, 3, 4], Some(-10.0), true, 0, &mut status);
    session.on_vad_update(-30.0, SECOND);
    assert!(matches!(session.next_step(&mut status), Step::Wait));
    assert_eq!(payload(session.on_tick()), [1, 2, 3, 4]);
    // The new hold time counts from the last loud chunk.
    let change = session.on_chunk(vec![], Some(-60.0), false, SECOND + 1, &mut status);
    assert_eq!(change, GateChange::Closed);
}

#[test]
fn sent_bytes_are_recorded() {
    let (mut session, mut status) = streaming(TINY);
    session.on_chunk(vec![], Some(-60.0), false, 3 * SECOND, &mut status);
    assert_eq!(state(&mut status), "IDLE");
    session.on_sent(8, "2026-01-01T00:00:00Z".to_string(), &mut status);
    session.on_sent(4, "2026-01-01T00:00:01Z".to_string(), &mut status);
    assert_eq!(session.counters().bytes_since_log, 12);
    assert_eq!(state(&mut status), "STREAMING");
    let health = status.health_snapshot("now".to_string());
    assert_eq!(health.bytes_sent_total, 12);
    assert_eq!(health.last_chunk_ts.as_deref(), Some("2026-01-01T00:00:01Z"));
}

#[test]
fn counts_are_reported_every_five_seconds() {
    let (mut session, mut status) = streaming(TINY);
    session.on_sent(400, "t".to_string(), &mut status);
    session.on_chunk(vec![0; 11], Some(-10.0), true, 0, &mut status);
    let early = session.take_reports(5 * SECOND - 1);
    assert_eq!((early.throughput, early.overrun, early.underrun), (None, None, None));
    let due = session.take_reports(5 * SECOND);
    assert_eq!(
        due.throughput,
        Some(Tally { bytes: 400, elapsed_ns: 5 * SECOND })
    );
    assert_eq!(
        due.overrun,
        Some(Tally { bytes: 3, elapsed_ns: 5 * SECOND })
    );
    assert_eq!(due.underrun, None);
    assert_eq!(session.counters().bytes_since_log, 0);
    assert_eq!(session.counters().overrun_bytes, 0);
    payload(session.on_tick());
    assert!(matches!(session.on_tick(), TickAction::Short));
    // The shortfall has been collected since the start, the rest since the last report.
    let next = session.take_reports(6 * SECOND);
    assert_eq!(next.throughput, None);
    assert_eq!(next.overrun, None);
    assert_eq!(
        next.underrun,
        Some(Tally { bytes: 4, elapsed_ns: 6 * SECOND })
    );
    // Throughput is reported even if nothing was sent.
    let idle = session.take_reports(10 * SECOND);
    assert_eq!(
        idle.throughput,
        Some(Tally { bytes: 0, elapsed_ns: 5 * SECOND })
    );
}

#[test]
fn frames_carry_commands_or_the_loss_of_the_connection() {
    let (mut session, mut status) = streaming(TINY);
    let text = session.on_frame(FrameOutcome::Command("next".to_string()), &mut status);
    assert_eq!(text.as_deref(), Some("next"));
    assert!(session.on_frame(FrameOutcome::Nothing, &mut status).is_none());
    assert!(matches!(session.next_step(&mut status), Step::Wait));
    let lost = FrameOutcome::Lost("ingest socket ended".to_string());
    assert!(session.on_frame(lost, &mut status).is_none());
    assert_eq!(error(&mut status).as_deref(), Some("ingest socket ended"));
    assert!(matches!(session.next_step(&mut status), Step::Connect(_)));
}

#[test]
fn capture_errors_end_a_session() {
    let (_, mut status) = session(TINY);
    assert_eq!(capture_closed(), "audio capture channel closed");
    assert_eq!(
        on_capture_error(Some("capture error: gone".to_string()), &mut status),
        "capture error: gone"
    );
    assert_eq!(error(&mut status).as_deref(), Some("capture error: gone"));
    assert_eq!(
        on_capture_error(None, &mut status),
        "audio capture error channel closed"
    );
    assert_eq!(
        error(&mut status).as_deref(),
        Some("audio capture error channel closed")
    );
}

#[test]
fn a_chunk_is_loud_from_the_threshold_on() {
    let reaches = |level: f32, threshold: f32| level >= threshold;
    let (mut session, mut status) = session(TINY);
    let quiet = session.on_captured(vec![], Some(-45.1), reaches, 0, &mut status);
    assert_eq!(quiet, GateChange::Unchanged);
    let absent = session.on_captured(vec![], None, reaches, 0, &mut status);
    assert_eq!(absent, GateChange::Unchanged);
    let loud = session.on_captured(vec![], Some(-45.0), reaches, 0, &mut status);
    assert_eq!(loud, GateChange::Opened { track_change: false });
    assert_eq!(status.bridge_status().rms_db, Some(-45.0));
    // A new threshold counts from the next chunk on.
    session.on_vad_update(-30.0, 0);
    let below = session.on_captured(vec![], Some(-45.0), reaches, 1, &mut status);
    assert_eq!(below, GateChange::Closed);
}

#[test]
fn the_stream_never_carries_half_a_frame() {
    // Each frame holds its number on both sides, so that a shift by half a frame shows.
    let mut number: u16 = 0;
    let mut frames = |count: usize| {
        let mut bytes = Vec::new();
        for _ in 0..count {
            number = number.wrapping_add(1);
            bytes.extend(number.to_le_bytes());
            bytes.extend(number.to_le_bytes());
        }
        bytes
    };
    for rate in [8_000, 11_025, 22_050, 44_100, 48_000] {
        let (mut session, mut status) = streaming(rate);
        let mut now = 0;
        for round in 0..40u128 {
            now += SECOND;
            session.on_chunk(frames(331), Some(-10.0), true, now, &mut status);
            // Some ticks send one chunk, some several, and some wait.
            for _ in 0..round % 4 {
                if let TickAction::Send(payload) = session.on_tick() {
                    assert_eq!(payload.len() % 4, 0);
                    for frame in payload.chunks(4) {
                        assert_eq!(frame[..2], frame[2..]);
                    }
                }
            }
            // Silence clears the queue in between.
            if round % 7 == 6 {
                now += 3 * SECOND;
                session.on_chunk(frames(5), Some(-60.0), false, now, &mut status);
            }
        }
    }
}

#[test]
fn silence_is_counted_from_the_last_closing() {
    let (mut session, mut status) = streaming(TINY);
    let mut hear = |loud: bool, at: u128| {
        session.on_chunk(vec![], Some(0.0), loud, at, &mut status)
    };
    // The hold time runs from the latest loud chunk, not from the first.
    assert_eq!(hear(true, SECOND), GateChange::Unchanged);
    assert_eq!(hear(false, 3 * SECOND), GateChange::Unchanged);
    assert_eq!(hear(false, 3 * SECOND + 1), GateChange::Closed);
    // More silence does not move the closing.
    assert_eq!(hear(false, 4 * SECOND), GateChange::Unchanged);
    assert_eq!(hear(true, 5 * SECOND + 1), GateChange::Opened { track_change: true });
    // After another closing only that one counts.
    assert_eq!(hear(false, 8 * SECOND), GateChange::Closed);
    assert_eq!(hear(true, 9 * SECOND), GateChange::Opened { track_change: false });
}
