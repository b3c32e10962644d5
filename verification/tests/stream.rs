use lox_linein_bridge::models::SourceCommand;
use lox_linein_bridge::stream::{
    chunk_bytes_for_rate, chunk_interval, connect_plan, dispatch_command_frame,
    drain_bytes_for_tick, max_buffer_bytes_for_rate, read_ws_frame, Backoff, CommandAction,
    ConnectPlan, FrameOutcome, IngestTarget, SocketMessage, VadGate, CHUNK_MS,
};
use std::time::Duration;

const CHUNK: usize = 1920; // 10 ms of s16le stereo at 48 kHz

#[test]
fn a_backlog_is_drained_faster_than_it_arrives() {
    // A writer that sends exactly one chunk per tick can never win back time lost to a late tick
    // or a blocking write. The capture side keeps producing at the card's rate, so the deficit
    // accumulates until the buffer overflows.
    assert_eq!(drain_bytes_for_tick(CHUNK * 3, CHUNK), CHUNK * 3);
    assert_eq!(drain_bytes_for_tick(CHUNK * 2, CHUNK), CHUNK * 2);
}

#[test]
fn catch_up_is_capped_so_a_long_stall_does_not_dump_the_buffer() {
    // A 2 second backlog must not land on the socket in one write.
    assert_eq!(drain_bytes_for_tick(CHUNK * 50, CHUNK), CHUNK * 4);
}

#[test]
fn steady_state_sends_exactly_one_chunk() {
    assert_eq!(drain_bytes_for_tick(CHUNK, CHUNK), CHUNK);
    // A partial chunk on top of a whole one is left for the next tick: only whole chunks go out,
    // so the stream never carries a half frame.
    assert_eq!(drain_bytes_for_tick(CHUNK + 100, CHUNK), CHUNK);
}

#[test]
fn never_asks_for_more_than_is_queued() {
    // Callers only reach this with at least one whole chunk buffered, but the clamp floor must
    // not invent bytes if that ever changes.
    for len in [0usize, 1, CHUNK - 1] {
        assert_eq!(drain_bytes_for_tick(len, CHUNK), CHUNK);
    }
}

#[test]
fn buffer_is_two_seconds_not_one_period() {
    // 4800 dropped bytes is 1.25% of this, so a shortfall that small cannot be what overflows it.
    assert_eq!(max_buffer_bytes_for_rate(48_000), 48_000 * 4 * 2);
    assert_eq!(chunk_bytes_for_rate(48_000), CHUNK);
    assert_eq!(
        Duration::from_millis(chunk_interval()),
        Duration::from_millis(CHUNK_MS as u64)
    );
    assert_eq!(CHUNK_MS, 10);
}

#[test]
fn sizes_stay_within_32_bits() {
    assert_eq!(chunk_bytes_for_rate(0), 4);
    assert_eq!(chunk_bytes_for_rate(44_100), 1764);
    assert_eq!(chunk_bytes_for_rate(22_050), 880);
    assert_eq!(chunk_bytes_for_rate(11_025), 440);
    assert_eq!(chunk_bytes_for_rate(u32::MAX), 4_294_964);
    assert_eq!(max_buffer_bytes_for_rate(0), 0);
    assert_eq!(max_buffer_bytes_for_rate(u32::MAX), u32::MAX as usize);
}

#[test]
fn a_chunk_is_made_of_whole_frames_at_every_rate() {
    for rate in (0..200_000u32).chain(u32::MAX - 1_000..=u32::MAX) {
        let bytes = chunk_bytes_for_rate(rate);
        assert!(bytes >= 4 && bytes % 4 == 0, "{} at {}", bytes, rate);
        // Never longer than ten milliseconds, and short of them by less than a frame.
        let exact = rate.saturating_mul(4).saturating_mul(10) as usize / 1000;
        assert!(bytes == 4 || (bytes <= exact && exact < bytes + 4));
    }
}

#[test]
fn a_tick_never_overflows() {
    assert_eq!(drain_bytes_for_tick(usize::MAX, usize::MAX), usize::MAX);
    assert_eq!(drain_bytes_for_tick(usize::MAX, 1), 4);
    assert_eq!(drain_bytes_for_tick(3, usize::MAX), usize::MAX);
}

#[test]
fn the_delay_doubles_to_half_a_minute_and_starts_again() {
    let mut backoff = Backoff::new();
    let delays: Vec<u64> = (0..8).map(|_| backoff.next_delay()).collect();
    assert_eq!(delays, [1000, 2000, 4000, 8000, 16000, 30000, 30000, 30000]);
    backoff.reset();
    assert_eq!(backoff.next_delay(), 1000);
    assert_eq!(backoff.next_delay(), 2000);
}

#[test]
fn the_gate_is_held_for_the_hold_time() {
    let mut gate = VadGate::new();
    assert!(!gate.active);
    assert!(!gate.should_keep_active(5, 100));
    gate.hear(false, 5, 100);
    assert!(!gate.active);
    gate.hear(true, 10, 100);
    assert!(gate.active);
    gate.hear(false, 110, 100);
    assert!(gate.active);
    gate.hear(false, 111, 100);
    assert!(!gate.active);
    // Within a longer hold time a closed gate stays as it is.
    assert!(gate.should_keep_active(112, 1000));
    gate.hear(false, 112, 1000);
    assert!(!gate.active);
    // A clock that seems to run backwards counts as no time.
    assert!(gate.should_keep_active(3, 0));
}

#[test]
fn tcp_connects_to_host_and_port_and_sends_the_input_id() {
    let plan = connect_plan(&IngestTarget::Tcp {
        host: "192.168.1.209".to_string(),
        port: 7080,
        header: "linein-mke63267".to_string(),
    });
    match plan {
        ConnectPlan::Tcp { addr, header_line } => {
            assert_eq!(addr, "192.168.1.209:7080");
            assert_eq!(header_line, "linein-mke63267\n");
        }
        ConnectPlan::Ws { .. } => panic!("wrong transport"),
    }
}

#[test]
fn ws_connects_to_the_url() {
    match connect_plan(&IngestTarget::Ws {
        url: "ws://server/ingest".to_string(),
    }) {
        ConnectPlan::Ws { url } => assert_eq!(url, "ws://server/ingest"),
        ConnectPlan::Tcp { .. } => panic!("wrong transport"),
    }
}

#[test]
fn ports_are_decimal() {
    for port in [0u16, 7, 10, 99, 100, 1000, 65535] {
        let target = IngestTarget::Tcp {
            host: String::new(),
            port,
            header: String::new(),
        };
        match connect_plan(&target) {
            ConnectPlan::Tcp { addr, header_line } => {
                assert_eq!(addr, format!(":{}", port));
                assert_eq!(header_line, "\n");
            }
            ConnectPlan::Ws { .. } => panic!("wrong transport"),
        }
    }
}

#[test]
fn socket_messages_are_told_apart() {
    assert!(matches!(
        read_ws_frame(SocketMessage::Text("next".to_string())),
        FrameOutcome::Command(text) if text == "next"
    ));
    assert!(matches!(
        read_ws_frame(SocketMessage::Close),
        FrameOutcome::Lost(reason) if reason == "ingest socket closed by server"
    ));
    assert!(matches!(read_ws_frame(SocketMessage::Other), FrameOutcome::Nothing));
    assert!(matches!(
        read_ws_frame(SocketMessage::Failed("reset".to_string())),
        FrameOutcome::Lost(reason) if reason == "reset"
    ));
    assert!(matches!(
        read_ws_frame(SocketMessage::Ended),
        FrameOutcome::Lost(reason) if reason == "ingest socket ended"
    ));
}

#[test]
fn command_frames_are_json_or_a_bare_word() {
    let parsed = SourceCommand {
        command: "next".to_string(),
        args: vec!["2".to_string()],
    };
    match dispatch_command_frame(" {\"command\":\"next\",\"args\":[\"2\"]} ", Some(parsed)) {
        CommandAction::Run(command) => {
            assert_eq!(command.command, "next");
            assert_eq!(command.args, ["2"]);
        }
        other => panic!("{:?}", other),
    }
    match dispatch_command_frame("  a-new-command\n", None) {
        CommandAction::Run(command) => {
            assert_eq!(command.command, "a-new-command");
            assert!(command.args.is_empty());
        }
        other => panic!("{:?}", other),
    }
    assert!(matches!(dispatch_command_frame(" \t\n", None), CommandAction::Skip));
    assert!(matches!(dispatch_command_frame("", None), CommandAction::Skip));
    assert!(matches!(dispatch_command_frame("{\"x\"", None), CommandAction::Malformed));
    assert!(matches!(dispatch_command_frame(" [1,2]", None), CommandAction::Malformed));
}
