use lox_linein_bridge::status::StatusHandle;

#[test]
fn a_new_bridge_is_idle() {
    let mut status: StatusHandle<f32> = StatusHandle::new("", "tcp");
    let report = status.bridge_status();
    assert_eq!(report.state, "IDLE");
    // A device without a name is left out.
    assert_eq!(report.device, None);
    assert_eq!(report.rate, None);
    assert_eq!(report.channels, None);
    assert_eq!(report.format, None);
    assert_eq!(report.observed_rate, None);
    assert_eq!(report.rms_db, None);
    assert_eq!(report.last_error, None);
    assert_eq!(report.track_change, None);
    assert!(report.capture_devices.is_none());
    let health = status.health_snapshot("now".to_string());
    assert_eq!(health.ts, "now");
    assert_eq!(health.ingest, "tcp");
    assert_eq!(health.bytes_sent_total, 0);
    assert_eq!(health.last_chunk_ts, None);
}

#[test]
fn every_setting_is_reported() {
    let mut status: StatusHandle<f32> = StatusHandle::new("a", "b");
    status.set_state("STREAMING");
    status.set_device("hw:1");
    status.set_ingest("ws");
    status.set_last_error(Some("oops".to_string()));
    status.set_capture_info(48_000, 2, "F32".to_string());
    status.set_observed_rate(47_998);
    status.set_rms_db(Some(-12.5));
    let report = status.bridge_status();
    assert_eq!(report.state, "STREAMING");
    assert_eq!(report.device.as_deref(), Some("hw:1"));
    assert_eq!(report.rate, Some(48_000));
    assert_eq!(report.channels, Some(2));
    assert_eq!(report.format.as_deref(), Some("F32"));
    assert_eq!(report.observed_rate, Some(47_998));
    assert_eq!(report.rms_db, Some(-12.5));
    assert_eq!(report.last_error.as_deref(), Some("oops"));
    let health = status.health_snapshot("t".to_string());
    assert_eq!(health.state, "STREAMING");
    assert_eq!(health.device, "hw:1");
    assert_eq!(health.ingest, "ws");
    assert_eq!(health.last_error.as_deref(), Some("oops"));
    status.set_last_error(None);
    assert_eq!(status.bridge_status().last_error, None);
}

#[test]
fn a_track_change_is_reported_once_and_nothing_else_changes() {
    let mut status: StatusHandle<f32> = StatusHandle::new("a", "b");
    status.set_rms_db(Some(-1.0));
    status.set_track_change();
    let first = status.bridge_status();
    let second = status.bridge_status();
    assert_eq!(first.track_change, Some(true));
    assert_eq!(second.track_change, None);
    assert_eq!(second.rms_db, first.rms_db);
    assert_eq!(second.device, first.device);
    status.set_track_change();
    assert_eq!(status.bridge_status().track_change, Some(true));
}

#[test]
fn the_total_of_bytes_stops_at_the_largest_number() {
    let mut status: StatusHandle<f32> = StatusHandle::new("a", "b");
    status.record_bytes(7, "one".to_string());
    status.record_bytes(usize::MAX, "two".to_string());
    let health = status.health_snapshot("t".to_string());
    assert_eq!(health.bytes_sent_total, 7u64.saturating_add(usize::MAX as u64));
    assert_eq!(health.last_chunk_ts.as_deref(), Some("two"));
}
