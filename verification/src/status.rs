//! The state of the bridge as it is shown to the server and on the health page.
//!
//! A level in decibels has the type parameter `L`. A time of day is the text
//! that the embedding program shows it as.

use vstd::prelude::*;

use crate::models::BridgeStatusRequest;
use crate::text::copy_text;

verus! {

/// The state of the bridge.
#[derive(Debug)]
pub struct StatusHandle<L> {
    state: String,
    device: String,
    ingest: String,
    last_error: Option<String>,
    rate: Option<u32>,
    channels: Option<u16>,
    format: Option<String>,
    observed_rate: Option<u32>,
    rms_db: Option<L>,
    track_change: bool,
    bytes_sent_total: u64,
    last_chunk_ts: Option<String>,
}

/// What a [`StatusHandle`] stands for.
#[verifier::ext_equal]
pub struct StatusView<L> {
    pub state: Seq<char>,
    pub device: Seq<char>,
    pub ingest: Seq<char>,
    pub last_error: Option<Seq<char>>,
    pub rate: Option<u32>,
    pub channels: Option<u16>,
    pub format: Option<Seq<char>>,
    pub observed_rate: Option<u32>,
    pub rms_db: Option<L>,
    /// A new track has begun since the last report.
    pub track_change: bool,
    pub bytes_sent_total: u64,
    pub last_chunk_ts: Option<Seq<char>>,
}

impl<L> View for StatusHandle<L> {
    type V = StatusView<L>;

    closed spec fn view(&self) -> StatusView<L> {
        StatusView {
            state: self.state@,
            device: self.device@,
            ingest: self.ingest@,
            last_error: crate::text::text_of(self.last_error),
            rate: self.rate,
            channels: self.channels,
            format: crate::text::text_of(self.format),
            observed_rate: self.observed_rate,
            rms_db: self.rms_db,
            track_change: self.track_change,
            bytes_sent_total: self.bytes_sent_total,
            last_chunk_ts: crate::text::text_of(self.last_chunk_ts),
        }
    }
}

/// A bridge that has done nothing yet.
pub open spec fn idle_status<L>(device: Seq<char>, ingest: Seq<char>) -> StatusView<L> {
    StatusView {
        state: "IDLE"@,
        device,
        ingest,
        last_error: None,
        rate: None,
        channels: None,
        format: None,
        observed_rate: None,
        rms_db: None,
        track_change: false,
        bytes_sent_total: 0,
        last_chunk_ts: None,
    }
}

/// The total after `bytes` more have been sent. It stops at the largest number.
pub open spec fn total_after(total: u64, bytes: usize) -> u64 {
    if total + bytes > u64::MAX {
        u64::MAX
    } else {
        (total + bytes) as u64
    }
}

/// The state after `bytes` have been sent at the time `ts`.
pub open spec fn status_sent<L>(status: StatusView<L>, bytes: usize, ts: Seq<char>) -> StatusView<
    L,
> {
    StatusView {
        bytes_sent_total: total_after(status.bytes_sent_total, bytes),
        last_chunk_ts: Some(ts),
        ..status
    }
}

/// The state after a report to the server: the track change has been told.
pub open spec fn status_reported<L>(status: StatusView<L>) -> StatusView<L> {
    StatusView { track_change: false, ..status }
}

/// Whether `request` reports `status`.
pub open spec fn reports_status<L>(
    request: BridgeStatusRequest<L>,
    status: StatusView<L>,
) -> bool {
    &&& request.state@ == status.state
    &&& crate::text::text_of(request.device) == (if status.device.len() == 0 {
        None
    } else {
        Some(status.device)
    })
    &&& request.rate == status.rate
    &&& request.channels == status.channels
    &&& crate::text::text_of(request.format) == status.format
    &&& request.observed_rate == status.observed_rate
    &&& request.rms_db == status.rms_db
    &&& crate::text::text_of(request.last_error) == status.last_error
    &&& request.track_change == (if status.track_change {
        Some(true)
    } else {
        None
    })
    &&& request.capture_devices is None
}

/// What the health page shows.
#[derive(Debug)]
pub struct HealthSnapshot {
    pub ts: String,
    pub state: String,
    pub device: String,
    pub ingest: String,
    pub last_error: Option<String>,
    pub bytes_sent_total: u64,
    pub last_chunk_ts: Option<String>,
}

impl<L> StatusHandle<L> {
    /// A bridge that has done nothing yet.
    pub fn new(device: &str, ingest: &str) -> (r: Self)
        ensures
            r@ == idle_status::<L>(device@, ingest@),
    {
        StatusHandle {
            state: "IDLE".to_owned(),
            device: device.to_owned(),
            ingest: ingest.to_owned(),
            last_error: None,
            rate: None,
            channels: None,
            format: None,
            observed_rate: None,
            rms_db: None,
            track_change: false,
            bytes_sent_total: 0,
            last_chunk_ts: None,
        }
    }

    pub fn set_state(&mut self, state: &str)
        ensures
            final(self)@ == (StatusView { state: state@, ..old(self)@ }),
    {
        self.state = state.to_owned();
    }

    pub fn set_last_error(&mut self, error: Option<String>)
        ensures
            final(self)@ == (StatusView { last_error: crate::text::text_of(error), ..old(self)@ }),
    {
        self.last_error = error;
    }

    pub fn set_device(&mut self, device: &str)
        ensures
            final(self)@ == (StatusView { device: device@, ..old(self)@ }),
    {
        self.device = device.to_owned();
    }

    pub fn set_capture_info(&mut self, rate: u32, channels: u16, format: String)
        ensures
            final(self)@ == (StatusView {
                rate: Some(rate),
                channels: Some(channels),
                format: Some(format@),
                ..old(self)@
            }),
    {
        self.rate = Some(rate);
        self.channels = Some(channels);
        self.format = Some(format);
    }

    pub fn set_observed_rate(&mut self, rate: u32)
        ensures
            final(self)@ == (StatusView { observed_rate: Some(rate), ..old(self)@ }),
    {
        self.observed_rate = Some(rate);
    }

    pub fn set_rms_db(&mut self, rms_db: Option<L>)
        ensures
            final(self)@ == (StatusView { rms_db, ..old(self)@ }),
    {
        self.rms_db = rms_db;
    }

    /// Notes that a new track has begun, for the next report.
    pub fn set_track_change(&mut self)
        ensures
            final(self)@ == (StatusView { track_change: true, ..old(self)@ }),
    {
        self.track_change = true;
    }

    /// Counts bytes that were sent at the time `ts`.
    pub fn record_bytes(&mut self, bytes: usize, ts: String)
        ensures
            final(self)@ == status_sent(old(self)@, bytes, ts@),
    {
        self.bytes_sent_total = self.bytes_sent_total.saturating_add(bytes as u64);
        self.last_chunk_ts = Some(ts);
    }

    pub fn set_ingest(&mut self, ingest: &str)
        ensures
            final(self)@ == (StatusView { ingest: ingest@, ..old(self)@ }),
    {
        self.ingest = ingest.to_owned();
    }

    /// What the health page shows at the time `ts`.
    pub fn health_snapshot(&self, ts: String) -> (r: HealthSnapshot)
        ensures
            r.ts == ts,
            r.state@ == self@.state,
            r.device@ == self@.device,
            r.ingest@ == self@.ingest,
            crate::text::text_of(r.last_error) == self@.last_error,
            r.bytes_sent_total == self@.bytes_sent_total,
            crate::text::text_of(r.last_chunk_ts) == self@.last_chunk_ts,
    {
        HealthSnapshot {
            ts,
            state: self.state.clone(),
            device: self.device.clone(),
            ingest: self.ingest.clone(),
            last_error: copy_text(&self.last_error),
            bytes_sent_total: self.bytes_sent_total,
            last_chunk_ts: copy_text(&self.last_chunk_ts),
        }
    }
}

impl<L: Copy> StatusHandle<L> {
    /// The next report to the server. A track change is told once.
    pub fn bridge_status(&mut self) -> (r: BridgeStatusRequest<L>)
        ensures
            reports_status(r, old(self)@),
            final(self)@ == status_reported(old(self)@),
    {
        let track_change = if self.track_change {
            self.track_change = false;
            Some(true)
        } else {
            None
        };
        let device = if self.device.as_str().is_empty() {
            None
        } else {
            Some(self.device.clone())
        };
        BridgeStatusRequest {
            state: self.state.clone(),
            device,
            rate: self.rate,
            channels: self.channels,
            format: copy_text(&self.format),
            observed_rate: self.observed_rate,
            rms_db: self.rms_db,
            last_error: copy_text(&self.last_error),
            track_change,
            capture_devices: None,
        }
    }
}

/// A track change is told in one report and not in the next.
pub proof fn law_track_change_is_told_once<L>(
    status: StatusView<L>,
    first: BridgeStatusRequest<L>,
    second: BridgeStatusRequest<L>,
)
    requires
        status.track_change,
        reports_status(first, status),
        reports_status(second, status_reported(status)),
    ensures
        first.track_change == Some(true),
        second.track_change is None,
{
}

/// A report changes nothing but that: the next one says the same otherwise.
pub proof fn law_reporting_changes_nothing_else<L>(
    status: StatusView<L>,
    first: BridgeStatusRequest<L>,
    second: BridgeStatusRequest<L>,
)
    requires
        reports_status(first, status),
        reports_status(second, status_reported(status)),
    ensures
        second.state@ == first.state@,
        crate::text::text_of(second.device) == crate::text::text_of(first.device),
        second.rate == first.rate,
        second.channels == first.channels,
        crate::text::text_of(second.format) == crate::text::text_of(first.format),
        second.observed_rate == first.observed_rate,
        second.rms_db == first.rms_db,
        crate::text::text_of(second.last_error) == crate::text::text_of(first.last_error),
{
}

/// The total of sent bytes never goes down.
pub proof fn law_total_never_decreases<L>(status: StatusView<L>, bytes: usize, ts: Seq<char>)
    ensures
        status_sent(status, bytes, ts).bytes_sent_total >= status.bytes_sent_total,
{
}

/// A new bridge is idle, knows its device and ingest, and nothing else.
pub proof fn law_new_bridge_is_idle<L>(device: Seq<char>, ingest: Seq<char>)
    ensures
        ({
            let status = idle_status::<L>(device, ingest);
            &&& status.state == "IDLE"@
            &&& status.device == device
            &&& status.ingest == ingest
            &&& status.last_error is None
            &&& status.rate is None
            &&& status.channels is None
            &&& status.format is None
            &&& status.observed_rate is None
            &&& status.rms_db is None
            &&& !status.track_change
            &&& status.bytes_sent_total == 0
            &&& status.last_chunk_ts is None
        }),
{
}

/// Sent bytes add up, to the largest 64-bit number at most. The time of the last ones is
/// kept, and nothing else changes.
pub proof fn law_sent_bytes_add_up<L>(status: StatusView<L>, bytes: usize, ts: Seq<char>)
    ensures
        ({
            let after = status_sent(status, bytes, ts);
            &&& status.bytes_sent_total + bytes <= u64::MAX ==> after.bytes_sent_total
                == status.bytes_sent_total + bytes
            &&& status.bytes_sent_total + bytes > u64::MAX ==> after.bytes_sent_total == u64::MAX
            &&& after.last_chunk_ts == Some(ts)
            &&& after == (StatusView {
                bytes_sent_total: after.bytes_sent_total,
                last_chunk_ts: after.last_chunk_ts,
                ..status
            })
        }),
{
}

/// A report says what the state is, field by field. A device without a name is left out,
/// and a track change is told only if there was one.
pub proof fn law_report_tells_the_state<L>(request: BridgeStatusRequest<L>, status: StatusView<L>)
    requires
        reports_status(request, status),
    ensures
        request.state@ == status.state,
        request.device is None <==> status.device.len() == 0,
        request.device matches Some(device) ==> device@ == status.device,
        request.rate == status.rate,
        request.channels == status.channels,
        request.format is Some <==> status.format is Some,
        request.format matches Some(format) ==> status.format == Some(format@),
        request.observed_rate == status.observed_rate,
        request.rms_db == status.rms_db,
        request.last_error is Some <==> status.last_error is Some,
        request.last_error matches Some(error) ==> status.last_error == Some(error@),
        status.track_change ==> request.track_change == Some(true),
        !status.track_change ==> request.track_change is None,
        request.capture_devices is None,
        status_reported(status) == (StatusView { track_change: false, ..status }),
{
}

} // verus!
