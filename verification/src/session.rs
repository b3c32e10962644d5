//! One streaming session: from captured chunks to paced writes.
//!
//! The embedding program owns the socket, the capture channel and the clock. It
//! tells the session what happened, by one call per event, and does what the call
//! returns. The transports differ only in how the program connects and writes.

use std::collections::VecDeque;
use vstd::prelude::*;

use crate::status::StatusHandle;
use crate::stream::{
    chunk_bytes_for_rate, connect_plan, drain_bytes_for_tick, max_buffer_bytes_for_rate, Backoff,
    ConnectPlan, FrameOutcome, IngestTarget, VadGate, TRACK_GAP_NS,
};

verus! {

/// Counts are reported at most this often.
pub const REPORT_INTERVAL_NS: u128 = 5_000_000_000;

/// What is counted for the log, and since when.
#[derive(Debug, Clone, Copy, PartialEq, Eq)]
pub struct Counters {
    pub last_rate_log_ns: u128,
    /// Bytes sent.
    pub bytes_since_log: u64,
    pub overrun_since_ns: u128,
    /// Bytes dropped because the buffer was full.
    pub overrun_bytes: u64,
    pub underrun_since_ns: u128,
    /// Bytes that ticks waited for.
    pub underrun_bytes: u64,
}

/// A count and the time it was collected over.
#[derive(Debug, Clone, Copy, PartialEq, Eq)]
pub struct Tally {
    pub bytes: u64,
    pub elapsed_ns: u128,
}

/// The counts that are due.
#[derive(Debug, Clone, Copy, PartialEq, Eq)]
pub struct Reports {
    pub throughput: Option<Tally>,
    pub overrun: Option<Tally>,
    pub underrun: Option<Tally>,
}

/// What comes next.
#[derive(Debug)]
pub enum Step {
    /// There is no connection: try to connect.
    Connect(ConnectPlan),
    /// Wait for the next event.
    Wait,
}

/// What a chunk did to the sound gate.
#[derive(Debug, Clone, Copy, PartialEq, Eq)]
pub enum GateChange {
    Unchanged,
    /// Sound was detected, perhaps that of a new track.
    Opened { track_change: bool },
    /// Silence was detected.
    Closed,
}

/// What a tick asks for.
#[derive(Debug)]
pub enum TickAction {
    /// Nothing is to be streamed.
    Idle,
    /// Less than a chunk is queued: wait for the next tick. Padding with silence
    /// would splice a gap into the audio.
    Short,
    /// Write these bytes.
    Send(Vec<u8>),
}

/// A streaming session.
#[derive(Debug)]
pub struct StreamSession<L> {
    ingest: IngestTarget,
    output_rate: u32,
    connected: bool,
    backoff: Backoff,
    gate: VadGate,
    threshold_db: L,
    hold_ns: u128,
    idle_since_ns: Option<u128>,
    chunk_bytes: usize,
    max_pending: usize,
    pending: VecDeque<u8>,
    counters: Counters,
}

/// What a [`StreamSession`] stands for.
#[verifier::ext_equal]
pub struct SessionView<L> {
    pub ingest: IngestTarget,
    pub output_rate: u32,
    pub connected: bool,
    /// The delay before the next attempt to connect, in milliseconds.
    pub delay_ms: u64,
    pub gate: VadGate,
    pub threshold_db: L,
    pub hold_ns: u128,
    /// When the sound gate was last closed, until it opens.
    pub idle_since_ns: Option<u128>,
    /// The bytes that wait to be sent, the oldest first.
    pub pending: Seq<u8>,
    pub counters: Counters,
}

impl<L> View for StreamSession<L> {
    type V = SessionView<L>;

    closed spec fn view(&self) -> SessionView<L> {
        SessionView {
            ingest: self.ingest,
            output_rate: self.output_rate,
            connected: self.connected,
            delay_ms: self.backoff@,
            gate: self.gate,
            threshold_db: self.threshold_db,
            hold_ns: self.hold_ns,
            idle_since_ns: self.idle_since_ns,
            pending: self.pending@,
            counters: self.counters,
        }
    }
}

/// How many of the queued bytes are dropped to make room for `arriving` more.
pub open spec fn overflow<L>(session: SessionView<L>, arriving: int) -> int {
    let excess = session.pending.len() + arriving - crate::stream::queue_limit(
        session.output_rate,
    );
    if excess > 0 {
        excess
    } else {
        0
    }
}

/// The session with a chunk queued: the newest two seconds are kept.
pub open spec fn queued<L>(session: SessionView<L>, chunk: Seq<u8>) -> SessionView<L> {
    SessionView {
        pending: crate::resampler::newest(
            session.pending + chunk,
            crate::stream::queue_limit(session.output_rate),
        ),
        counters: Counters {
            overrun_bytes: (session.counters.overrun_bytes + overflow(
                session,
                chunk.len() as int,
            )) as u64,
            ..session.counters
        },
        ..session
    }
}

/// What a chunk does to the sound gate. A chunk without samples is not heard.
pub open spec fn gate_change<L>(
    session: SessionView<L>,
    heard: bool,
    loud: bool,
    now_ns: u128,
) -> GateChange {
    let gate = crate::stream::gate_after(session.gate, loud, now_ns, session.hold_ns);
    if !heard || gate.active == session.gate.active {
        GateChange::Unchanged
    } else if gate.active {
        GateChange::Opened {
            track_change: session.idle_since_ns matches Some(since) && crate::resampler::elapsed(
                since,
                now_ns,
            ) >= TRACK_GAP_NS,
        }
    } else {
        GateChange::Closed
    }
}

/// The session after a chunk. Where the chunk closes the sound gate, what is queued is
/// forgotten.
pub open spec fn session_after_chunk<L>(
    session: SessionView<L>,
    chunk: Seq<u8>,
    heard: bool,
    loud: bool,
    now_ns: u128,
) -> SessionView<L> {
    let next = queued(session, chunk);
    if !heard {
        next
    } else {
        let gate = crate::stream::gate_after(session.gate, loud, now_ns, session.hold_ns);
        match gate_change(session, heard, loud, now_ns) {
            GateChange::Unchanged => SessionView { gate, ..next },
            GateChange::Opened { .. } => SessionView { gate, idle_since_ns: None, ..next },
            GateChange::Closed => SessionView {
                gate,
                idle_since_ns: Some(now_ns),
                pending: Seq::empty(),
                ..next
            },
        }
    }
}

/// The status after a chunk with the given level.
pub open spec fn status_after_chunk<L>(
    status: crate::status::StatusView<L>,
    session: SessionView<L>,
    level: Option<L>,
    loud: bool,
    now_ns: u128,
) -> crate::status::StatusView<L> {
    let heard = level is Some;
    let open = if heard {
        crate::stream::gate_after(session.gate, loud, now_ns, session.hold_ns).active
    } else {
        session.gate.active
    };
    crate::status::StatusView {
        rms_db: level,
        track_change: status.track_change || gate_change(session, heard, loud, now_ns)
            == (GateChange::Opened { track_change: true }),
        state: if open {
            status.state
        } else {
            "IDLE"@
        },
        ..status
    }
}

/// Whether a tick finds something to stream to.
pub open spec fn streaming<L>(session: SessionView<L>) -> bool {
    session.gate.active && session.connected
}

/// What a tick sends: the front of the queue, in whole chunks.
pub open spec fn tick_payload<L>(session: SessionView<L>) -> Seq<u8> {
    let chunk = crate::stream::chunk_bytes(session.output_rate);
    if streaming(session) && session.pending.len() >= chunk {
        session.pending.take(
            crate::stream::chunks_for_tick(session.pending.len() as int, chunk) * chunk,
        )
    } else {
        Seq::empty()
    }
}

/// The bytes that a tick waits for: what is missing from a chunk.
pub open spec fn tick_shortfall<L>(session: SessionView<L>) -> int {
    let chunk = crate::stream::chunk_bytes(session.output_rate);
    if streaming(session) && session.pending.len() < chunk {
        chunk - session.pending.len()
    } else {
        0
    }
}

/// The session after a tick.
pub open spec fn session_after_tick<L>(session: SessionView<L>) -> SessionView<L> {
    SessionView {
        pending: session.pending.skip(tick_payload(session).len() as int),
        counters: Counters {
            underrun_bytes: (session.counters.underrun_bytes + tick_shortfall(session)) as u64,
            ..session.counters
        },
        ..session
    }
}

/// The count that is due at `now_ns`, if it is.
pub open spec fn due(bytes: u64, since_ns: u128, now_ns: u128) -> Option<Tally> {
    let elapsed = crate::resampler::elapsed(since_ns, now_ns);
    if elapsed >= REPORT_INTERVAL_NS {
        Some(Tally { bytes, elapsed_ns: elapsed as u128 })
    } else {
        None
    }
}

/// The count that is due at `now_ns`, if there is anything to count.
pub open spec fn due_if_any(bytes: u64, since_ns: u128, now_ns: u128) -> Option<Tally> {
    if bytes > 0 {
        due(bytes, since_ns, now_ns)
    } else {
        None
    }
}

/// The counts that are due at `now_ns`.
pub open spec fn reports_due(counters: Counters, now_ns: u128) -> Reports {
    Reports {
        throughput: due(counters.bytes_since_log, counters.last_rate_log_ns, now_ns),
        overrun: due_if_any(counters.overrun_bytes, counters.overrun_since_ns, now_ns),
        underrun: due_if_any(counters.underrun_bytes, counters.underrun_since_ns, now_ns),
    }
}

/// The counters once the counts that are due have been reported: those start
/// again.
pub open spec fn counters_after_report(counters: Counters, now_ns: u128) -> Counters {
    let reports = reports_due(counters, now_ns);
    Counters {
        last_rate_log_ns: if reports.throughput is Some {
            now_ns
        } else {
            counters.last_rate_log_ns
        },
        bytes_since_log: if reports.throughput is Some {
            0
        } else {
            counters.bytes_since_log
        },
        overrun_since_ns: if reports.overrun is Some {
            now_ns
        } else {
            counters.overrun_since_ns
        },
        overrun_bytes: if reports.overrun is Some {
            0
        } else {
            counters.overrun_bytes
        },
        underrun_since_ns: if reports.underrun is Some {
            now_ns
        } else {
            counters.underrun_since_ns
        },
        underrun_bytes: if reports.underrun is Some {
            0
        } else {
            counters.underrun_bytes
        },
    }
}

/// What can happen to a session. The bytes of a chunk are heard if they hold a
/// sample.
pub enum SessionEvent<L> {
    Connected,
    ConnectFailed,
    Chunk { bytes: Seq<u8>, heard: bool, loud: bool, now_ns: u128 },
    Tick,
    Sent { count: usize },
    Lost,
    Report { now_ns: u128 },
    VadUpdate { threshold_db: L, hold_ns: u128 },
}

/// The session after an event.
pub open spec fn session_after<L>(
    session: SessionView<L>,
    event: SessionEvent<L>,
) -> SessionView<L> {
    match event {
        SessionEvent::Connected => SessionView {
            connected: true,
            delay_ms: crate::stream::FIRST_DELAY_MS,
            ..session
        },
        SessionEvent::ConnectFailed => SessionView {
            delay_ms: crate::stream::delay_after(session.delay_ms),
            ..session
        },
        SessionEvent::Chunk { bytes, heard, loud, now_ns } => session_after_chunk(
            session,
            bytes,
            heard,
            loud,
            now_ns,
        ),
        SessionEvent::Tick => session_after_tick(session),
        SessionEvent::Sent { count } => SessionView {
            counters: Counters {
                bytes_since_log: (session.counters.bytes_since_log + count) as u64,
                ..session.counters
            },
            ..session
        },
        SessionEvent::Lost => SessionView { connected: false, ..session },
        SessionEvent::Report { now_ns } => SessionView {
            counters: counters_after_report(session.counters, now_ns),
            ..session
        },
        SessionEvent::VadUpdate { threshold_db, hold_ns } => SessionView {
            threshold_db,
            hold_ns,
            ..session
        },
    }
}

fn tally(bytes: u64, since_ns: u128, now_ns: u128) -> (r: Option<Tally>)
    ensures
        r == due(bytes, since_ns, now_ns),
{
    let elapsed_ns: u128 = if now_ns >= since_ns {
        now_ns - since_ns
    } else {
        0
    };
    if elapsed_ns >= REPORT_INTERVAL_NS {
        Some(Tally { bytes, elapsed_ns })
    } else {
        None
    }
}

impl Counters {
    fn report(&mut self, now_ns: u128) -> (r: Reports)
        ensures
            r == reports_due(*old(self), now_ns),
            *final(self) == counters_after_report(*old(self), now_ns),
    {
        let throughput = tally(self.bytes_since_log, self.last_rate_log_ns, now_ns);
        if throughput.is_some() {
            self.bytes_since_log = 0;
            self.last_rate_log_ns = now_ns;
        }
        let overrun = if self.overrun_bytes > 0 {
            tally(self.overrun_bytes, self.overrun_since_ns, now_ns)
        } else {
            None
        };
        if overrun.is_some() {
            self.overrun_bytes = 0;
            self.overrun_since_ns = now_ns;
        }
        let underrun = if self.underrun_bytes > 0 {
            tally(self.underrun_bytes, self.underrun_since_ns, now_ns)
        } else {
            None
        };
        if underrun.is_some() {
            self.underrun_bytes = 0;
            self.underrun_since_ns = now_ns;
        }
        Reports { throughput, overrun, underrun }
    }
}

/// A session that has just been set up.
pub open spec fn fresh_session<L>(
    ingest: IngestTarget,
    threshold_db: L,
    hold_ns: u128,
    output_rate: u32,
    now_ns: u128,
) -> SessionView<L> {
    SessionView {
        ingest,
        output_rate,
        connected: false,
        delay_ms: crate::stream::FIRST_DELAY_MS,
        gate: VadGate { active: false, last_active_ns: None },
        threshold_db,
        hold_ns,
        idle_since_ns: None,
        pending: Seq::empty(),
        counters: Counters {
            last_rate_log_ns: now_ns,
            bytes_since_log: 0,
            overrun_since_ns: now_ns,
            overrun_bytes: 0,
            underrun_since_ns: now_ns,
            underrun_bytes: 0,
        },
    }
}

impl<L> StreamSession<L> {
    /// What holds of every session.
    pub closed spec fn wf(&self) -> bool {
        &&& self.chunk_bytes == crate::stream::chunk_bytes(self.output_rate)
        &&& self.max_pending == crate::stream::queue_limit(self.output_rate)
        &&& self.pending@.len() <= self.max_pending
        &&& self.backoff.wf()
        &&& self.gate.active ==> self.gate.last_active_ns is Some
    }

    /// In every state at most two seconds of audio are queued, the delay is within
    /// its bounds, and an open gate has heard something.
    pub proof fn law_every_session_is_bounded(&self)
        requires
            self.wf(),
        ensures
            self@.pending.len() <= crate::stream::queue_limit(self@.output_rate),
            self@.pending.len() <= crate::stream::buffer_bytes(self@.output_rate),
            crate::stream::FIRST_DELAY_MS <= self@.delay_ms <= crate::stream::LONGEST_DELAY_MS,
            self@.gate.active ==> self@.gate.last_active_ns is Some,
    {
    }

    /// A session that has not connected yet. `hold_ns` is how long the sound gate stays
    /// open after the sound.
    pub fn new(
        ingest: IngestTarget,
        threshold_db: L,
        hold_ns: u128,
        output_rate: u32,
        now_ns: u128,
    ) -> (r: Self)
        ensures
            r.wf(),
            r@ == fresh_session(ingest, threshold_db, hold_ns, output_rate, now_ns),
    {
        let max_pending: usize = max_buffer_bytes_for_rate(output_rate) / 4 * 4;
        StreamSession {
            ingest,
            output_rate,
            connected: false,
            backoff: Backoff::new(),
            gate: VadGate::new(),
            threshold_db,
            hold_ns,
            idle_since_ns: None,
            chunk_bytes: chunk_bytes_for_rate(output_rate),
            max_pending,
            pending: VecDeque::with_capacity(max_pending),
            counters: Counters {
                last_rate_log_ns: now_ns,
                bytes_since_log: 0,
                overrun_since_ns: now_ns,
                overrun_bytes: 0,
                underrun_since_ns: now_ns,
                underrun_bytes: 0,
            },
        }
    }

    /// What comes next: a session without a connection tries to get one.
    pub fn next_step(&self, status: &mut StatusHandle<L>) -> (r: Step)
        ensures
            if self@.connected {
                r is Wait && final(status)@ == old(status)@
            } else {
                &&& r matches Step::Connect(plan)
                &&& crate::stream::connects_to(plan, self@.ingest)
                &&& final(status)@ == (crate::status::StatusView {
                    state: "RECONNECTING"@,
                    ..old(status)@
                })
            },
    {
        if self.connected {
            return Step::Wait;
        }
        status.set_state("RECONNECTING");
        Step::Connect(connect_plan(&self.ingest))
    }

    /// The connection stands. What is queued is kept.
    pub fn on_connected(&mut self, status: &mut StatusHandle<L>)
        requires
            old(self).wf(),
        ensures
            final(self).wf(),
            final(self)@ == session_after(old(self)@, SessionEvent::Connected),
            final(status)@ == (crate::status::StatusView {
                state: "STREAMING"@,
                last_error: None,
                ..old(status)@
            }),
    {
        self.connected = true;
        status.set_state("STREAMING");
        status.set_last_error(None);
        self.backoff.reset();
    }

    /// The attempt failed. Returns how many milliseconds to wait before the next.
    pub fn on_connect_failed(&mut self, error: String, status: &mut StatusHandle<L>) -> (delay_ms:
        u64)
        requires
            old(self).wf(),
        ensures
            final(self).wf(),
            delay_ms == old(self)@.delay_ms,
            final(self)@ == session_after(old(self)@, SessionEvent::ConnectFailed),
            final(status)@ == (crate::status::StatusView {
                last_error: Some(error@),
                ..old(status)@
            }),
    {
        status.set_last_error(Some(error));
        self.backoff.next_delay()
    }

    /// A captured chunk. `level` is its level, if it holds any sample, and `loud`
    /// whether that reaches the threshold.
    pub fn on_chunk(
        &mut self,
        chunk: Vec<u8>,
        level: Option<L>,
        loud: bool,
        now_ns: u128,
        status: &mut StatusHandle<L>,
    ) -> (r: GateChange)
        requires
            old(self).wf(),
            old(self)@.counters.overrun_bytes + overflow(old(self)@, chunk@.len() as int)
                <= u64::MAX,
        ensures
            final(self).wf(),
            r == gate_change(old(self)@, level is Some, loud, now_ns),
            final(self)@ == session_after(
                old(self)@,
                SessionEvent::Chunk { bytes: chunk@, heard: level is Some, loud, now_ns },
            ),
            final(status)@ == status_after_chunk(old(status)@, old(self)@, level, loud, now_ns),
            !(old(self)@.gate.active && !final(self)@.gate.active) ==> is_end_of(
                final(self)@.pending,
                old(self)@.pending + chunk@,
                crate::stream::queue_limit(old(self)@.output_rate),
            ),
    {
        proof {
            law_chunk_leaves_the_queue_only_at_a_closing(
                self@,
                chunk@,
                level is Some,
                loud,
                now_ns,
            );
        }
        self.queue(&chunk);
        let heard = level.is_some();
        status.set_rms_db(level);
        let mut change = GateChange::Unchanged;
        if heard {
            let was_active = self.gate.active;
            self.gate.hear(loud, now_ns, self.hold_ns);
            if self.gate.active && !was_active {
                let mut track_change = false;
                if let Some(since_ns) = self.idle_since_ns {
                    let elapsed_ns: u128 = if now_ns >= since_ns {
                        now_ns - since_ns
                    } else {
                        0
                    };
                    if elapsed_ns >= TRACK_GAP_NS {
                        status.set_track_change();
                        track_change = true;
                    }
                }
                self.idle_since_ns = None;
                change = GateChange::Opened { track_change };
            } else if !self.gate.active && was_active {
                self.idle_since_ns = Some(now_ns);
                self.pending.clear();
                change = GateChange::Closed;
            }
        }
        if !self.gate.active {
            status.set_state("IDLE");
        }
        change
    }

    /// Queues a chunk and drops the oldest bytes beyond the limit.
    fn queue(&mut self, chunk: &Vec<u8>)
        requires
            old(self).wf(),
            old(self)@.counters.overrun_bytes + overflow(old(self)@, chunk@.len() as int)
                <= u64::MAX,
        ensures
            final(self).wf(),
            final(self)@ == queued(old(self)@, chunk@),
            final(self).gate == old(self).gate,
    {
        let ghost before = self@;
        let max: usize = self.max_pending;
        let mut dropped: u64 = 0;
        let mut i: usize = 0;
        assert(self.pending@ =~= crate::resampler::newest(
            before.pending + chunk@.take(0),
            max as int,
        ));
        while i < chunk.len()
            invariant
                i <= chunk@.len(),
                self.wf(),
                self.max_pending == max,
                self.output_rate == before.output_rate,
                self@ == (SessionView { pending: self.pending@, ..before }),
                before.pending.len() <= max,
                self.pending@ == crate::resampler::newest(
                    before.pending + chunk@.take(i as int),
                    max as int,
                ),
                dropped == before.pending.len() + i - self.pending@.len(),
                dropped <= i,
            decreases chunk@.len() - i,
        {
            let ghost so_far = before.pending + chunk@.take(i as int);
            assert(before.pending + chunk@.take(i + 1) =~= so_far.push(chunk@[i as int]));
            let len: usize = self.pending.len();
            self.pending.push_back(chunk[i]);
            if len >= max {
                let _ = self.pending.pop_front();
                dropped = dropped + 1;
            }
            assert(self.pending@ =~= crate::resampler::newest(
                so_far.push(chunk@[i as int]),
                max as int,
            ));
            i = i + 1;
        }
        assert(chunk@.take(i as int) =~= chunk@);
        self.counters.overrun_bytes = self.counters.overrun_bytes + dropped;
    }

    /// A tick: what to write, if anything.
    pub fn on_tick(&mut self) -> (r: TickAction)
        requires
            old(self).wf(),
            old(self)@.counters.underrun_bytes + tick_shortfall(old(self)@) <= u64::MAX,
        ensures
            final(self).wf(),
            final(self)@ == session_after(old(self)@, SessionEvent::Tick),
            match r {
                TickAction::Idle => !streaming(old(self)@),
                TickAction::Short => streaming(old(self)@) && tick_shortfall(old(self)@) > 0,
                TickAction::Send(payload) => {
                    &&& streaming(old(self)@) && tick_shortfall(old(self)@) == 0
                    &&& payload@ == tick_payload(old(self)@)
                },
            },
    {
        let ghost before = self@;
        assert(self.pending@.skip(0) =~= self.pending@);
        if !self.gate.active || !self.connected {
            return TickAction::Idle;
        }
        let len: usize = self.pending.len();
        if len < self.chunk_bytes {
            self.counters.underrun_bytes = self.counters.underrun_bytes + (self.chunk_bytes
                - len) as u64;
            return TickAction::Short;
        }
        proof {
            crate::stream::law_tick_drains_whole_chunks(len as int, self.chunk_bytes as int);
        }
        let count: usize = drain_bytes_for_tick(len, self.chunk_bytes);
        let mut payload: Vec<u8> = Vec::with_capacity(count);
        let mut i: usize = 0;
        while i < count
            invariant
                i <= count <= before.pending.len(),
                self.wf(),
                self@ == (SessionView { pending: self.pending@, ..before }),
                self.pending@ == before.pending.skip(i as int),
                payload@ == before.pending.take(i as int),
            decreases count - i,
        {
            if let Some(byte) = self.pending.pop_front() {
                payload.push(byte);
            }
            assert(self.pending@ =~= before.pending.skip(i + 1));
            assert(payload@ =~= before.pending.take(i + 1));
            i = i + 1;
        }
        TickAction::Send(payload)
    }

    /// The payload of the last tick was written at the time `ts`.
    pub fn on_sent(&mut self, sent: usize, ts: String, status: &mut StatusHandle<L>)
        requires
            old(self).wf(),
            old(self)@.counters.bytes_since_log + sent <= u64::MAX,
        ensures
            final(self).wf(),
            final(self)@ == session_after(old(self)@, SessionEvent::Sent { count: sent }),
            final(status)@ == crate::status::status_sent(
                crate::status::StatusView { state: "STREAMING"@, ..old(status)@ },
                sent,
                ts@,
            ),
    {
        status.set_state("STREAMING");
        status.record_bytes(sent, ts);
        self.counters.bytes_since_log = self.counters.bytes_since_log + sent as u64;
    }

    /// The connection is lost. What is queued is kept for the next one.
    pub fn on_lost(&mut self, error: String, status: &mut StatusHandle<L>)
        requires
            old(self).wf(),
        ensures
            final(self).wf(),
            final(self)@ == session_after(old(self)@, SessionEvent::Lost),
            final(status)@ == (crate::status::StatusView {
                last_error: Some(error@),
                ..old(status)@
            }),
    {
        status.set_last_error(Some(error));
        self.connected = false;
    }

    /// A frame came in on the socket. Returns the text of a command frame.
    pub fn on_frame(&mut self, frame: FrameOutcome, status: &mut StatusHandle<L>) -> (r: Option<
        String,
    >)
        requires
            old(self).wf(),
        ensures
            final(self).wf(),
            match frame {
                FrameOutcome::Command(text) => {
                    &&& r == Some(text)
                    &&& final(self)@ == old(self)@
                    &&& final(status)@ == old(status)@
                },
                FrameOutcome::Lost(error) => {
                    &&& r is None
                    &&& final(self)@ == session_after(old(self)@, SessionEvent::Lost)
                    &&& final(status)@ == (crate::status::StatusView {
                        last_error: Some(error@),
                        ..old(status)@
                    })
                },
                FrameOutcome::Nothing => {
                    &&& r is None
                    &&& final(self)@ == old(self)@
                    &&& final(status)@ == old(status)@
                },
            },
    {
        match frame {
            FrameOutcome::Command(text) => Some(text),
            FrameOutcome::Lost(error) => {
                self.on_lost(error, status);
                None
            },
            FrameOutcome::Nothing => None,
        }
    }

    /// The counts that are due after a tick that streams.
    pub fn take_reports(&mut self, now_ns: u128) -> (r: Reports)
        requires
            old(self).wf(),
        ensures
            final(self).wf(),
            r == reports_due(old(self)@.counters, now_ns),
            final(self)@ == session_after(old(self)@, SessionEvent::Report { now_ns }),
    {
        self.counters.report(now_ns)
    }

    /// New settings of the sound gate. The stream goes on.
    pub fn on_vad_update(&mut self, threshold_db: L, hold_ns: u128)
        requires
            old(self).wf(),
        ensures
            final(self).wf(),
            final(self)@ == session_after(
                old(self)@,
                SessionEvent::VadUpdate { threshold_db, hold_ns },
            ),
    {
        self.threshold_db = threshold_db;
        self.hold_ns = hold_ns;
    }

    /// The counters, to be held against their limits.
    pub fn counters(&self) -> (r: Counters)
        ensures
            r == self@.counters,
    {
        self.counters
    }
}

/// Whether `loud` is what `reaches` says of a level and the threshold. A chunk without
/// samples has no level, and is not loud.
pub open spec fn judged<L, F: Fn(L, L) -> bool>(
    loud: bool,
    level: Option<L>,
    threshold_db: L,
    reaches: F,
) -> bool {
    match level {
        Some(level) => reaches.ensures((level, threshold_db), loud),
        None => !loud,
    }
}

impl<L: Copy> StreamSession<L> {
    /// A captured chunk with its level, if it holds any sample. It is loud if the level
    /// reaches the threshold: `reaches` compares the two.
    pub fn on_captured<F: Fn(L, L) -> bool>(
        &mut self,
        chunk: Vec<u8>,
        level: Option<L>,
        reaches: F,
        now_ns: u128,
        status: &mut StatusHandle<L>,
    ) -> (r: GateChange)
        requires
            old(self).wf(),
            old(self)@.counters.overrun_bytes + overflow(old(self)@, chunk@.len() as int)
                <= u64::MAX,
            level matches Some(level) ==> reaches.requires((level, old(self)@.threshold_db)),
        ensures
            final(self).wf(),
            exists|loud: bool|
                {
                    &&& #[trigger] judged(loud, level, old(self)@.threshold_db, reaches)
                    &&& r == gate_change(old(self)@, level is Some, loud, now_ns)
                    &&& final(self)@ == session_after(
                        old(self)@,
                        SessionEvent::Chunk { bytes: chunk@, heard: level is Some, loud, now_ns },
                    )
                    &&& final(status)@ == status_after_chunk(
                        old(status)@,
                        old(self)@,
                        level,
                        loud,
                        now_ns,
                    )
                },
    {
        let loud = match level {
            Some(level) => reaches(level, self.threshold_db),
            None => false,
        };
        assert(judged(loud, level, self@.threshold_db, reaches));
        self.on_chunk(chunk, level, loud, now_ns, status)
    }
}

/// The reason for which a session ends when there are no more chunks.
pub fn capture_closed() -> (r: String)
    ensures
        r@ == "audio capture channel closed"@,
{
    "audio capture channel closed".to_owned()
}

/// The reason for which a session ends on a capture error. Without a message the
/// channel of errors was closed.
pub fn on_capture_error<L>(message: Option<String>, status: &mut StatusHandle<L>) -> (r: String)
    ensures
        r@ == (match message {
            Some(message) => message@,
            None => "audio capture error channel closed"@,
        }),
        final(status)@ == (crate::status::StatusView { last_error: Some(r@), ..old(status)@ }),
{
    let reason = match message {
        Some(message) => message,
        None => "audio capture error channel closed".to_owned(),
    };
    status.set_last_error(Some(reason.clone()));
    reason
}

/// The session after a row of events, the oldest first.
pub open spec fn session_after_all<L>(
    session: SessionView<L>,
    events: Seq<SessionEvent<L>>,
) -> SessionView<L>
    decreases events.len(),
{
    if events.len() == 0 {
        session
    } else {
        session_after(session_after_all(session, events.drop_last()), events.last())
    }
}

/// All bytes that a row of events captured, in order.
pub open spec fn captured<L>(events: Seq<SessionEvent<L>>) -> Seq<u8>
    decreases events.len(),
{
    if events.len() == 0 {
        Seq::empty()
    } else {
        match events.last() {
            SessionEvent::Chunk { bytes, .. } => captured(events.drop_last()) + bytes,
            _ => captured(events.drop_last()),
        }
    }
}

/// The place in all captured bytes where the queue begins.
pub open spec fn queue_begin<L>(session: SessionView<L>, events: Seq<SessionEvent<L>>) -> int {
    captured(events).len() - session_after_all(session, events).pending.len()
}

/// What a row of events sends: each payload, with the place in all captured bytes
/// that the queue had come to.
pub open spec fn payloads<L>(session: SessionView<L>, events: Seq<SessionEvent<L>>) -> Seq<
    (int, Seq<u8>),
>
    decreases events.len(),
{
    if events.len() == 0 {
        Seq::empty()
    } else {
        let past = events.drop_last();
        let payload = tick_payload(session_after_all(session, past));
        if events.last() is Tick && payload.len() > 0 {
            payloads(session, past).push((queue_begin(session, past), payload))
        } else {
            payloads(session, past)
        }
    }
}

/// What a tick sends is the front of the queue.
pub proof fn law_tick_sends_the_front_of_the_queue<L>(session: SessionView<L>)
    ensures
        tick_payload(session) + session_after_tick(session).pending == session.pending,
        tick_payload(session).len() <= session.pending.len(),
        tick_payload(session).len() > 0 ==> streaming(session),
{
    let chunk = crate::stream::chunk_bytes(session.output_rate);
    crate::stream::law_tick_drains_whole_chunks(session.pending.len() as int, chunk);
    assert(tick_payload(session) + session_after_tick(session).pending =~= session.pending);
}

/// The queue always is the end of what was captured.
proof fn lemma_queue_is_end_of_capture<L>(session: SessionView<L>, events: Seq<SessionEvent<L>>)
    requires
        session.pending.len() == 0,
    ensures
        0 <= queue_begin(session, events),
        session_after_all(session, events).pending == captured(events).skip(
            queue_begin(session, events),
        ),
        events.len() > 0 ==> queue_begin(session, events.drop_last()) + (if events.last() is Tick {
            tick_payload(session_after_all(session, events.drop_last())).len() as int
        } else {
            0
        }) <= queue_begin(session, events),
        events.len() > 0 ==> captured(events.drop_last()) == captured(events).take(
            captured(events.drop_last()).len() as int,
        ),
    decreases events.len(),
{
    if events.len() == 0 {
        assert(session.pending =~= captured(events).skip(0));
    } else {
        let past = events.drop_last();
        lemma_queue_is_end_of_capture(session, past);
        let before = session_after_all(session, past);
        let after = session_after_all(session, events);
        law_tick_sends_the_front_of_the_queue(before);
        assert(captured(past) =~= captured(events).take(captured(past).len() as int));
        assert(after.pending =~= captured(events).skip(queue_begin(session, events)));
    }
}

/// Whatever happens, what is sent is what was captured, in its order and nothing
/// twice: each payload is a piece of all captured bytes, and lies behind the
/// pieces sent before it. Nothing is made up, such as silence.
#[verifier::spinoff_prover]
#[verifier::rlimit(40)]
pub proof fn law_stream_is_the_capture_in_order<L>(
    session: SessionView<L>,
    events: Seq<SessionEvent<L>>,
)
    requires
        session.pending.len() == 0,
    ensures
        forall|k: int|
            0 <= k < payloads(session, events).len() ==> {
                let (at, payload) = #[trigger] payloads(session, events)[k];
                &&& 0 <= at
                &&& at + payload.len() <= queue_begin(session, events)
                &&& queue_begin(session, events) <= captured(events).len()
                &&& payload == captured(events).subrange(at, at + payload.len())
            },
        forall|j: int, k: int|
            #![trigger payloads(session, events)[j], payloads(session, events)[k]]
            0 <= j < k < payloads(session, events).len() ==> payloads(session, events)[j].0
                + payloads(session, events)[j].1.len() <= payloads(session, events)[k].0,
    decreases events.len(),
{
    if events.len() > 0 {
        let past = events.drop_last();
        law_stream_is_the_capture_in_order(session, past);
        lemma_queue_is_end_of_capture(session, past);
        lemma_queue_is_end_of_capture(session, events);
        let before = session_after_all(session, past);
        law_tick_sends_the_front_of_the_queue(before);
        let all = captured(events);
        let sent = payloads(session, events);
        let sent_before = payloads(session, past);
        assert forall|k: int| 0 <= k < sent.len() implies ({
            let (at, payload) = #[trigger] sent[k];
            &&& 0 <= at
            &&& at + payload.len() <= queue_begin(session, events)
            &&& queue_begin(session, events) <= all.len()
            &&& payload == all.subrange(at, at + payload.len())
        }) by {
            let (at, payload) = sent[k];
            if k < sent_before.len() {
                assert(sent_before[k] == sent[k]);
                assert(captured(past).subrange(at, at + payload.len()) =~= all.subrange(
                    at,
                    at + payload.len(),
                ));
            } else {
                assert(payload =~= all.subrange(at, at + payload.len()));
            }
        }
        assert forall|j: int, k: int|
            #![trigger sent[j], sent[k]]
            0 <= j < k < sent.len() implies sent[j].0 + sent[j].1.len() <= sent[k].0 by {
            assert(sent_before[j] == sent[j]);
            if k < sent_before.len() {
                assert(sent_before[k] == sent[k]);
            }
        }
    }
}

/// A payload is made of whole frames.
proof fn lemma_payload_is_whole<L>(session: SessionView<L>)
    ensures
        tick_payload(session).len() % 4 == 0,
{
    let chunk = crate::stream::chunk_bytes(session.output_rate);
    let n = crate::stream::chunks_for_tick(session.pending.len() as int, chunk);
    crate::stream::law_chunk_holds_whole_frames(session.output_rate);
    crate::stream::law_tick_drains_whole_chunks(session.pending.len() as int, chunk);
    let frames = chunk / 4;
    assert(n * chunk == 4 * (n * frames)) by (nonlinear_arith)
        requires
            chunk == 4 * frames,
    ;
}

/// An event leaves whole frames in the queue.
proof fn lemma_event_keeps_frames_whole<L>(session: SessionView<L>, event: SessionEvent<L>)
    requires
        session.pending.len() % 4 == 0,
        event matches SessionEvent::Chunk { bytes, .. } ==> bytes.len() % 4 == 0,
    ensures
        session_after(session, event).output_rate == session.output_rate,
        session_after(session, event).pending.len() % 4 == 0,
{
    crate::stream::law_chunk_holds_whole_frames(session.output_rate);
    lemma_payload_is_whole(session);
    law_tick_sends_the_front_of_the_queue(session);
    if let SessionEvent::Chunk { bytes, .. } = event {
        crate::resampler::law_newest_is_a_bounded_end(
            session.pending + bytes,
            crate::stream::queue_limit(session.output_rate),
        );
    }
}

/// Whether every captured chunk is made of whole frames.
pub open spec fn captures_whole_frames<L>(events: Seq<SessionEvent<L>>) -> bool {
    forall|i: int|
        0 <= i < events.len() ==> ((#[trigger] events[i]) matches SessionEvent::Chunk { bytes, .. }
            ==> bytes.len() % 4 == 0)
}

/// The queue is made of whole frames, and so is all that was captured.
proof fn lemma_queue_stays_whole<L>(session: SessionView<L>, events: Seq<SessionEvent<L>>)
    requires
        session.pending.len() % 4 == 0,
        captures_whole_frames(events),
    ensures
        session_after_all(session, events).output_rate == session.output_rate,
        session_after_all(session, events).pending.len() % 4 == 0,
        captured(events).len() % 4 == 0,
    decreases events.len(),
{
    if events.len() > 0 {
        let past = events.drop_last();
        assert(captures_whole_frames(past)) by {
            assert(forall|i: int| 0 <= i < past.len() ==> past[i] == events[i]);
        }
        lemma_queue_stays_whole(session, past);
        let last = events[events.len() - 1];
        lemma_event_keeps_frames_whole(session_after_all(session, past), last);
        if let SessionEvent::Chunk { bytes, .. } = last {
            assert(captured(events) == captured(past) + bytes);
        }
    }
}

/// Where the captured chunks are made of whole frames, the queue always is, and so is
/// every payload: the stream never carries half a frame. Each payload begins where a
/// captured frame begins, also after bytes were dropped, so the sides never swap.
#[verifier::spinoff_prover]
#[verifier::rlimit(40)]
pub proof fn law_frames_stay_whole<L>(session: SessionView<L>, events: Seq<SessionEvent<L>>)
    requires
        session.pending.len() == 0,
        captures_whole_frames(events),
    ensures
        session_after_all(session, events).pending.len() % 4 == 0,
        forall|k: int|
            0 <= k < payloads(session, events).len() ==> {
                let (at, payload) = #[trigger] payloads(session, events)[k];
                at % 4 == 0 && payload.len() % 4 == 0
            },
    decreases events.len(),
{
    lemma_queue_stays_whole(session, events);
    if events.len() > 0 {
        let past = events.drop_last();
        assert(captures_whole_frames(past)) by {
            assert(forall|i: int| 0 <= i < past.len() ==> past[i] == events[i]);
        }
        law_frames_stay_whole(session, past);
        lemma_queue_stays_whole(session, past);
        let before = session_after_all(session, past);
        lemma_payload_is_whole(before);
        let at = queue_begin(session, past);
        let payload = tick_payload(before);
        assert(at % 4 == 0);
        assert(payloads(session, events) == payloads(session, past) || payloads(session, events)
            == payloads(session, past).push((at, payload)));
    }
}

/// Whether an event is a loud chunk.
pub open spec fn is_loud<L>(event: SessionEvent<L>) -> bool {
    event matches SessionEvent::Chunk { heard, loud, .. } && heard && loud
}

/// Whether number `i` is the latest loud chunk, and came at the time `at_ns`.
pub open spec fn is_latest_loud<L>(events: Seq<SessionEvent<L>>, i: int, at_ns: u128) -> bool {
    &&& 0 <= i < events.len()
    &&& is_loud(events[i])
    &&& events[i] matches SessionEvent::Chunk { now_ns, .. } && now_ns == at_ns
    &&& forall|j: int| i < j < events.len() ==> !is_loud(#[trigger] events[j])
}

/// The sound gate remembers the latest loud chunk, and nothing if there was none. A
/// gate that is open has heard one: before there is sound nothing is streamed.
#[verifier::spinoff_prover]
#[verifier::rlimit(40)]
pub proof fn law_open_gate_has_heard_sound<L>(session: SessionView<L>, events: Seq<SessionEvent<L>>)
    requires
        session.gate == (VadGate { active: false, last_active_ns: None }),
    ensures
        ({
            let gate = session_after_all(session, events).gate;
            &&& gate.active ==> gate.last_active_ns is Some
            &&& match gate.last_active_ns {
                Some(last) => exists|i: int| #[trigger] is_latest_loud(events, i, last),
                None => forall|j: int|
                    0 <= j < events.len() ==> !is_loud(#[trigger] events[j]),
            }
        }),
        tick_payload(session_after_all(session, events)).len() > 0 ==> session_after_all(
            session,
            events,
        ).gate.active,
    decreases events.len(),
{
    let now = session_after_all(session, events);
    law_tick_sends_the_front_of_the_queue(now);
    if events.len() > 0 {
        let past = events.drop_last();
        law_open_gate_has_heard_sound(session, past);
        let before = session_after_all(session, past);
        let end = events.len() - 1;
        assert(forall|j: int| 0 <= j < end ==> events[j] == past[j]);
        if is_loud(events[end]) {
            assert(is_latest_loud(events, end, now.gate.last_active_ns->0));
        } else if let Some(last) = before.gate.last_active_ns {
            let i = choose|i: int| #[trigger] is_latest_loud(past, i, last);
            assert(is_latest_loud(events, i, last));
        }
    }
}

/// Whether the sound gate is open after the first `n` events.
pub open spec fn open_after<L>(
    session: SessionView<L>,
    events: Seq<SessionEvent<L>>,
    n: int,
) -> bool {
    session_after_all(session, events.take(n)).gate.active
}

/// Whether event number `i` closed the sound gate.
pub open spec fn closes<L>(session: SessionView<L>, events: Seq<SessionEvent<L>>, i: int) -> bool {
    open_after(session, events, i) && !open_after(session, events, i + 1)
}

/// Whether event number `i` was the last one that closed the sound gate, at the time
/// `at_ns`.
pub open spec fn is_last_closing<L>(
    session: SessionView<L>,
    events: Seq<SessionEvent<L>>,
    i: int,
    at_ns: u128,
) -> bool {
    &&& 0 <= i < events.len()
    &&& closes(session, events, i)
    &&& events[i] matches SessionEvent::Chunk { now_ns, .. } && now_ns == at_ns
    &&& forall|j: int| i < j < events.len() ==> !#[trigger] closes(session, events, j)
}

/// While the sound gate is closed, the session remembers when it was last closed, and
/// nothing if it never was open. While it is open there is nothing to remember.
#[verifier::spinoff_prover]
#[verifier::rlimit(40)]
pub proof fn law_silence_is_counted_from_the_last_closing<L>(
    session: SessionView<L>,
    events: Seq<SessionEvent<L>>,
)
    requires
        session.gate == (VadGate { active: false, last_active_ns: None }),
        session.idle_since_ns is None,
    ensures
        ({
            let now = session_after_all(session, events);
            match now.idle_since_ns {
                Some(since) => !now.gate.active && exists|i: int| #[trigger]
                    is_last_closing(session, events, i, since),
                None => now.gate.active || forall|j: int|
                    0 <= j < events.len() ==> !#[trigger] closes(session, events, j),
            }
        }),
    decreases events.len(),
{
    if events.len() > 0 {
        let past = events.drop_last();
        let end = events.len() - 1;
        law_silence_is_counted_from_the_last_closing(session, past);
        let before = session_after_all(session, past);
        let now = session_after_all(session, events);
        assert(events.take(end) =~= past);
        assert(events.take(end + 1) =~= events);
        assert forall|j: int| 0 <= j < end implies #[trigger] closes(session, events, j) == closes(
            session,
            past,
            j,
        ) by {
            assert(events.take(j) =~= past.take(j));
            assert(events.take(j + 1) =~= past.take(j + 1));
        }
        if closes(session, events, end) {
            assert(is_last_closing(session, events, end, now.idle_since_ns->0));
        } else if !now.gate.active {
            if let Some(since) = before.idle_since_ns {
                let i = choose|i: int| #[trigger] is_last_closing(session, past, i, since);
                assert(events[i] == past[i]);
                assert(closes(session, past, i));
                assert(is_last_closing(session, events, i, since));
            }
        }
    }
}

/// Once silence has closed the sound gate, what was queued is gone, and ticks send
/// nothing.
pub proof fn law_silence_ends_the_stream<L>(
    session: SessionView<L>,
    chunk: Seq<u8>,
    loud: bool,
    now_ns: u128,
)
    requires
        gate_change(session, true, loud, now_ns) is Closed,
    ensures
        session_after_chunk(session, chunk, true, loud, now_ns).pending.len() == 0,
        tick_payload(session_after_chunk(session, chunk, true, loud, now_ns)).len() == 0,
        session_after_tick(session_after_chunk(session, chunk, true, loud, now_ns))
            == session_after_chunk(session, chunk, true, loud, now_ns),
{
    let after = session_after_chunk(session, chunk, true, loud, now_ns);
    assert(session_after_tick(after).pending =~= after.pending);
}

/// Every byte is accounted for: what was queued and what arrives is either queued
/// or counted as dropped.
pub proof fn law_dropped_bytes_are_counted<L>(session: SessionView<L>, chunk: Seq<u8>)
    requires
        session.pending.len() <= crate::stream::queue_limit(session.output_rate),
        session.counters.overrun_bytes + overflow(session, chunk.len() as int) <= u64::MAX,
    ensures
        session.pending.len() + chunk.len() == queued(session, chunk).pending.len() + (queued(
            session,
            chunk,
        ).counters.overrun_bytes - session.counters.overrun_bytes),
        queued(session, chunk).pending.len() <= crate::stream::queue_limit(session.output_rate),
{
}

/// New settings of the sound gate, a report, a lost connection and a new one leave the
/// queue and the sound gate alone.
pub proof fn law_only_audio_and_ticks_touch_the_queue<L>(
    session: SessionView<L>,
    event: SessionEvent<L>,
)
    requires
        !(event is Chunk),
        !(event is Tick),
    ensures
        session_after(session, event).pending == session.pending,
        session_after(session, event).gate == session.gate,
        session_after(session, event).idle_since_ns == session.idle_since_ns,
        event is VadUpdate || event is Report ==> session_after(session, event).connected
            == session.connected,
{
}

/// A track change is noticed exactly when sound returns after a silence of two
/// seconds or more.
pub proof fn law_track_change_needs_a_gap<L>(
    session: SessionView<L>,
    status: crate::status::StatusView<L>,
    level: L,
    loud: bool,
    now_ns: u128,
)
    requires
        !status.track_change,
    ensures
        status_after_chunk(status, session, Some(level), loud, now_ns).track_change <==> loud
            && !session.gate.active && (session.idle_since_ns matches Some(since)
            && crate::resampler::elapsed(since, now_ns) >= TRACK_GAP_NS),
{
}

/// Whether `kept` is the end of `all`: all of it if that is no longer than `max`, and else
/// the last `max` bytes.
pub open spec fn is_end_of(kept: Seq<u8>, all: Seq<u8>, max: int) -> bool {
    &&& all.len() <= max ==> kept.len() == all.len()
    &&& all.len() > max ==> kept.len() == max
    &&& forall|i: int| 0 <= i < kept.len() ==> #[trigger] kept[i] == all[all.len() - kept.len() + i]
}

/// A captured chunk is queued behind what waits, whatever the sound gate does, and also
/// where it opens the sound gate and a new track begins. The queue loses bytes only beyond its
/// limit, the oldest first, and all of them where the chunk closes the sound gate.
#[verifier::spinoff_prover]
#[verifier::rlimit(40)]
pub proof fn law_chunk_leaves_the_queue_only_at_a_closing<L>(
    session: SessionView<L>,
    chunk: Seq<u8>,
    heard: bool,
    loud: bool,
    now_ns: u128,
)
    ensures
        ({
            let event = SessionEvent::Chunk { bytes: chunk, heard, loud, now_ns };
            let after = session_after(session, event);
            let all = session.pending + chunk;
            let rate = session.output_rate;
            let max: int = if rate * 8 <= u32::MAX {
                rate * 8
            } else {
                4_294_967_292
            };
            let closing = session.gate.active && !after.gate.active;
            &&& crate::stream::queue_limit(rate) == max
            &&& closing ==> after.pending.len() == 0
            &&& !closing ==> is_end_of(after.pending, all, max)
            &&& !closing && all.len() <= max ==> after.pending == all
            &&& !closing && all.len() > max ==> after.pending.len() == max && after.pending
                == all.skip(all.len() - max)
            &&& loud && heard ==> !closing
        }),
{
    let event = SessionEvent::Chunk { bytes: chunk, heard, loud, now_ns };
    let after = session_after(session, event);
    let all = session.pending + chunk;
    let limit = crate::stream::queue_limit(session.output_rate);
    crate::stream::law_buffer_is_two_seconds(session.output_rate);
    assert forall|i: int| 0 <= i < crate::resampler::newest(all, limit).len() implies (
    #[trigger] crate::resampler::newest(all, limit)[i]) == all[all.len() - crate::resampler::newest(
        all,
        limit,
    ).len() + i] by {
        crate::resampler::law_newest_elements_are_kept(all, limit, i);
    }
    crate::resampler::law_newest_elements_are_kept(all, limit, 0);
    if all.len() > limit {
        assert(crate::resampler::newest(all, limit) =~= all.skip(all.len() - limit));
    }
}

/// What else a chunk changes. Bytes beyond the limit are counted. A chunk that is not heard
/// leaves the sound gate alone. When the sound gate closes, the time is kept until it opens.
/// Everything else stays.
pub proof fn law_what_a_chunk_changes<L>(
    session: SessionView<L>,
    chunk: Seq<u8>,
    heard: bool,
    loud: bool,
    now_ns: u128,
)
    requires
        session.counters.overrun_bytes + session.pending.len() + chunk.len() <= u64::MAX,
    ensures
        ({
            let event = SessionEvent::Chunk { bytes: chunk, heard, loud, now_ns };
            let after = session_after(session, event);
            let excess = session.pending.len() + chunk.len() - crate::stream::queue_limit(
                session.output_rate,
            );
            &&& excess > 0 ==> after.counters.overrun_bytes == session.counters.overrun_bytes
                + excess
            &&& excess <= 0 ==> after.counters.overrun_bytes == session.counters.overrun_bytes
            &&& !heard ==> after.gate == session.gate
            &&& heard ==> after.gate == crate::stream::gate_after(
                session.gate,
                loud,
                now_ns,
                session.hold_ns,
            )
            &&& session.gate.active && !after.gate.active ==> after.idle_since_ns == Some(now_ns)
            &&& !session.gate.active && after.gate.active ==> after.idle_since_ns is None
            &&& session.gate.active == after.gate.active ==> after.idle_since_ns
                == session.idle_since_ns
            &&& after.ingest == session.ingest
            &&& after.output_rate == session.output_rate
            &&& after.connected == session.connected
            &&& after.delay_ms == session.delay_ms
            &&& after.threshold_db == session.threshold_db
            &&& after.hold_ns == session.hold_ns
            &&& after.counters == (Counters {
                overrun_bytes: after.counters.overrun_bytes,
                ..session.counters
            })
        }),
{
    crate::stream::law_buffer_is_two_seconds(session.output_rate);
}

/// What a chunk is said to have done is what it did to the sound gate, and a track change
/// is a return of sound two seconds or more after the sound gate closed.
pub proof fn law_change_of_the_gate_is_told<L>(
    session: SessionView<L>,
    chunk: Seq<u8>,
    heard: bool,
    loud: bool,
    now_ns: u128,
)
    ensures
        ({
            let event = SessionEvent::Chunk { bytes: chunk, heard, loud, now_ns };
            let before = session.gate.active;
            let after = session_after(session, event).gate.active;
            let change = gate_change(session, heard, loud, now_ns);
            &&& change is Unchanged <==> before == after
            &&& change is Closed <==> before && !after
            &&& change is Opened <==> !before && after
            &&& change matches GateChange::Opened { track_change } ==> (track_change
                <==> session.idle_since_ns is Some && now_ns >= session.idle_since_ns->0
                + 2_000_000_000)
        }),
{
}

/// What a chunk changes in the status: its level, whether a new track has begun, and that
/// the bridge is idle where the sound gate is closed afterwards. Nothing else.
pub proof fn law_status_after_a_chunk<L>(
    status: crate::status::StatusView<L>,
    session: SessionView<L>,
    chunk: Seq<u8>,
    level: Option<L>,
    loud: bool,
    now_ns: u128,
)
    ensures
        ({
            let event = SessionEvent::Chunk { bytes: chunk, heard: level is Some, loud, now_ns };
            let open = session_after(session, event).gate.active;
            let after = status_after_chunk(status, session, level, loud, now_ns);
            &&& after.rms_db == level
            &&& open ==> after.state == status.state
            &&& !open ==> after.state == "IDLE"@
            &&& after.track_change <==> status.track_change || (!session.gate.active && open
                && session.idle_since_ns is Some && now_ns >= session.idle_since_ns->0
                + 2_000_000_000)
            &&& after == (crate::status::StatusView {
                rms_db: after.rms_db,
                state: after.state,
                track_change: after.track_change,
                ..status
            })
        }),
{
}

/// What a tick sends, with the sizes written out. With the sound gate open, a connection
/// and a chunk or more in the queue, it sends the front of the queue: whole chunks, all
/// there are or four. Else it sends nothing. What it does not send stays queued. A tick
/// that finds less than a chunk counts what is missing.
#[verifier::spinoff_prover]
#[verifier::rlimit(40)]
pub proof fn law_what_a_tick_does<L>(session: SessionView<L>)
    requires
        session.counters.underrun_bytes + crate::stream::chunk_bytes(session.output_rate)
            <= u64::MAX,
    ensures
        ({
            let payload = tick_payload(session);
            let after = session_after(session, SessionEvent::Tick);
            let chunk = crate::stream::chunk_bytes(session.output_rate);
            let open = session.gate.active && session.connected;
            let enough = session.pending.len() >= chunk;
            &&& streaming(session) <==> open
            &&& open && enough ==> {
                &&& payload.len() % chunk as nat == 0
                &&& chunk <= payload.len() <= 4 * chunk
                &&& payload.len() <= session.pending.len()
                &&& payload.len() == 4 * chunk || session.pending.len() - payload.len() < chunk
            }
            &&& !(open && enough) ==> payload.len() == 0
            &&& payload == session.pending.take(payload.len() as int)
            &&& after.pending == session.pending.skip(payload.len() as int)
            &&& open && !enough ==> tick_shortfall(session) == chunk - session.pending.len()
                && after.counters.underrun_bytes == session.counters.underrun_bytes + chunk
                - session.pending.len()
            &&& !(open && !enough) ==> tick_shortfall(session) == 0 && after.counters
                == session.counters
            &&& after == (SessionView {
                pending: after.pending,
                counters: Counters {
                    underrun_bytes: after.counters.underrun_bytes,
                    ..session.counters
                },
                ..session
            })
        }),
{
    let chunk = crate::stream::chunk_bytes(session.output_rate);
    let pending = session.pending.len() as int;
    crate::stream::law_chunk_is_ten_milliseconds(session.output_rate);
    crate::stream::law_tick_drains_whole_chunks(pending, chunk);
    crate::stream::law_tick_sends_the_backlog_up_to_four_chunks(pending, chunk);
    let n = crate::stream::chunks_for_tick(pending, chunk);
    assert(n * chunk <= 4 * chunk) by (nonlinear_arith)
        requires
            n <= 4,
            chunk > 0,
    ;
    assert(tick_payload(session) =~= session.pending.take(tick_payload(session).len() as int));
}

/// Sound that opens the sound gate is sent from its first byte on: where nothing was queued, the
/// next tick sends the beginning of the chunk, also if a new track begins with it.
pub proof fn law_opening_chunk_is_sent<L>(session: SessionView<L>, chunk: Seq<u8>, now_ns: u128)
    requires
        session.connected,
        session.pending.len() == 0,
        crate::stream::chunk_bytes(session.output_rate) <= chunk.len(),
        chunk.len() <= 8 * session.output_rate <= u32::MAX,
    ensures
        ({
            let event = SessionEvent::Chunk { bytes: chunk, heard: true, loud: true, now_ns };
            let after = session_after(session, event);
            let payload = tick_payload(after);
            &&& payload.len() >= crate::stream::chunk_bytes(session.output_rate)
            &&& payload == chunk.take(payload.len() as int)
            &&& payload + session_after(after, SessionEvent::Tick).pending == chunk
        }),
{
    let event = SessionEvent::Chunk { bytes: chunk, heard: true, loud: true, now_ns };
    let after = session_after(session, event);
    law_chunk_leaves_the_queue_only_at_a_closing(session, chunk, true, true, now_ns);
    assert(session.pending + chunk =~= chunk);
    law_tick_sends_the_front_of_the_queue(after);
    let size = crate::stream::chunk_bytes(session.output_rate);
    crate::stream::law_chunk_is_ten_milliseconds(session.output_rate);
    crate::stream::law_tick_drains_whole_chunks(chunk.len() as int, size);
    assert(tick_payload(after) =~= chunk.take(tick_payload(after).len() as int));
}

/// What the other events change, each only that: a connection stands and the delay starts
/// over at a second; a failed attempt makes the next delay longer; a lost connection is
/// gone; sent bytes are counted; new settings are taken.
pub proof fn law_what_other_events_change<L>(
    session: SessionView<L>,
    count: usize,
    threshold_db: L,
    hold_ns: u128,
)
    requires
        session.counters.bytes_since_log + count <= u64::MAX,
    ensures
        session_after(session, SessionEvent::Connected) == (SessionView {
            connected: true,
            delay_ms: 1_000,
            ..session
        }),
        session.delay_ms <= 15_000 ==> session_after(session, SessionEvent::ConnectFailed) == (
        SessionView { delay_ms: (2 * session.delay_ms) as u64, ..session }),
        session.delay_ms > 15_000 ==> session_after(session, SessionEvent::ConnectFailed) == (
        SessionView { delay_ms: 30_000, ..session }),
        session_after(session, SessionEvent::Lost) == (SessionView { connected: false, ..session }),
        ({
            let after = session_after(session, SessionEvent::Sent { count });
            &&& after.counters.bytes_since_log == session.counters.bytes_since_log + count
            &&& after == (SessionView {
                counters: Counters {
                    bytes_since_log: after.counters.bytes_since_log,
                    ..session.counters
                },
                ..session
            })
        }),
        session_after(session, SessionEvent::VadUpdate { threshold_db, hold_ns }) == (SessionView {
            threshold_db,
            hold_ns,
            ..session
        }),
{
}

/// When counts are reported: sent bytes once five seconds have gone by since the last time;
/// dropped and missing bytes too, but only if there are any. What is reported is the count
/// and the time it took, and it starts again at zero; what is not stays.
pub proof fn law_counts_are_reported_after_five_seconds<L>(session: SessionView<L>, now_ns: u128)
    ensures
        ({
            let counters = session.counters;
            let reports = reports_due(counters, now_ns);
            let event = SessionEvent::Report { now_ns };
            let after = session_after(session, event);
            let rate = now_ns >= counters.last_rate_log_ns + 5_000_000_000;
            let over = counters.overrun_bytes > 0 && now_ns >= counters.overrun_since_ns
                + 5_000_000_000;
            let under = counters.underrun_bytes > 0 && now_ns >= counters.underrun_since_ns
                + 5_000_000_000;
            &&& reports.throughput is Some <==> rate
            &&& reports.overrun is Some <==> over
            &&& reports.underrun is Some <==> under
            &&& reports.throughput matches Some(tally) ==> tally.bytes == counters.bytes_since_log
                && tally.elapsed_ns == now_ns - counters.last_rate_log_ns
            &&& reports.overrun matches Some(tally) ==> tally.bytes == counters.overrun_bytes
                && tally.elapsed_ns == now_ns - counters.overrun_since_ns
            &&& reports.underrun matches Some(tally) ==> tally.bytes == counters.underrun_bytes
                && tally.elapsed_ns == now_ns - counters.underrun_since_ns
            &&& rate ==> after.counters.bytes_since_log == 0 && after.counters.last_rate_log_ns
                == now_ns
            &&& !rate ==> after.counters.bytes_since_log == counters.bytes_since_log
                && after.counters.last_rate_log_ns == counters.last_rate_log_ns
            &&& over ==> after.counters.overrun_bytes == 0 && after.counters.overrun_since_ns
                == now_ns
            &&& !over ==> after.counters.overrun_bytes == counters.overrun_bytes
                && after.counters.overrun_since_ns == counters.overrun_since_ns
            &&& under ==> after.counters.underrun_bytes == 0 && after.counters.underrun_since_ns
                == now_ns
            &&& !under ==> after.counters.underrun_bytes == counters.underrun_bytes
                && after.counters.underrun_since_ns == counters.underrun_since_ns
            &&& after == (SessionView { counters: after.counters, ..session })
        }),
{
}

/// A new session is not connected, hears nothing, has nothing queued and has counted
/// nothing. Its counts begin now, and its first delay is one second.
pub proof fn law_new_session_is_empty<L>(
    ingest: IngestTarget,
    threshold_db: L,
    hold_ns: u128,
    output_rate: u32,
    now_ns: u128,
)
    ensures
        ({
            let session = fresh_session(ingest, threshold_db, hold_ns, output_rate, now_ns);
            &&& session.ingest == ingest
            &&& session.output_rate == output_rate
            &&& session.threshold_db == threshold_db
            &&& session.hold_ns == hold_ns
            &&& !session.connected
            &&& session.delay_ms == 1_000
            &&& !session.gate.active && session.gate.last_active_ns is None
            &&& session.idle_since_ns is None
            &&& session.pending.len() == 0
            &&& session.counters.bytes_since_log == 0
            &&& session.counters.overrun_bytes == 0
            &&& session.counters.underrun_bytes == 0
            &&& session.counters.last_rate_log_ns == now_ns
            &&& session.counters.overrun_since_ns == now_ns
            &&& session.counters.underrun_since_ns == now_ns
        }),
{
}

/// A chunk with a level is loud exactly as the comparison of the level with the threshold
/// says, in this order. Without a level it is not.
pub proof fn law_loudness_is_the_comparison<L, F: Fn(L, L) -> bool>(
    loud: bool,
    level: Option<L>,
    threshold_db: L,
    reaches: F,
)
    requires
        judged(loud, level, threshold_db, reaches),
    ensures
        level matches Some(level) ==> reaches.ensures((level, threshold_db), loud),
        level is None ==> !loud,
{
}

/// The bytes that an event brings.
pub open spec fn arriving<L>(event: SessionEvent<L>) -> Seq<u8> {
    match event {
        SessionEvent::Chunk { bytes, .. } => bytes,
        _ => Seq::empty(),
    }
}

/// The bytes that an event sends.
pub open spec fn departing<L>(session: SessionView<L>, event: SessionEvent<L>) -> Seq<u8> {
    if event is Tick {
        tick_payload(session)
    } else {
        Seq::empty()
    }
}

/// No byte is lost without a reason: what was queued and what arrives is, in this order,
/// what is sent and what is queued then, unless the event closes the sound gate or brings
/// more than two seconds of audio together with what waits.
#[verifier::spinoff_prover]
#[verifier::rlimit(40)]
pub proof fn law_nothing_is_lost_without_a_reason<L>(
    session: SessionView<L>,
    event: SessionEvent<L>,
)
    requires
        !(session.gate.active && !session_after(session, event).gate.active),
        session.pending.len() + arriving(event).len() <= 8 * session.output_rate <= u32::MAX,
    ensures
        session.pending + arriving(event) == departing(session, event) + session_after(
            session,
            event,
        ).pending,
{
    let after = session_after(session, event);
    law_tick_sends_the_front_of_the_queue(session);
    if let SessionEvent::Chunk { bytes, heard, loud, now_ns } = event {
        law_chunk_leaves_the_queue_only_at_a_closing(session, bytes, heard, loud, now_ns);
        assert(departing(session, event) + after.pending =~= after.pending);
    } else if event is Tick {
        assert(session.pending + arriving(event) =~= session.pending);
    } else {
        assert(session.pending + arriving(event) =~= departing(session, event) + after.pending);
    }
}

/// The session after a number of ticks, and what they sent.
pub open spec fn after_ticks<L>(session: SessionView<L>, ticks: nat) -> (SessionView<L>, Seq<u8>)
    decreases ticks,
{
    if ticks == 0 {
        (session, Seq::empty())
    } else {
        let (before, sent) = after_ticks(session, (ticks - 1) as nat);
        (session_after(before, SessionEvent::Tick), sent + tick_payload(before))
    }
}

/// While the sound gate is open and the connection stands, ticks send all that is queued,
/// in order, down to less than a chunk: after as many ticks as there are chunks nothing
/// else is left.
#[verifier::spinoff_prover]
#[verifier::rlimit(40)]
pub proof fn law_ticks_send_all_that_is_queued<L>(session: SessionView<L>, ticks: nat)
    requires
        session.gate.active,
        session.connected,
    ensures
        ({
            let (after, sent) = after_ticks(session, ticks);
            let chunk = crate::stream::chunk_bytes(session.output_rate);
            &&& sent + after.pending == session.pending
            &&& after.gate == session.gate
            &&& after.connected
            &&& after.output_rate == session.output_rate
            &&& after.pending.len() < chunk || sent.len() >= ticks * chunk
            &&& session.pending.len() < ticks * chunk ==> after.pending.len() < chunk
        }),
    decreases ticks,
{
    let chunk = crate::stream::chunk_bytes(session.output_rate);
    crate::stream::law_chunk_is_ten_milliseconds(session.output_rate);
    if ticks == 0 {
        assert(Seq::<u8>::empty() + session.pending =~= session.pending);
    } else {
        let past = (ticks - 1) as nat;
        law_ticks_send_all_that_is_queued(session, past);
        let (before, sent) = after_ticks(session, past);
        law_tick_sends_the_front_of_the_queue(before);
        crate::stream::law_tick_drains_whole_chunks(before.pending.len() as int, chunk);
        let payload = tick_payload(before);
        let after = session_after(before, SessionEvent::Tick);
        assert((sent + payload) + after.pending =~= sent + (payload + after.pending));
        assert(ticks * chunk == past * chunk + chunk) by (nonlinear_arith)
            requires
                ticks == past + 1,
        ;
    }
}

} // verus!
