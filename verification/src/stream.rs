//! Pacing, reconnecting, gating, and the framing of the ingest connection.
//!
//! Times are nanoseconds of a clock that does not run backwards; delays and
//! intervals are milliseconds.

use vstd::prelude::*;

use crate::models::SourceCommand;
use crate::text::{append_decimal, begins_with, trim};

verus! {

/// How much audio goes out per write, and therefore the floor on how late it can
/// be. It is small enough to be inaudible on its own and still several hundred
/// frames per write.
pub const CHUNK_MS: u32 = 10;

/// The backlog that is sent on one tick, at most.
pub const MAX_CHUNKS_PER_TICK: usize = 4;

/// A silence of this length separates two tracks.
pub const TRACK_GAP_NS: u128 = 2_000_000_000;

/// `n`, or the largest 32-bit number if it is larger.
pub open spec fn saturated(n: int) -> int {
    if n > u32::MAX {
        u32::MAX as int
    } else {
        n
    }
}

fn saturating_product(a: u32, b: u32) -> (r: u32)
    ensures
        r == saturated(a * b),
{
    match a.checked_mul(b) {
        Some(product) => product,
        None => u32::MAX,
    }
}

/// The bytes of the whole frames among `bytes`: a frame has 4, two for each side.
pub open spec fn whole_frames(bytes: int) -> int {
    bytes / 4 * 4
}

/// The bytes of one chunk: whole frames, and never less than one.
pub open spec fn chunk_bytes(rate: u32) -> int {
    let bytes = whole_frames(saturated(saturated(rate * 4) * CHUNK_MS) / 1000);
    if bytes < 4 {
        4
    } else {
        bytes
    }
}

/// The bytes of two seconds.
pub open spec fn buffer_bytes(rate: u32) -> int {
    saturated(saturated(rate * 4) * 2)
}

/// The bytes that the queue of a session holds: the whole frames of the buffer.
pub open spec fn queue_limit(rate: u32) -> int {
    whole_frames(buffer_bytes(rate))
}

/// How many bytes one chunk of the stream holds. A chunk is made of whole frames, so
/// that sending whole chunks never puts half a frame on the stream.
pub fn chunk_bytes_for_rate(rate: u32) -> (r: usize)
    ensures
        r == chunk_bytes(rate),
        r >= 4,
        r % 4 == 0,
{
    let per_second: u32 = saturating_product(rate, 4);
    let bytes: u32 = saturating_product(per_second, CHUNK_MS) / 1000 / 4 * 4;
    if bytes < 4 {
        4
    } else {
        bytes as usize
    }
}

/// The time between two ticks, in milliseconds.
pub fn chunk_interval() -> (r: u64)
    ensures
        r == CHUNK_MS,
{
    CHUNK_MS as u64
}

/// How many bytes may wait to be sent.
pub fn max_buffer_bytes_for_rate(rate: u32) -> (r: usize)
    ensures
        r == buffer_bytes(rate),
{
    let buffer_seconds: u32 = 2;
    saturating_product(saturating_product(rate, 4), buffer_seconds) as usize
}

/// The whole chunks that one tick sends.
pub open spec fn chunks_for_tick(pending: int, chunk: int) -> int {
    if pending / chunk < 1 {
        1
    } else if pending / chunk > MAX_CHUNKS_PER_TICK {
        MAX_CHUNKS_PER_TICK as int
    } else {
        pending / chunk
    }
}

/// Bytes to send on one tick, given what is queued: the backlog in whole chunks,
/// capped so that a long stall does not dump seconds of audio at once.
pub fn drain_bytes_for_tick(pending_len: usize, chunk_bytes: usize) -> (r: usize)
    requires
        chunk_bytes > 0,
    ensures
        r == chunks_for_tick(pending_len as int, chunk_bytes as int) * chunk_bytes,
{
    let whole: usize = pending_len / chunk_bytes;
    let chunks: usize = if whole < 1 {
        1
    } else if whole > MAX_CHUNKS_PER_TICK {
        MAX_CHUNKS_PER_TICK
    } else {
        whole
    };
    proof {
        law_tick_drains_whole_chunks(pending_len as int, chunk_bytes as int);
        assert(1 * chunk_bytes == chunk_bytes);
    }
    chunks * chunk_bytes
}

/// Where at least one chunk is queued, a tick sends whole chunks, at least one,
/// at most four, and never more than is queued.
pub proof fn law_tick_drains_whole_chunks(pending: int, chunk: int)
    requires
        chunk > 0,
        pending >= 0,
    ensures
        1 <= chunks_for_tick(pending, chunk) <= MAX_CHUNKS_PER_TICK,
        (chunks_for_tick(pending, chunk) * chunk) % chunk == 0,
        pending >= chunk ==> chunk <= chunks_for_tick(pending, chunk) * chunk <= pending,
        pending < chunk ==> chunks_for_tick(pending, chunk) == 1,
{
    let n = chunks_for_tick(pending, chunk);
    let whole = pending / chunk;
    assert((n * chunk) % chunk == 0) by {
        vstd::arithmetic::div_mod::lemma_mod_multiples_basic(n, chunk);
    }
    assert(whole * chunk <= pending && (pending >= chunk ==> whole >= 1) && (pending < chunk
        ==> whole == 0)) by (nonlinear_arith)
        requires
            whole == pending / chunk,
            chunk > 0,
            pending >= 0,
    ;
    if pending >= chunk {
        assert(chunk <= n * chunk <= whole * chunk) by (nonlinear_arith)
            requires
                1 <= n <= whole,
                chunk > 0,
        ;
    }
}

/// While two chunks or more are queued, the backlog shrinks even though one chunk
/// arrives per tick.
pub proof fn law_backlog_shrinks(pending: int, chunk: int)
    requires
        chunk > 0,
        pending >= 2 * chunk,
    ensures
        pending - chunks_for_tick(pending, chunk) * chunk + chunk < pending,
{
    let n = chunks_for_tick(pending, chunk);
    assert(pending / chunk >= 2) by (nonlinear_arith)
        requires
            chunk > 0,
            pending >= 2 * chunk,
    ;
    assert(n * chunk >= 2 * chunk) by (nonlinear_arith)
        requires
            n >= 2,
            chunk > 0,
    ;
}

/// As long as its size is a 32-bit number, the buffer holds two seconds of stereo
/// with two bytes a sample, and the queue may fill all of it. A second is a hundred
/// chunks where it is a hundred times a number of frames.
pub proof fn law_buffer_holds_two_seconds(rate: u32)
    requires
        rate * 40 <= u32::MAX,
    ensures
        buffer_bytes(rate) == 2 * (4 * rate),
        queue_limit(rate) == buffer_bytes(rate),
        rate >= 100 && rate % 100 == 0 ==> 100 * chunk_bytes(rate) == 4 * rate,
{
}

/// At every rate a chunk is made of whole frames, at least one, and so is a full
/// queue.
pub proof fn law_chunk_holds_whole_frames(rate: u32)
    ensures
        chunk_bytes(rate) >= 4,
        chunk_bytes(rate) % 4 == 0,
        queue_limit(rate) % 4 == 0,
        0 <= queue_limit(rate) <= buffer_bytes(rate),
{
}

/// The first delay before a new attempt to connect, in milliseconds.
pub const FIRST_DELAY_MS: u64 = 1_000;

/// The longest delay before a new attempt to connect, in milliseconds.
pub const LONGEST_DELAY_MS: u64 = 30_000;

/// The growing delay between attempts to connect.
#[derive(Debug)]
pub struct Backoff {
    current_ms: u64,
}

/// The delay that follows a delay.
pub open spec fn delay_after(delay: u64) -> u64 {
    if delay * 2 < LONGEST_DELAY_MS {
        (delay * 2) as u64
    } else {
        LONGEST_DELAY_MS
    }
}

impl View for Backoff {
    type V = u64;

    /// The delay before the next attempt.
    closed spec fn view(&self) -> u64 {
        self.current_ms
    }
}

impl Backoff {
    /// The delay lies between the first and the longest one.
    pub open spec fn wf(&self) -> bool {
        FIRST_DELAY_MS <= self@ <= LONGEST_DELAY_MS
    }

    pub fn new() -> (r: Self)
        ensures
            r.wf(),
            r@ == FIRST_DELAY_MS,
    {
        Backoff { current_ms: FIRST_DELAY_MS }
    }

    pub fn reset(&mut self)
        ensures
            final(self).wf(),
            final(self)@ == FIRST_DELAY_MS,
    {
        self.current_ms = FIRST_DELAY_MS;
    }

    /// The delay before the next attempt, in milliseconds.
    pub fn next_delay(&mut self) -> (r: u64)
        requires
            old(self).wf(),
        ensures
            final(self).wf(),
            r == old(self)@,
            final(self)@ == delay_after(old(self)@),
    {
        let delay: u64 = self.current_ms;
        self.current_ms = if delay * 2 < LONGEST_DELAY_MS {
            delay * 2
        } else {
            LONGEST_DELAY_MS
        };
        delay
    }
}

/// The delay after `failures` failures in a row.
pub open spec fn delay_after_failures(failures: nat) -> u64
    decreases failures,
{
    if failures == 0 {
        FIRST_DELAY_MS
    } else {
        delay_after(delay_after_failures((failures - 1) as nat))
    }
}

/// The delay doubles from one second and stays at thirty.
pub proof fn law_delay_doubles_up_to_the_longest(failures: nat)
    ensures
        failures < 5 ==> delay_after_failures(failures) == FIRST_DELAY_MS
            * vstd::arithmetic::power2::pow2(failures),
        failures >= 5 ==> delay_after_failures(failures) == LONGEST_DELAY_MS,
    decreases failures,
{
    vstd::arithmetic::power2::lemma2_to64();
    reveal_with_fuel(delay_after_failures, 6);
    if failures > 5 {
        law_delay_doubles_up_to_the_longest((failures - 1) as nat);
    }
}

/// Whether there is sound worth streaming.
#[derive(Debug, Clone, Copy, PartialEq, Eq)]
pub struct VadGate {
    pub active: bool,
    /// When a loud chunk was last heard.
    pub last_active_ns: Option<u128>,
}

/// Whether the sound gate is held open at `now` by what was heard before.
pub open spec fn held(gate: VadGate, now_ns: u128, hold_ns: u128) -> bool {
    gate.last_active_ns matches Some(last) && crate::resampler::elapsed(last, now_ns) <= hold_ns
}

/// The sound gate after a chunk was heard: a loud one opens it, and a quiet one closes
/// it once the hold time is over.
pub open spec fn gate_after(gate: VadGate, loud: bool, now_ns: u128, hold_ns: u128) -> VadGate {
    if loud {
        VadGate { active: true, last_active_ns: Some(now_ns) }
    } else if held(gate, now_ns, hold_ns) {
        gate
    } else {
        VadGate { active: false, ..gate }
    }
}

impl VadGate {
    pub fn new() -> (r: Self)
        ensures
            r == (VadGate { active: false, last_active_ns: None }),
    {
        VadGate { active: false, last_active_ns: None }
    }

    pub fn set_active(&mut self, now_ns: u128)
        ensures
            *final(self) == (VadGate { active: true, last_active_ns: Some(now_ns) }),
    {
        self.active = true;
        self.last_active_ns = Some(now_ns);
    }

    pub fn set_inactive(&mut self)
        ensures
            *final(self) == (VadGate { active: false, ..*old(self) }),
    {
        self.active = false;
    }

    /// Whether the hold time since the last loud chunk is not over.
    pub fn should_keep_active(&self, now_ns: u128, hold_ns: u128) -> (r: bool)
        ensures
            r == held(*self, now_ns, hold_ns),
    {
        match self.last_active_ns {
            Some(last) => {
                let elapsed_ns: u128 = if now_ns >= last {
                    now_ns - last
                } else {
                    0
                };
                elapsed_ns <= hold_ns
            },
            None => false,
        }
    }

    /// Takes note of a chunk.
    pub fn hear(&mut self, loud: bool, now_ns: u128, hold_ns: u128)
        ensures
            *final(self) == gate_after(*old(self), loud, now_ns, hold_ns),
    {
        if loud {
            self.set_active(now_ns);
        } else if !self.should_keep_active(now_ns, hold_ns) {
            self.set_inactive();
        }
    }
}

/// After a chunk was heard, the sound gate is open exactly if the chunk was loud, or the
/// gate was open and the hold time since the last loud chunk is not over.
pub proof fn law_gate_follows_sound_and_hold(
    gate: VadGate,
    loud: bool,
    now_ns: u128,
    hold_ns: u128,
)
    ensures
        gate_after(gate, loud, now_ns, hold_ns).active <==> loud || (gate.active && held(
            gate,
            now_ns,
            hold_ns,
        )),
        gate_after(gate, loud, now_ns, hold_ns).active ==> held(
            gate_after(gate, loud, now_ns, hold_ns),
            now_ns,
            hold_ns,
        ),
{
}

/// Where the audio goes.
#[derive(Debug)]
pub enum IngestTarget {
    Tcp { host: String, port: u16, header: String },
    Ws { url: String },
}

/// What it takes to connect: the address and the first line, or the URL.
#[derive(Debug)]
pub enum ConnectPlan {
    Tcp { addr: String, header_line: String },
    Ws { url: String },
}

/// Whether `plan` connects to `target`: over TCP to `host:port`, with the header
/// and a line feed as the first line; over WebSocket to the URL.
pub open spec fn connects_to(plan: ConnectPlan, target: IngestTarget) -> bool {
    match target {
        IngestTarget::Tcp { host, port, header } => {
            &&& plan matches ConnectPlan::Tcp { addr, header_line }
            &&& addr@ == host@ + seq![':'] + crate::text::decimal(port as nat)
            &&& header_line@ == header@ + seq!['\n']
        },
        IngestTarget::Ws { url } => plan matches ConnectPlan::Ws { url: to } && to@ == url@,
    }
}

/// How to connect to a target.
pub fn connect_plan(target: &IngestTarget) -> (r: ConnectPlan)
    ensures
        connects_to(r, *target),
{
    proof {
        reveal_strlit(":");
        reveal_strlit("\n");
        assert(":"@ =~= seq![':']);
        assert("\n"@ =~= seq!['\n']);
    }
    match target {
        IngestTarget::Tcp { host, port, header } => {
            let mut addr = host.clone();
            addr.append(":");
            append_decimal(&mut addr, *port as u64);
            let mut header_line = header.clone();
            header_line.append("\n");
            ConnectPlan::Tcp { addr, header_line }
        },
        IngestTarget::Ws { url } => ConnectPlan::Ws { url: url.clone() },
    }
}

/// What came in on the ingest socket.
#[derive(Debug)]
pub enum SocketMessage {
    Text(String),
    Close,
    /// A frame that carries no command: binary, ping or pong.
    Other,
    /// Reading failed, with the reason.
    Failed(String),
    /// The socket has come to its end.
    Ended,
}

/// What a message means.
#[derive(Debug)]
pub enum FrameOutcome {
    /// A command frame with its text.
    Command(String),
    /// The connection is lost, with the reason.
    Lost(String),
    Nothing,
}

/// Tells commands from the loss of the connection.
pub fn read_ws_frame(message: SocketMessage) -> (r: FrameOutcome)
    ensures
        match message {
            SocketMessage::Text(text) => r == FrameOutcome::Command(text),
            SocketMessage::Close => r matches FrameOutcome::Lost(reason) && reason@
                == "ingest socket closed by server"@,
            SocketMessage::Other => r is Nothing,
            SocketMessage::Failed(reason) => r == FrameOutcome::Lost(reason),
            SocketMessage::Ended => r matches FrameOutcome::Lost(reason) && reason@
                == "ingest socket ended"@,
        },
{
    match message {
        SocketMessage::Text(text) => FrameOutcome::Command(text),
        SocketMessage::Close => FrameOutcome::Lost("ingest socket closed by server".to_owned()),
        SocketMessage::Other => FrameOutcome::Nothing,
        SocketMessage::Failed(reason) => FrameOutcome::Lost(reason),
        SocketMessage::Ended => FrameOutcome::Lost("ingest socket ended".to_owned()),
    }
}

/// What is done with a command frame.
#[derive(Debug)]
pub enum CommandAction {
    /// The frame is empty.
    Skip,
    /// The command goes to the hook.
    Run(SourceCommand),
    /// The frame looks like JSON but is no command.
    Malformed,
}

/// Whether a trimmed frame looks like JSON.
pub open spec fn looks_like_json(text: Seq<char>) -> bool {
    text.len() > 0 && (text[0] == '{' || text[0] == '[')
}

/// Decides on a command frame. `parsed` is the command that the trimmed text
/// stands for as JSON, if it does. A bare word is a command without arguments. The
/// vocabulary belongs to the server: a command that is not known here still
/// reaches the hook.
pub fn dispatch_command_frame(text: &str, parsed: Option<SourceCommand>) -> (r: CommandAction)
    ensures
        ({
            let trimmed = crate::text::trimmed(text@);
            if trimmed.len() == 0 {
                r is Skip
            } else if let Some(command) = parsed {
                r == CommandAction::Run(command)
            } else if looks_like_json(trimmed) {
                r is Malformed
            } else {
                r matches CommandAction::Run(command) && command.command@ == trimmed
                    && command.args@.len() == 0
            }
        }),
        ({
            let trimmed = crate::text::trimmed(text@);
            &&& r is Malformed <==> parsed is None && trimmed.len() > 0 && (trimmed[0] == '{'
                || trimmed[0] == '[')
            &&& r is Skip <==> trimmed.len() == 0
        }),
{
    let trimmed = trim(text);
    if trimmed.is_empty() {
        return CommandAction::Skip;
    }
    match parsed {
        Some(command) => CommandAction::Run(command),
        None => {
            if !begins_with(trimmed, '{') && !begins_with(trimmed, '[') {
                CommandAction::Run(SourceCommand { command: trimmed.to_owned(), args: Vec::new() })
            } else {
                CommandAction::Malformed
            }
        },
    }
}

/// A chunk holds ten milliseconds of audio, short of that by less than a frame: whole
/// frames of 4 bytes, and never none. From the rate on at which the sum no longer fits
/// 32 bits the chunk stays the same.
pub proof fn law_chunk_is_ten_milliseconds(rate: u32)
    ensures
        chunk_bytes(rate) % 4 == 0,
        chunk_bytes(rate) >= 4,
        100 <= rate && rate * 40 <= u32::MAX ==> {
            &&& 1000 * chunk_bytes(rate) <= 40 * rate
            &&& 40 * rate < 1000 * (chunk_bytes(rate) + 4)
        },
        rate < 100 ==> chunk_bytes(rate) == 4,
        rate * 40 > u32::MAX ==> chunk_bytes(rate) == 4_294_964,
{
}

/// The buffer holds two seconds of 4 bytes a frame, or as much of them as 32 bits can
/// count, and the queue the whole frames of it.
pub proof fn law_buffer_is_two_seconds(rate: u32)
    ensures
        rate * 8 <= u32::MAX ==> buffer_bytes(rate) == 8 * rate && queue_limit(rate) == 8 * rate,
        rate * 8 > u32::MAX ==> buffer_bytes(rate) == 4_294_967_295 && queue_limit(rate)
            == 4_294_967_292,
{
}

/// A tick sends as many whole chunks as are queued, but no more than four, and one if
/// there is not even that.
pub proof fn law_tick_sends_the_backlog_up_to_four_chunks(pending: int, chunk: int)
    requires
        chunk > 0,
        pending >= 0,
    ensures
        pending < chunk ==> chunks_for_tick(pending, chunk) == 1,
        chunk <= pending < 4 * chunk ==> {
            let sent = chunks_for_tick(pending, chunk) * chunk;
            sent <= pending < sent + chunk
        },
        4 * chunk <= pending ==> chunks_for_tick(pending, chunk) == 4,
{
    let whole = pending / chunk;
    assert(whole * chunk <= pending < whole * chunk + chunk) by (nonlinear_arith)
        requires
            whole == pending / chunk,
            chunk > 0,
    ;
    assert(pending < chunk ==> whole < 1) by (nonlinear_arith)
        requires
            whole * chunk <= pending,
            chunk > 0,
    ;
    assert(4 * chunk <= pending ==> whole >= 4) by (nonlinear_arith)
        requires
            pending < whole * chunk + chunk,
            chunk > 0,
    ;
    assert(chunk <= pending && pending < 4 * chunk ==> 1 <= whole <= 3) by (nonlinear_arith)
        requires
            whole * chunk <= pending < whole * chunk + chunk,
            chunk > 0,
    ;
}

/// A delay is followed by twice the delay, but never by more than half a minute. The
/// first is one second.
pub proof fn law_next_delay(delay: u64)
    ensures
        delay <= 15_000 ==> delay_after(delay) == 2 * delay,
        delay >= 15_000 ==> delay_after(delay) == 30_000,
        delay_after_failures(0) == 1_000,
        delay_after_failures(1) == 2_000,
{
    reveal_with_fuel(delay_after_failures, 3);
}

/// What a chunk does to the sound gate, with the times written out. A loud chunk opens it
/// and is remembered. A quiet one changes only whether it is open: it stays open if it
/// was and no more than the hold time has gone by since the last loud chunk.
pub proof fn law_gate_after_a_chunk(gate: VadGate, loud: bool, now_ns: u128, hold_ns: u128)
    ensures
        loud ==> gate_after(gate, loud, now_ns, hold_ns).active && gate_after(
            gate,
            loud,
            now_ns,
            hold_ns,
        ).last_active_ns == Some(now_ns),
        !loud ==> {
            let after = gate_after(gate, loud, now_ns, hold_ns);
            &&& after.last_active_ns == gate.last_active_ns
            &&& !gate.active || gate.last_active_ns is None ==> !after.active
            &&& gate.active && gate.last_active_ns is Some ==> (after.active <==> now_ns
                <= gate.last_active_ns->0 + hold_ns)
        },
{
}

/// Whether the hold time is over, with the times written out.
pub proof fn law_hold_lasts_from_the_last_sound(gate: VadGate, now_ns: u128, hold_ns: u128)
    ensures
        held(gate, now_ns, hold_ns) <==> gate.last_active_ns is Some && now_ns
            <= gate.last_active_ns->0 + hold_ns,
{
}

/// How a target is reached: over TCP at the host, a colon and the port in digits, with the
/// header and a line feed as the first line; over WebSocket at the URL as it is.
pub proof fn law_plan_reaches_the_target(plan: ConnectPlan, target: IngestTarget)
    requires
        connects_to(plan, target),
    ensures
        target is Tcp <==> plan is Tcp,
        target matches IngestTarget::Tcp { host, port, header } ==> {
            &&& plan matches ConnectPlan::Tcp { addr, header_line }
            &&& addr@.len() > host@.len()
            &&& addr@.take(host@.len() as int) == host@
            &&& addr@[host@.len() as int] == ':'
            &&& crate::text::number(addr@.skip((host@.len() + 1) as int)) == port
            &&& header_line@.len() == header@.len() + 1
            &&& header_line@.last() == '\n'
            &&& header_line@.drop_last() == header@
        },
        target matches IngestTarget::Ws { url } ==> plan matches ConnectPlan::Ws { url: to } && to@
            == url@,
{
    if let IngestTarget::Tcp { host, port, header } = target {
        if let ConnectPlan::Tcp { addr, header_line } = plan {
            crate::text::law_decimal_reads_back(port as nat);
            assert(addr@.take(host@.len() as int) =~= host@);
            assert(addr@.skip((host@.len() + 1) as int) =~= crate::text::decimal(port as nat));
            assert(header_line@.drop_last() =~= header@);
        }
    }
}

/// A frame that is no JSON command is malformed exactly if its first character is an
/// opening brace or bracket. With any other first character it is a command.
pub proof fn law_only_brackets_look_like_json(text: Seq<char>)
    ensures
        looks_like_json(text) <==> text.len() > 0 && (text[0] == '{' || text[0] == '['),
        text.len() == 0 ==> !looks_like_json(text),
{
}

} // verus!
