//! Bringing captured audio to the rate of the stream.
//!
//! The embedding program interpolates and filters; here stands everything
//! around it: which samples are waiting, which ones enter each step, and which
//! rate the device is believed to run at. Times are nanoseconds of a clock that
//! does not run backwards.

use vstd::prelude::*;

use crate::audio::ResamplerMode;
use crate::pcm::{interleave_to_i16, stereo_at};

verus! {

/// The last `max` elements of `s`, or all of it if it is no longer than that.
pub open spec fn newest<T>(s: Seq<T>, max: int) -> Seq<T> {
    if s.len() > max {
        s.skip(s.len() - max)
    } else {
        s
    }
}

/// However much is queued, at most `max` elements are kept, and they are the last
/// ones.
pub proof fn law_newest_is_a_bounded_end<T>(s: Seq<T>, max: int)
    requires
        max >= 0,
    ensures
        newest(s, max).len() <= max,
        s.len() <= max ==> newest(s, max) == s,
        newest(s, max) == s.skip(s.len() - newest(s, max).len()),
{
    assert(s.skip(0) =~= s);
}

/// The samples waiting for linear interpolation, interleaved.
#[derive(Debug)]
pub struct LinearResampler<S> {
    buffer: Vec<S>,
}

impl<S> View for LinearResampler<S> {
    type V = Seq<S>;

    closed spec fn view(&self) -> Seq<S> {
        self.buffer@
    }
}

/// Whether `out` holds, for each of `positions` in turn, both sides of the
/// mixture of the frame at the position and the one after it.
pub open spec fn mixes<S, W, F: Fn(S, S, W) -> i16>(
    out: Seq<i16>,
    frames: Seq<(S, S)>,
    positions: Seq<(usize, W)>,
    mix: F,
) -> bool {
    &&& out.len() == 2 * positions.len()
    &&& forall|k: int|
        #![trigger positions[k]]
        0 <= k < positions.len() ==> {
            let a = frames[positions[k].0 as int];
            let b = frames[positions[k].0 + 1];
            &&& mix.ensures((a.0, b.0, positions[k].1), out[2 * k])
            &&& mix.ensures((a.1, b.1, positions[k].1), out[2 * k + 1])
        }
}

impl<S: Copy> LinearResampler<S> {
    /// Nothing is waiting.
    pub fn new(in_channels: u16) -> (r: Self)
        ensures
            r@ == Seq::<S>::empty(),
    {
        LinearResampler { buffer: Vec::with_capacity(in_channels as usize * 2048) }
    }

    /// Forgets what is waiting.
    pub fn reset(&mut self)
        ensures
            final(self)@ == Seq::<S>::empty(),
    {
        self.buffer.clear();
    }

    /// Queues captured samples. At most one second of the stream's rate is kept,
    /// the newest. Returns how many whole frames that took off the front.
    pub fn push_input(&mut self, input: &[S], in_channels: u16, target_rate: u32) -> (dropped: usize)
        requires
            in_channels > 0,
            in_channels as int * target_rate as int <= usize::MAX,
        ensures
            final(self)@ == newest(old(self)@ + input@, in_channels as int * target_rate as int),
            dropped == (old(self)@.len() + input@.len() - final(self)@.len()) / in_channels as int,
    {
        let ghost queued = self.buffer@;
        let mut i: usize = 0;
        while i < input.len()
            invariant
                i <= input@.len(),
                self.buffer@ == queued + input@.take(i as int),
            decreases input@.len() - i,
        {
            self.buffer.push(input[i]);
            assert(self.buffer@ =~= queued + input@.take(i + 1));
            i = i + 1;
        }
        assert(self.buffer@ =~= queued + input@);
        let channels: usize = in_channels as usize;
        assert(in_channels as int * target_rate as int == channels as int * target_rate as int);
        let max: usize = channels * target_rate as usize;
        if self.buffer.len() > max {
            let excess: usize = self.buffer.len() - max;
            self.buffer = self.buffer.split_off(excess);
            excess / channels
        } else {
            assert(0int / in_channels as int == 0) by (nonlinear_arith)
                requires
                    in_channels > 0,
            ;
            0
        }
    }

    /// How many whole frames are waiting.
    pub fn available_frames(&self, in_channels: u16) -> (r: usize)
        requires
            in_channels > 0,
        ensures
            r == self@.len() / in_channels as nat,
    {
        self.buffer.len() / in_channels as usize
    }

    /// Mixes the frame at each position with the one after it, then takes
    /// `consumed` frames off the front.
    pub fn emit<W: Copy, F: Fn(S, S, W) -> i16>(
        &mut self,
        positions: &Vec<(usize, W)>,
        consumed: usize,
        in_channels: u16,
        silence: S,
        mix: F,
    ) -> (r: Vec<i16>)
        requires
            in_channels > 0,
            forall|k: int|
                0 <= k < positions@.len() ==> (#[trigger] positions@[k]).0 + 1 < old(self)@.len()
                    / in_channels as nat,
            consumed * in_channels <= old(self)@.len(),
            forall|a: S, b: S, w: W| mix.requires((a, b, w)),
        ensures
            mixes(
                r@,
                crate::pcm::stereo_frames(old(self)@, in_channels, silence),
                positions@,
                mix,
            ),
            final(self)@ == old(self)@.skip(consumed * in_channels),
    {
        let ghost data = self.buffer@;
        let ghost frames = crate::pcm::stereo_frames(data, in_channels, silence);
        let channels: usize = in_channels as usize;
        let len: usize = self.buffer.len();
        let mut out: Vec<i16> = Vec::new();
        let mut done: usize = 0;
        while done < positions.len()
            invariant
                in_channels > 0,
                channels == in_channels,
                data == self.buffer@,
                len == data.len(),
                frames == crate::pcm::stereo_frames(data, in_channels, silence),
                done <= positions@.len(),
                forall|k: int|
                    0 <= k < positions@.len() ==> (#[trigger] positions@[k]).0 + 1 < data.len()
                        / in_channels as nat,
                forall|a: S, b: S, w: W| mix.requires((a, b, w)),
                mixes(out@, frames, positions@.take(done as int), mix),
            decreases positions@.len() - done,
        {
            let (index, weight) = positions[done];
            proof {
                crate::pcm::lemma_frame_fits(data.len() as int, in_channels as int, index as int);
                crate::pcm::lemma_frame_fits(data.len() as int, in_channels as int, index + 1);
            }
            let at: usize = index * channels;
            let a = stereo_at(self.buffer.as_slice(), at, in_channels, silence);
            let b = stereo_at(self.buffer.as_slice(), at + channels, in_channels, silence);
            let ghost before = out@;
            out.push(mix(a.0, b.0, weight));
            out.push(mix(a.1, b.1, weight));
            proof {
                assert(a == frames[index as int]);
                assert(b == frames[index + 1]);
                let past = positions@.take(done as int);
                let now = positions@.take(done + 1);
                assert forall|k: int|
                    #![trigger now[k]]
                    0 <= k < now.len() implies ({
                    let a = frames[now[k].0 as int];
                    let b = frames[now[k].0 + 1];
                    &&& mix.ensures((a.0, b.0, now[k].1), out@[2 * k])
                    &&& mix.ensures((a.1, b.1, now[k].1), out@[2 * k + 1])
                }) by {
                    if k < done {
                        assert(past[k] == now[k]);
                        assert(out@[2 * k] == before[2 * k]);
                        assert(out@[2 * k + 1] == before[2 * k + 1]);
                    }
                }
            }
            done = done + 1;
        }
        assert(positions@.take(done as int) == positions@);
        assert(consumed as int * in_channels as int == consumed as int * channels as int);
        let front: usize = consumed * channels;
        self.buffer = self.buffer.split_off(front);
        out
    }
}

/// The positions, `n` frames further on.
pub open spec fn shifted<W>(positions: Seq<(usize, W)>, n: int) -> Seq<(usize, W)> {
    Seq::new(
        positions.len(),
        |k: int| ((positions[k].0 + n) as usize, positions[k].1),
    )
}

/// Whether each position has a frame after it among `frames` frames.
pub open spec fn within<W>(positions: Seq<(usize, W)>, frames: int) -> bool {
    forall|k: int| 0 <= k < positions.len() ==> (#[trigger] positions[k]).0 + 1 < frames
}

/// The frames of a queue that lost its first `n` frames and got more input are those
/// of the whole input from frame `n` on.
proof fn lemma_frames_after_consuming<S>(
    queue: Seq<S>,
    more: Seq<S>,
    n: int,
    in_channels: u16,
    silence: S,
)
    requires
        in_channels > 0,
        queue.len() % in_channels as nat == 0,
        0 <= n,
        n * in_channels <= queue.len(),
    ensures
        crate::pcm::stereo_frames(queue + more, in_channels, silence).skip(n)
            == crate::pcm::stereo_frames(
            queue.skip(n * in_channels) + more,
            in_channels,
            silence,
        ),
        n <= queue.len() / in_channels as nat,
        (queue.skip(n * in_channels) + more).len() / in_channels as nat == (queue + more).len()
            / in_channels as nat - n,
{
    let c = in_channels as int;
    let front = queue.take(n * c);
    let rest = queue.skip(n * c);
    assert(0 <= n * c && n * c % c == 0 && n * c / c == n) by {
        vstd::arithmetic::div_mod::lemma_mod_multiples_basic(n, c);
        vstd::arithmetic::div_mod::lemma_div_multiples_vanish(n, c);
        vstd::arithmetic::mul::lemma_mul_nonnegative(n, c);
        vstd::arithmetic::mul::lemma_mul_is_commutative(n, c);
    }
    assert(front + (rest + more) =~= queue + more);
    crate::pcm::law_frames_of_a_cut_input(front, rest + more, in_channels, silence);
    let frames_front = crate::pcm::stereo_frames(front, in_channels, silence);
    let frames_rest = crate::pcm::stereo_frames(rest + more, in_channels, silence);
    assert(frames_front.len() == n);
    assert((frames_front + frames_rest).skip(n) =~= frames_rest);
    vstd::arithmetic::div_mod::lemma_div_is_ordered(n * c, queue.len() as int, c);
}

/// How the input is cut does not show, whatever the positions: what a call makes at
/// some positions before it consumes `n` frames, and then what a call with more input
/// makes at other positions, is what one call with all input makes at the former
/// positions and at the latter, `n` frames further on.
#[verifier::spinoff_prover]
#[verifier::rlimit(40)]
pub proof fn law_mixing_a_cut_input<S, W, F: Fn(S, S, W) -> i16>(
    queue: Seq<S>,
    more: Seq<S>,
    n: int,
    in_channels: u16,
    silence: S,
    mix: F,
    first: Seq<(usize, W)>,
    second: Seq<(usize, W)>,
    out_first: Seq<i16>,
    out_second: Seq<i16>,
)
    requires
        in_channels > 0,
        queue.len() % in_channels as nat == 0,
        queue.len() + more.len() <= usize::MAX,
        0 <= n,
        n * in_channels <= queue.len(),
        within(first, (queue.len() / in_channels as nat) as int),
        within(
            second,
            ((queue.skip(n * in_channels) + more).len() / in_channels as nat) as int,
        ),
        mixes(
            out_first,
            crate::pcm::stereo_frames(queue, in_channels, silence),
            first,
            mix,
        ),
        mixes(
            out_second,
            crate::pcm::stereo_frames(queue.skip(n * in_channels) + more, in_channels, silence),
            second,
            mix,
        ),
    ensures
        mixes(
            out_first + out_second,
            crate::pcm::stereo_frames(queue + more, in_channels, silence),
            first + shifted(second, n),
            mix,
        ),
{
    let c = in_channels as int;
    lemma_frames_after_consuming(queue, more, n, in_channels, silence);
    crate::pcm::law_frames_of_a_cut_input(queue, more, in_channels, silence);
    let before = crate::pcm::stereo_frames(queue, in_channels, silence);
    let after = crate::pcm::stereo_frames(
        queue.skip(n * in_channels) + more,
        in_channels,
        silence,
    );
    let whole = crate::pcm::stereo_frames(queue + more, in_channels, silence);
    let positions = first + shifted(second, n);
    let out = out_first + out_second;
    vstd::arithmetic::div_mod::lemma_div_is_ordered_by_denominator(
        (queue + more).len() as int,
        1,
        c,
    );
    assert(whole.len() <= usize::MAX);
    assert forall|k: int|
        #![trigger positions[k]]
        0 <= k < positions.len() implies ({
        let a = whole[positions[k].0 as int];
        let b = whole[positions[k].0 + 1];
        &&& mix.ensures((a.0, b.0, positions[k].1), out[2 * k])
        &&& mix.ensures((a.1, b.1, positions[k].1), out[2 * k + 1])
    }) by {
        if k < first.len() {
            let at = first[k].0;
            assert(positions[k] == first[k]);
            assert(whole[at as int] == before[at as int]);
            assert(whole[at + 1] == before[at + 1]);
            assert(out[2 * k] == out_first[2 * k]);
            assert(out[2 * k + 1] == out_first[2 * k + 1]);
        } else {
            let j = k - first.len();
            let at = second[j].0;
            assert(positions[k].0 == at + n);
            assert(after[at as int] == whole.skip(n)[at as int]);
            assert(after[at + 1] == whole.skip(n)[at + 1]);
            assert(out[2 * k] == out_second[2 * j]);
            assert(out[2 * k + 1] == out_second[2 * j + 1]);
        }
    }
}

/// Whether a mixture depends on what is mixed alone.
pub open spec fn is_settled<S, W, F: Fn(S, S, W) -> i16>(mix: F) -> bool {
    forall|a: S, b: S, w: W, x: i16, y: i16|
        #[trigger] mix.ensures((a, b, w), x) && #[trigger] mix.ensures((a, b, w), y) ==> x == y
}

/// What is mixed at some positions is settled by the frames and the positions.
pub proof fn law_mixture_is_unique<S, W, F: Fn(S, S, W) -> i16>(
    frames: Seq<(S, S)>,
    positions: Seq<(usize, W)>,
    mix: F,
    x: Seq<i16>,
    y: Seq<i16>,
)
    requires
        is_settled(mix),
        mixes(x, frames, positions, mix),
        mixes(y, frames, positions, mix),
    ensures
        x == y,
{
    assert forall|i: int| 0 <= i < x.len() implies x[i] == y[i] by {
        let k = i / 2;
        let at = positions[k];
        if i % 2 == 0 {
            assert(i == 2 * k);
        } else {
            assert(i == 2 * k + 1);
        }
    }
    assert(x =~= y);
}

/// How linear interpolation moves on: a frame has `parts` parts, and one sample of the
/// stream follows the other by `step` of them. Within a frame the part says how much
/// of the frame after it is mixed in.
#[verifier::reject_recursive_types(W)]
pub struct Cursor<W> {
    pub parts: int,
    pub step: int,
    pub weight: spec_fn(int) -> W,
}

/// How far `end` lies ahead of `pos`.
pub open spec fn ahead(pos: int, end: int) -> int {
    if pos < end {
        end - pos
    } else {
        0
    }
}

/// The places from `pos` on that have a whole frame after them, where all frames
/// together have `end` parts.
pub open spec fn visited<W>(cursor: Cursor<W>, pos: int, end: int) -> Seq<int>
    decreases ahead(pos, end),
{
    if cursor.step > 0 && cursor.parts > 0 && pos + cursor.parts < end {
        seq![pos] + visited(cursor, pos + cursor.step, end)
    } else {
        Seq::empty()
    }
}

/// The first place that is not visited.
pub open spec fn stopped_at<W>(cursor: Cursor<W>, pos: int, end: int) -> int
    decreases ahead(pos, end),
{
    if cursor.step > 0 && cursor.parts > 0 && pos + cursor.parts < end {
        stopped_at(cursor, pos + cursor.step, end)
    } else {
        pos
    }
}

/// Places as frames and weights.
pub open spec fn positions_of<W>(cursor: Cursor<W>, places: Seq<int>) -> Seq<(usize, W)> {
    Seq::new(
        places.len(),
        |k: int| ((places[k] / cursor.parts) as usize, (cursor.weight)(places[k] % cursor.parts)),
    )
}

/// One call of linear interpolation.
pub struct LinearCall<S, W> {
    /// Where it mixes, to be handed to [`LinearResampler::emit`].
    pub positions: Seq<(usize, W)>,
    /// How many frames it consumes.
    pub consumed: int,
    /// What waits after it.
    pub waiting: Seq<S>,
    /// The place from which the next call goes on.
    pub pos: int,
}

/// The call that goes on from `pos` with what waits in `queue`.
pub open spec fn call_of<S, W>(
    cursor: Cursor<W>,
    pos: int,
    queue: Seq<S>,
    in_channels: u16,
) -> LinearCall<S, W> {
    let end = (queue.len() as int / in_channels as int) * cursor.parts;
    let stop = stopped_at(cursor, pos, end);
    let consumed = stop / cursor.parts;
    LinearCall {
        positions: positions_of(cursor, visited(cursor, pos, end)),
        consumed,
        waiting: queue.skip(consumed * in_channels),
        pos: stop - consumed * cursor.parts,
    }
}

/// More frames are visited as if they had been there from the start.
proof fn lemma_visited_in_two<W>(cursor: Cursor<W>, pos: int, end: int, later: int)
    requires
        end <= later,
    ensures
        visited(cursor, pos, later) == visited(cursor, pos, end) + visited(
            cursor,
            stopped_at(cursor, pos, end),
            later,
        ),
        stopped_at(cursor, pos, later) == stopped_at(
            cursor,
            stopped_at(cursor, pos, end),
            later,
        ),
    decreases ahead(pos, end),
{
    if cursor.step > 0 && cursor.parts > 0 && pos + cursor.parts < end {
        lemma_visited_in_two(cursor, pos + cursor.step, end, later);
        assert(visited(cursor, pos, later) =~= visited(cursor, pos, end) + visited(
            cursor,
            stopped_at(cursor, pos, end),
            later,
        ));
    } else {
        assert(visited(cursor, pos, later) =~= visited(cursor, pos, end) + visited(
            cursor,
            pos,
            later,
        ));
    }
}

/// Where everything lies `by` parts further on, so do the places.
proof fn lemma_visited_further_on<W>(cursor: Cursor<W>, pos: int, end: int, by: int)
    ensures
        visited(cursor, pos + by, end + by) == visited(cursor, pos, end).map_values(
            |place: int| place + by,
        ),
        stopped_at(cursor, pos + by, end + by) == stopped_at(cursor, pos, end) + by,
    decreases ahead(pos, end),
{
    let moved = visited(cursor, pos, end).map_values(|place: int| place + by);
    if cursor.step > 0 && cursor.parts > 0 && pos + cursor.parts < end {
        lemma_visited_further_on(cursor, pos + cursor.step, end, by);
        assert(pos + by + cursor.step == pos + cursor.step + by);
        assert(visited(cursor, pos + by, end + by) =~= moved);
    } else {
        assert(visited(cursor, pos + by, end + by) =~= moved);
    }
}

/// Where the places lie.
proof fn lemma_visited_lie_between<W>(cursor: Cursor<W>, pos: int, end: int)
    ensures
        forall|k: int|
            0 <= k < visited(cursor, pos, end).len() ==> pos <= (#[trigger] visited(
                cursor,
                pos,
                end,
            )[k]) && visited(cursor, pos, end)[k] + cursor.parts < end,
        pos <= stopped_at(cursor, pos, end),
    decreases ahead(pos, end),
{
    if cursor.step > 0 && cursor.parts > 0 && pos + cursor.parts < end {
        let next = pos + cursor.step;
        lemma_visited_lie_between(cursor, next, end);
        let all = visited(cursor, pos, end);
        assert forall|k: int| 0 <= k < all.len() implies pos <= (#[trigger] all[k]) && all[k]
            + cursor.parts < end by {
            if k > 0 {
                assert(all[k] == visited(cursor, next, end)[k - 1]);
            }
        }
    }
}

/// Each visited place has a frame after it.
proof fn lemma_visited_are_within<W>(cursor: Cursor<W>, pos: int, frames: int)
    requires
        cursor.parts > 0,
        pos >= 0,
        frames <= usize::MAX,
    ensures
        within(positions_of(cursor, visited(cursor, pos, frames * cursor.parts)), frames),
{
    let places = visited(cursor, pos, frames * cursor.parts);
    lemma_visited_lie_between(cursor, pos, frames * cursor.parts);
    let positions = positions_of(cursor, places);
    assert forall|k: int| 0 <= k < positions.len() implies (#[trigger] positions[k]).0 + 1
        < frames by {
        let place = places[k];
        let parts = cursor.parts;
        assert(0 <= place / parts && place / parts + 1 < frames) by (nonlinear_arith)
            requires
                parts > 0,
                place >= 0,
                place + parts < frames * parts,
        ;
    }
}

/// Moving places by whole frames moves the positions.
proof fn lemma_positions_further_on<W>(
    cursor: Cursor<W>,
    pos: int,
    frames: int,
    n: int,
)
    requires
        cursor.parts > 0,
        pos >= 0,
        n >= 0,
        frames + n <= usize::MAX,
    ensures
        positions_of(
            cursor,
            visited(cursor, pos, frames * cursor.parts).map_values(
                |place: int| place + n * cursor.parts,
            ),
        ) == shifted(positions_of(cursor, visited(cursor, pos, frames * cursor.parts)), n),
{
    let parts = cursor.parts;
    let places = visited(cursor, pos, frames * parts);
    let moved = places.map_values(|place: int| place + n * parts);
    lemma_visited_are_within(cursor, pos, frames);
    lemma_visited_lie_between(cursor, pos, frames * parts);
    let a = positions_of(cursor, moved);
    let b = shifted(positions_of(cursor, places), n);
    assert forall|k: int| 0 <= k < a.len() implies a[k] == b[k] by {
        let place = places[k];
        assert(positions_of(cursor, places)[k].0 + 1 < frames);
        vstd::arithmetic::div_mod::lemma_hoist_over_denominator(place, n, parts as nat);
        vstd::arithmetic::div_mod::lemma_mod_multiples_vanish(n, place, parts);
        vstd::arithmetic::mul::lemma_mul_is_commutative(n, parts);
        assert(0 <= place / parts && place / parts + 1 < frames) by (nonlinear_arith)
            requires
                parts > 0,
                place >= 0,
                place + parts < frames * parts,
        ;
    }
    assert(a =~= b);
}

/// A cursor stops less than a step behind the last place that it may visit.
proof fn lemma_stops_in_time<W>(cursor: Cursor<W>, pos: int, end: int)
    ensures
        stopped_at(cursor, pos, end) == pos || stopped_at(cursor, pos, end) < end - cursor.parts
            + cursor.step,
    decreases ahead(pos, end),
{
    if cursor.step > 0 && cursor.parts > 0 && pos + cursor.parts < end {
        lemma_stops_in_time(cursor, pos + cursor.step, end);
    }
}

/// A call consumes no more than what waits, and leaves off within a frame, as long as
/// the device runs at most twice as fast as the stream.
pub proof fn law_call_consumes_what_waits<S, W>(
    cursor: Cursor<W>,
    pos: int,
    queue: Seq<S>,
    in_channels: u16,
)
    requires
        in_channels > 0,
        0 < cursor.step <= 2 * cursor.parts,
        0 <= pos < cursor.parts,
    ensures
        ({
            let call = call_of(cursor, pos, queue, in_channels);
            &&& 0 <= call.consumed
            &&& call.consumed * in_channels <= queue.len()
            &&& 0 <= call.pos < cursor.parts
        }),
{
    let c = in_channels as int;
    let parts = cursor.parts;
    let frames = queue.len() as int / c;
    let stop = stopped_at(cursor, pos, frames * parts);
    let consumed = stop / parts;
    lemma_stops_in_time(cursor, pos, frames * parts);
    lemma_visited_lie_between(cursor, pos, frames * parts);
    vstd::arithmetic::div_mod::lemma_fundamental_div_mod(stop, parts);
    vstd::arithmetic::div_mod::lemma_mod_bound(stop, parts);
    vstd::arithmetic::div_mod::lemma_fundamental_div_mod(queue.len() as int, c);
    vstd::arithmetic::div_mod::lemma_mod_bound(queue.len() as int, c);
    assert(0 <= frames) by {
        vstd::arithmetic::div_mod::lemma_div_pos_is_pos(queue.len() as int, c);
    }
    assert(0 <= consumed <= frames) by (nonlinear_arith)
        requires
            consumed == stop / parts,
            parts > 0,
            0 <= stop,
            frames >= 0,
            stop < parts || stop < frames * parts + parts,
    ;
    assert(consumed * c <= frames * c) by {
        vstd::arithmetic::mul::lemma_mul_inequality(consumed, frames, c);
    }
    assert(frames * c == c * frames && consumed * parts == parts * consumed) by (nonlinear_arith);
}

/// How the input is cut into calls does not show in linear interpolation either, as
/// long as positions are added up without rounding and no more than `max` samples wait.
/// A first call interpolates `a` and consumes the frames before the place it stopped at;
/// a second one goes on with `b`. What they make is what one call makes of both inputs,
/// and what waits then is the same, from the same place on.
#[verifier::spinoff_prover]
#[verifier::rlimit(40)]
pub proof fn law_cutting_does_not_show_in_interpolation<S, W, F: Fn(S, S, W) -> i16>(
    cursor: Cursor<W>,
    pos: int,
    waiting: Seq<S>,
    a: Seq<S>,
    b: Seq<S>,
    max: int,
    in_channels: u16,
    silence: S,
    mix: F,
    out_first: Seq<i16>,
    out_second: Seq<i16>,
    out_whole: Seq<i16>,
)
    requires
        in_channels > 0,
        cursor.parts > 0,
        cursor.step > 0,
        pos >= 0,
        waiting.len() + a.len() + b.len() <= max <= usize::MAX,
        (waiting + a).len() % in_channels as nat == 0,
        is_settled(mix),
        ({
            let first = call_of(cursor, pos, newest(waiting + a, max), in_channels);
            let second = call_of(cursor, first.pos, newest(first.waiting + b, max), in_channels);
            let whole = call_of(cursor, pos, newest(waiting + (a + b), max), in_channels);
            &&& first.consumed * in_channels <= newest(waiting + a, max).len()
            &&& second.consumed * in_channels <= newest(first.waiting + b, max).len()
            &&& mixes(
                out_first,
                crate::pcm::stereo_frames(newest(waiting + a, max), in_channels, silence),
                first.positions,
                mix,
            )
            &&& mixes(
                out_second,
                crate::pcm::stereo_frames(newest(first.waiting + b, max), in_channels, silence),
                second.positions,
                mix,
            )
            &&& mixes(
                out_whole,
                crate::pcm::stereo_frames(newest(waiting + (a + b), max), in_channels, silence),
                whole.positions,
                mix,
            )
        }),
    ensures
        out_first + out_second == out_whole,
        ({
            let first = call_of(cursor, pos, newest(waiting + a, max), in_channels);
            let second = call_of(cursor, first.pos, newest(first.waiting + b, max), in_channels);
            let whole = call_of(cursor, pos, newest(waiting + (a + b), max), in_channels);
            &&& whole.positions == first.positions + shifted(second.positions, first.consumed)
            &&& whole.consumed == first.consumed + second.consumed
            &&& whole.waiting == second.waiting
            &&& whole.pos == second.pos
        }),
{
    let c = in_channels as int;
    let parts = cursor.parts;
    let queue = waiting + a;
    let first = call_of(cursor, pos, queue, in_channels);
    let n = first.consumed;
    let later = first.waiting + b;
    let second = call_of(cursor, first.pos, later, in_channels);
    let all = waiting + (a + b);
    let whole = call_of(cursor, pos, all, in_channels);
    assert(newest(queue, max) == queue);
    assert(all =~= queue + b);
    let frames = queue.len() as int / c;
    let frames_later = later.len() as int / c;
    let frames_all = all.len() as int / c;
    let stop = stopped_at(cursor, pos, frames * parts);
    lemma_visited_lie_between(cursor, pos, frames * parts);
    assert(n >= 0 && 0 <= first.pos && stop == first.pos + n * parts) by {
        vstd::arithmetic::div_mod::lemma_fundamental_div_mod(stop, parts);
        vstd::arithmetic::div_mod::lemma_div_pos_is_pos(stop, parts);
        vstd::arithmetic::mul::lemma_mul_is_commutative(n, parts);
        vstd::arithmetic::div_mod::lemma_mod_bound(stop, parts);
    }
    assert(0 <= n * c) by {
        vstd::arithmetic::mul::lemma_mul_nonnegative(n, c);
    }
    assert(newest(later, max) == later);
    lemma_frames_after_consuming(queue, b, n, in_channels, silence);
    assert(frames_later == frames_all - n);
    assert(frames <= frames_all && frames_all <= usize::MAX) by {
        vstd::arithmetic::div_mod::lemma_div_is_ordered(queue.len() as int, all.len() as int, c);
        vstd::arithmetic::div_mod::lemma_div_is_ordered_by_denominator(all.len() as int, 1, c);
    }
    assert(frames * parts <= frames_all * parts) by {
        vstd::arithmetic::mul::lemma_mul_inequality(frames, frames_all, parts);
    }
    assert(frames_all * parts == frames_later * parts + n * parts) by (nonlinear_arith)
        requires
            frames_later == frames_all - n,
    ;
    lemma_visited_in_two(cursor, pos, frames * parts, frames_all * parts);
    lemma_visited_further_on(cursor, first.pos, frames_later * parts, n * parts);
    lemma_positions_further_on(cursor, first.pos, frames_later, n);
    lemma_visited_are_within(cursor, pos, frames);
    lemma_visited_are_within(cursor, first.pos, frames_later);
    assert(whole.positions =~= first.positions + shifted(second.positions, n));
    law_mixing_a_cut_input(
        queue,
        b,
        n,
        in_channels,
        silence,
        mix,
        first.positions,
        second.positions,
        out_first,
        out_second,
    );
    law_mixture_is_unique(
        crate::pcm::stereo_frames(all, in_channels, silence),
        whole.positions,
        mix,
        out_first + out_second,
        out_whole,
    );
    let stop_later = stopped_at(cursor, first.pos, frames_later * parts);
    lemma_visited_lie_between(cursor, first.pos, frames_later * parts);
    assert(stopped_at(cursor, pos, frames_all * parts) == stop_later + n * parts);
    assert(whole.consumed == n + second.consumed) by {
        vstd::arithmetic::div_mod::lemma_hoist_over_denominator(stop_later, n, parts as nat);
    }
    let m = second.consumed;
    assert((n + m) * parts == n * parts + m * parts && (n + m) * c == n * c + m * c)
        by (nonlinear_arith);
    assert(m >= 0) by {
        vstd::arithmetic::div_mod::lemma_div_pos_is_pos(stop_later, parts);
    }
    assert(0 <= m * c) by {
        vstd::arithmetic::mul::lemma_mul_nonnegative(m, c);
    }
    assert(whole.waiting =~= second.waiting);
}

/// The next `needed` of the frames that wait, or nothing if fewer wait.
pub open spec fn next_block<S>(waiting: Seq<(S, S)>, needed: nat) -> Option<Seq<(S, S)>> {
    if waiting.len() < needed {
        None
    } else {
        Some(waiting.take(needed as int))
    }
}

/// The frames that wait after a block of `needed` frames was given to the filter. Where
/// the filter failed, the block still waits.
pub open spec fn left_waiting<S>(waiting: Seq<(S, S)>, needed: nat, filtered: bool) -> Seq<
    (S, S),
> {
    if filtered {
        waiting.skip(needed as int)
    } else {
        waiting
    }
}

/// The frames waiting for the sinc filter, the sides apart.
///
/// Frames before the offset have been read. They are dropped once they make up
/// half of the buffer.
#[derive(Debug)]
pub struct SincResampler<S> {
    pending_left: Vec<S>,
    pending_right: Vec<S>,
    pending_offset: usize,
}

impl<S> View for SincResampler<S> {
    type V = Seq<(S, S)>;

    closed spec fn view(&self) -> Seq<(S, S)> {
        Seq::new(
            (self.pending_left@.len() - self.pending_offset) as nat,
            |i: int|
                (
                    self.pending_left@[self.pending_offset + i],
                    self.pending_right@[self.pending_offset + i],
                ),
        )
    }
}

impl<S: Copy> SincResampler<S> {
    /// Both sides are equally long, and what has been read is less than half of
    /// them.
    pub closed spec fn wf(&self) -> bool {
        &&& self.pending_left@.len() == self.pending_right@.len()
        &&& self.pending_offset == 0 || self.pending_offset < self.pending_left@.len() / 2
    }

    /// Nothing is waiting.
    pub fn new(in_channels: u16) -> (r: Self)
        ensures
            r.wf(),
            r@ == Seq::<(S, S)>::empty(),
    {
        let r = SincResampler {
            pending_left: Vec::with_capacity(in_channels as usize * 2048),
            pending_right: Vec::with_capacity(in_channels as usize * 2048),
            pending_offset: 0,
        };
        assert(r@ =~= Seq::empty());
        r
    }

    /// Forgets what is waiting.
    pub fn reset(&mut self)
        ensures
            final(self).wf(),
            final(self)@ == Seq::<(S, S)>::empty(),
    {
        self.pending_left.clear();
        self.pending_right.clear();
        self.pending_offset = 0;
        assert(self@ =~= Seq::empty());
    }

    /// Queues the whole frames of captured samples.
    pub fn push_stereo_frames(&mut self, input: &[S], in_channels: u16, silence: S)
        requires
            old(self).wf(),
            in_channels > 0,
        ensures
            final(self).wf(),
            final(self)@ == old(self)@ + crate::pcm::stereo_frames(input@, in_channels, silence),
    {
        let len: usize = input.len();
        let step: usize = in_channels as usize;
        let total: usize = len / step;
        let ghost queued = self@;
        let ghost frames = crate::pcm::stereo_frames(input@, in_channels, silence);
        let mut at: usize = 0;
        let mut done: usize = 0;
        assert(self@ =~= queued + frames.take(0));
        while done < total
            invariant
                in_channels > 0,
                step == in_channels,
                len == input@.len(),
                total == input@.len() / in_channels as nat,
                frames == crate::pcm::stereo_frames(input@, in_channels, silence),
                done <= total,
                at == done * in_channels,
                self.wf(),
                self@ == queued + frames.take(done as int),
            decreases total - done,
        {
            proof {
                crate::pcm::lemma_frame_fits(len as int, in_channels as int, done as int);
            }
            let (left, right) = stereo_at(input, at, in_channels, silence);
            let ghost before = self@;
            self.pending_left.push(left);
            self.pending_right.push(right);
            assert((left, right) == frames[done as int]);
            assert(self@ =~= before.push((left, right)));
            assert(self@ =~= queued + frames.take(done + 1));
            at = at + step;
            done = done + 1;
        }
        assert(frames.take(done as int) == frames);
    }

    /// The next `needed` frames, the sides apart, or nothing if fewer wait.
    pub fn next_chunk(&self, needed: usize) -> (r: Option<(Vec<S>, Vec<S>)>)
        requires
            self.wf(),
        ensures
            match next_block(self@, needed as nat) {
                Some(block) => {
                    &&& r matches Some((left, right))
                    &&& left@ == block.map_values(|frame: (S, S)| frame.0)
                    &&& right@ == block.map_values(|frame: (S, S)| frame.1)
                },
                None => r is None,
            },
    {
        let len: usize = self.pending_left.len();
        let available: usize = len - self.pending_offset;
        if available < needed {
            return None;
        }
        let mut left: Vec<S> = Vec::with_capacity(needed);
        let mut right: Vec<S> = Vec::with_capacity(needed);
        let mut i: usize = 0;
        while i < needed
            invariant
                self.wf(),
                i <= needed <= available,
                len == self.pending_left@.len(),
                available == len - self.pending_offset,
                left@ == Seq::new(i as nat, |k: int| self@[k].0),
                right@ == Seq::new(i as nat, |k: int| self@[k].1),
            decreases needed - i,
        {
            left.push(self.pending_left[self.pending_offset + i]);
            right.push(self.pending_right[self.pending_offset + i]);
            assert(left@ =~= Seq::new((i + 1) as nat, |k: int| self@[k].0));
            assert(right@ =~= Seq::new((i + 1) as nat, |k: int| self@[k].1));
            i = i + 1;
        }
        proof {
            let block = self@.take(needed as int);
            assert(left@ =~= block.map_values(|frame: (S, S)| frame.0));
            assert(right@ =~= block.map_values(|frame: (S, S)| frame.1));
        }
        Some((left, right))
    }

    /// Takes what the filter made of the next `needed` frames: the channels of its
    /// output, or nothing if it failed. Returns the samples for the stream. After a
    /// failure there are none, the frames are kept, and the batch ends.
    pub fn settle<F: Fn(S) -> i16>(
        &mut self,
        needed: usize,
        output: Option<Vec<Vec<S>>>,
        convert: F,
    ) -> (r: Option<Vec<i16>>)
        requires
            old(self).wf(),
            needed <= old(self)@.len(),
            forall|s: S| convert.requires((s,)),
        ensures
            final(self).wf(),
            final(self)@ == left_waiting(old(self)@, needed as nat, output is Some),
            match output {
                Some(output) => r matches Some(out) && crate::pcm::interleaves(
                    out@,
                    crate::pcm::paired_channels(output@),
                    convert,
                ),
                None => r is None,
            },
    {
        match output {
            Some(output) => {
                self.advance(needed);
                Some(interleave_to_i16(&output, convert))
            },
            None => None,
        }
    }

    /// Marks the next `taken` frames as read.
    pub fn advance(&mut self, taken: usize)
        requires
            old(self).wf(),
            taken <= old(self)@.len(),
        ensures
            final(self).wf(),
            final(self)@ == old(self)@.skip(taken as int),
    {
        let ghost waiting = self@;
        let len: usize = self.pending_left.len();
        self.pending_offset = self.pending_offset + taken;
        assert(self@ =~= waiting.skip(taken as int));
        if self.pending_offset >= len / 2 {
            let ghost rest = self@;
            self.pending_left = self.pending_left.split_off(self.pending_offset);
            self.pending_right = self.pending_right.split_off(self.pending_offset);
            self.pending_offset = 0;
            assert(self@ =~= rest);
        }
    }
}

/// How a sinc filter behaves: how many frames it takes next, and what becomes of it
/// and of the stream when it gets them. It may fail, with nothing.
#[verifier::reject_recursive_types(F)]
#[verifier::reject_recursive_types(S)]
pub struct FilterModel<F, S> {
    pub needs: spec_fn(F) -> nat,
    pub step: spec_fn(F, Seq<(S, S)>) -> Option<(F, Seq<i16>)>,
}

/// What is left and what has come out when the frames that wait have been filtered.
pub struct Drained<F, S> {
    pub filter: F,
    pub waiting: Seq<(S, S)>,
    /// The frames that the filter made something of, block by block.
    pub blocks: Seq<Seq<(S, S)>>,
    pub out: Seq<i16>,
}

/// Gives the filter block after block of the frames that wait, for as long as there is
/// what it needs and it does not fail. The block is what
/// [`SincResampler::next_chunk`] hands out, and what still waits then is what
/// [`SincResampler::settle`] leaves. A failure ends the run and leaves the filter and
/// the frames as they are.
pub open spec fn drained<F, S>(
    model: FilterModel<F, S>,
    filter: F,
    waiting: Seq<(S, S)>,
) -> Drained<F, S>
    decreases waiting.len(),
{
    let needed = (model.needs)(filter);
    let end = Drained { filter, waiting, blocks: Seq::empty(), out: Seq::empty() };
    match next_block(waiting, needed) {
        None => end,
        Some(block) => match (model.step)(filter, block) {
            None => Drained { waiting: left_waiting(waiting, needed, false), ..end },
            Some((next, out)) => if needed == 0 {
                end
            } else {
                let rest = drained(model, next, left_waiting(waiting, needed, true));
                Drained {
                    filter: rest.filter,
                    waiting: rest.waiting,
                    blocks: seq![block] + rest.blocks,
                    out: out + rest.out,
                }
            },
        },
    }
}

/// Whether the filter makes something of the next frames that wait.
pub open spec fn filters_next<F, S>(
    model: FilterModel<F, S>,
    filter: F,
    waiting: Seq<(S, S)>,
) -> bool {
    next_block(waiting, (model.needs)(filter)) matches Some(block) && (model.step)(
        filter,
        block,
    ) is Some
}

/// Where the filter fails, what it was given still waits, the filter is as before, and
/// nothing comes out. Nothing else ends a run but that too few frames wait.
pub proof fn law_failure_keeps_the_frames<F, S>(
    model: FilterModel<F, S>,
    filter: F,
    waiting: Seq<(S, S)>,
)
    requires
        forall|f: F| #[trigger] (model.needs)(f) > 0,
    ensures
        ({
            let done = drained(model, filter, waiting);
            &&& !filters_next(model, done.filter, done.waiting)
            &&& !filters_next(model, filter, waiting) ==> done.filter == filter && done.waiting
                == waiting && done.blocks.len() == 0 && done.out.len() == 0
        }),
    decreases waiting.len(),
{
    if filters_next(model, filter, waiting) {
        let needed = (model.needs)(filter);
        let (next, out) = (model.step)(filter, waiting.take(needed as int))->0;
        law_failure_keeps_the_frames(model, next, waiting.skip(needed as int));
    }
}

/// The filter gets the frames that waited, in their order, none lost and none twice:
/// the blocks one after the other, and then what still waits, are what there was.
pub proof fn law_blocks_are_the_frames_in_order<F, S>(
    model: FilterModel<F, S>,
    filter: F,
    waiting: Seq<(S, S)>,
)
    ensures
        drained(model, filter, waiting).blocks.flatten() + drained(model, filter, waiting).waiting
            == waiting,
    decreases waiting.len(),
{
    let needed = (model.needs)(filter);
    let done = drained(model, filter, waiting);
    if needed == 0 || !filters_next(model, filter, waiting) {
        assert(done.blocks.flatten() + done.waiting =~= waiting);
    } else {
        let block = waiting.take(needed as int);
        let (next, out) = (model.step)(filter, block)->0;
        let left = waiting.skip(needed as int);
        law_blocks_are_the_frames_in_order(model, next, left);
        let rest = drained(model, next, left);
        assert(done.blocks.drop_first() =~= rest.blocks);
        assert(done.blocks.flatten() =~= block + rest.blocks.flatten());
        assert(done.blocks.flatten() + done.waiting =~= block + (rest.blocks.flatten()
            + rest.waiting));
        assert(block + left =~= waiting);
    }
}

/// Frames that come later are filtered as if they had been there from the start.
proof fn lemma_drained_in_two<F, S>(
    model: FilterModel<F, S>,
    filter: F,
    waiting: Seq<(S, S)>,
    more: Seq<(S, S)>,
)
    requires
        forall|f: F| #[trigger] (model.needs)(f) > 0,
    ensures
        ({
            let first = drained(model, filter, waiting);
            let second = drained(model, first.filter, first.waiting + more);
            let whole = drained(model, filter, waiting + more);
            &&& whole.filter == second.filter
            &&& whole.waiting == second.waiting
            &&& whole.blocks == first.blocks + second.blocks
            &&& whole.out == first.out + second.out
        }),
    decreases waiting.len(),
{
    let needed = (model.needs)(filter);
    let first = drained(model, filter, waiting);
    let second = drained(model, first.filter, first.waiting + more);
    let whole = drained(model, filter, waiting + more);
    if !filters_next(model, filter, waiting) {
        assert(first.blocks + second.blocks =~= second.blocks);
        assert(first.out + second.out =~= second.out);
    } else {
        let block = waiting.take(needed as int);
        let left = waiting.skip(needed as int);
        assert((waiting + more).take(needed as int) =~= block);
        assert((waiting + more).skip(needed as int) =~= left + more);
        let (next, out) = (model.step)(filter, block)->0;
        lemma_drained_in_two(model, next, left, more);
        let rest = drained(model, next, left);
        assert(first.blocks + second.blocks =~= seq![block] + (rest.blocks + second.blocks));
        assert(first.out + second.out =~= out + (rest.out + second.out));
    }
}

/// How the input is cut into calls does not show: two calls hand the filter the same
/// blocks and make the same stream as one call with both inputs. Frames short of a
/// block wait for the next call, and so do those on which the filter fails. The cut
/// lies at the end of a frame, and a filter always needs some frames.
pub proof fn law_cutting_the_input_does_not_show<F, S>(
    model: FilterModel<F, S>,
    filter: F,
    waiting: Seq<(S, S)>,
    a: Seq<S>,
    b: Seq<S>,
    in_channels: u16,
    silence: S,
)
    requires
        in_channels > 0,
        a.len() % in_channels as nat == 0,
        forall|f: F| #[trigger] (model.needs)(f) > 0,
    ensures
        ({
            let frames_a = crate::pcm::stereo_frames(a, in_channels, silence);
            let frames_b = crate::pcm::stereo_frames(b, in_channels, silence);
            let frames = crate::pcm::stereo_frames(a + b, in_channels, silence);
            let first = drained(model, filter, waiting + frames_a);
            let second = drained(model, first.filter, first.waiting + frames_b);
            let whole = drained(model, filter, waiting + frames);
            &&& whole.filter == second.filter
            &&& whole.waiting == second.waiting
            &&& whole.blocks == first.blocks + second.blocks
            &&& whole.out == first.out + second.out
        }),
{
    let frames_a = crate::pcm::stereo_frames(a, in_channels, silence);
    let frames_b = crate::pcm::stereo_frames(b, in_channels, silence);
    crate::pcm::law_frames_of_a_cut_input(a, b, in_channels, silence);
    lemma_drained_in_two(model, filter, waiting + frames_a, frames_b);
    assert(waiting + (frames_a + frames_b) =~= (waiting + frames_a) + frames_b);
}

/// Where each block makes whole frames of the stream, so does every call.
pub proof fn law_filtered_stream_has_whole_frames<F, S>(
    model: FilterModel<F, S>,
    filter: F,
    waiting: Seq<(S, S)>,
)
    requires
        forall|f: F, block: Seq<(S, S)>|
            (#[trigger] (model.step)(f, block)) matches Some((_, out)) ==> out.len() % 2 == 0,
    ensures
        drained(model, filter, waiting).out.len() % 2 == 0,
    decreases waiting.len(),
{
    let needed = (model.needs)(filter);
    if needed != 0 && filters_next(model, filter, waiting) {
        let (next, out) = (model.step)(filter, waiting.take(needed as int))->0;
        law_filtered_stream_has_whole_frames(model, next, waiting.skip(needed as int));
    }
}

/// One observation window lasts this many nanoseconds at least.
pub const RATE_WINDOW_NS: u128 = 2_000_000_000;

/// The observed rate must be off by more than one part in this many before the
/// device is believed to run at another rate: half a percent. That is well above
/// the error of a sane card and the noise of the observation, and still catches
/// a device that is mis-declared.
pub const RATE_DEADBAND_PARTS: u32 = 200;

/// Consecutive agreeing windows outside the deadband that are needed before the
/// resampler is re-rated.
pub const RATE_CONFIRMATIONS: u8 = 3;

/// Whether `observed` is within the deadband around `reference`.
pub open spec fn within_deadband(observed: u32, reference: u32) -> bool {
    RATE_DEADBAND_PARTS * (observed - reference) <= reference && RATE_DEADBAND_PARTS * (reference
        - observed) <= reference
}

fn in_deadband(observed: u32, reference: u32) -> (r: bool)
    ensures
        r == within_deadband(observed, reference),
{
    let distance: u32 = if observed >= reference {
        observed - reference
    } else {
        reference - observed
    };
    let parts: u64 = RATE_DEADBAND_PARTS as u64;
    assert(parts * distance == 200 * distance) by (nonlinear_arith)
        requires
            parts == 200,
    ;
    parts * distance as u64 <= reference as u64
}

/// What is believed of the device's rate.
#[derive(Debug, Clone, Copy, PartialEq, Eq)]
pub struct RateTrack {
    /// The rate that is resampled against.
    pub in_rate: u32,
    /// A rate outside the deadband that waits for confirmation.
    pub pending: Option<u32>,
    /// How many windows have agreed on the pending rate.
    pub confirmations: u8,
    /// The rate of the last window that saw any frames.
    pub observed: Option<u32>,
}

/// What one closed window changes.
#[derive(Debug, Clone, Copy, PartialEq, Eq)]
pub enum RateVerdict {
    /// No frames were seen.
    Silent,
    /// The device runs at the rate it is believed to run at.
    Steady,
    /// Another rate was seen, but not often enough.
    Suspect,
    /// The resampler runs against the observed rate from now on.
    Rerated { previous: u32 },
}

/// Whether the pending rate agrees with `observed`.
pub open spec fn agrees_with_pending(track: RateTrack, observed: u32) -> bool {
    track.pending matches Some(pending) && within_deadband(observed, pending)
}

/// The verdict on a window that observed a rate.
pub open spec fn verdict_on(track: RateTrack, observed: u32) -> RateVerdict {
    if observed == 0 {
        RateVerdict::Silent
    } else if within_deadband(observed, track.in_rate) {
        RateVerdict::Steady
    } else if !agrees_with_pending(track, observed) || track.confirmations + 1 < RATE_CONFIRMATIONS {
        RateVerdict::Suspect
    } else {
        RateVerdict::Rerated { previous: track.in_rate }
    }
}

/// What is believed after a window that observed a rate.
pub open spec fn track_after(track: RateTrack, observed: u32) -> RateTrack {
    let seen = RateTrack { observed: Some(observed), ..track };
    match verdict_on(track, observed) {
        RateVerdict::Silent => track,
        RateVerdict::Steady => RateTrack { pending: None, ..seen },
        RateVerdict::Suspect => if agrees_with_pending(track, observed) {
            RateTrack { confirmations: (track.confirmations + 1) as u8, ..seen }
        } else {
            RateTrack { pending: Some(observed), confirmations: 1, ..seen }
        },
        RateVerdict::Rerated { .. } => RateTrack {
            in_rate: observed,
            pending: None,
            confirmations: 0,
            ..seen
        },
    }
}

impl RateTrack {
    /// Nothing has been observed yet.
    pub fn new(in_rate: u32) -> (r: Self)
        ensures
            r == (RateTrack { in_rate, pending: None, confirmations: 0, observed: None }),
    {
        RateTrack { in_rate, pending: None, confirmations: 0, observed: None }
    }

    /// Takes the rate that one window observed.
    pub fn close(&mut self, observed: u32) -> (r: RateVerdict)
        ensures
            *final(self) == track_after(*old(self), observed),
            r == verdict_on(*old(self), observed),
            r is Steady <==> observed > 0 && 1000 * (observed - old(self).in_rate) <= 5
                * old(self).in_rate && 1000 * (old(self).in_rate - observed) <= 5
                * old(self).in_rate,
    {
        if observed == 0 {
            return RateVerdict::Silent;
        }
        self.observed = Some(observed);
        if in_deadband(observed, self.in_rate) {
            self.pending = None;
            return RateVerdict::Steady;
        }
        let agrees = match self.pending {
            Some(pending) => in_deadband(observed, pending),
            None => false,
        };
        if !agrees {
            self.pending = Some(observed);
            self.confirmations = 1;
            return RateVerdict::Suspect;
        }
        self.confirmations = self.confirmations.saturating_add(1);
        if self.confirmations < RATE_CONFIRMATIONS {
            return RateVerdict::Suspect;
        }
        let previous: u32 = self.in_rate;
        self.in_rate = observed;
        self.pending = None;
        self.confirmations = 0;
        RateVerdict::Rerated { previous }
    }
}

/// What is believed after a row of windows, the oldest first.
pub open spec fn track_after_all(track: RateTrack, windows: Seq<u32>) -> RateTrack
    decreases windows.len(),
{
    if windows.len() == 0 {
        track
    } else {
        track_after(track_after_all(track, windows.drop_last()), windows.last())
    }
}

/// Whether the last `n` of `windows` all miss the deadband around `rate` and
/// agree with the first of them.
pub open spec fn agreed_elsewhere(windows: Seq<u32>, n: int, rate: u32) -> bool {
    &&& 0 < n <= windows.len()
    &&& forall|i: int|
        windows.len() - n <= i < windows.len() ==> !within_deadband(#[trigger] windows[i], rate)
            && within_deadband(windows[i], windows[windows.len() - n])
}

/// While a rate is pending, the windows that confirmed it are the latest ones.
proof fn lemma_pending_is_confirmed(start: RateTrack, windows: Seq<u32>)
    requires
        start.pending is None,
        forall|i: int| 0 <= i < windows.len() ==> #[trigger] windows[i] > 0,
    ensures
        ({
            let track = track_after_all(start, windows);
            track.pending matches Some(pending) ==> {
                &&& 1 <= track.confirmations < RATE_CONFIRMATIONS
                &&& agreed_elsewhere(windows, track.confirmations as int, track.in_rate)
                &&& pending == windows[windows.len() - track.confirmations]
            }
        }),
    decreases windows.len(),
{
    if windows.len() > 0 {
        let past = windows.drop_last();
        lemma_pending_is_confirmed(start, past);
        let before = track_after_all(start, past);
        let after = track_after_all(start, windows);
        if after.pending is Some {
            let n = after.confirmations as int;
            assert forall|i: int|
                windows.len() - n <= i < windows.len() implies !within_deadband(
                #[trigger] windows[i],
                after.in_rate,
            ) && within_deadband(windows[i], windows[windows.len() - n]) by {
                if i < windows.len() - 1 {
                    assert(past[i] == windows[i]);
                }
            }
        }
    }
}

/// The windows that saw any frames.
pub open spec fn with_frames(windows: Seq<u32>) -> Seq<u32>
    decreases windows.len(),
{
    if windows.len() == 0 {
        windows
    } else if windows.last() > 0 {
        with_frames(windows.drop_last()).push(windows.last())
    } else {
        with_frames(windows.drop_last())
    }
}

/// Windows without frames do not count.
proof fn lemma_only_windows_with_frames_count(start: RateTrack, windows: Seq<u32>)
    ensures
        track_after_all(start, with_frames(windows)) == track_after_all(start, windows),
        forall|i: int|
            0 <= i < with_frames(windows).len() ==> #[trigger] with_frames(windows)[i] > 0,
    decreases windows.len(),
{
    if windows.len() > 0 {
        let past = windows.drop_last();
        lemma_only_windows_with_frames_count(start, past);
        if windows.last() > 0 {
            assert(with_frames(windows).drop_last() =~= with_frames(past));
        }
    }
}

/// The resampler is re-rated only after three consecutive windows that miss the
/// deadband and agree with each other: a single stall cannot do it. The new rate
/// is the one that the last of them observed. Windows without frames are passed over.
pub proof fn law_rerating_needs_three_agreeing_windows(start: RateTrack, windows: Seq<u32>)
    requires
        start.pending is None,
        windows.len() > 0,
        track_after_all(start, windows).in_rate != track_after_all(
            start,
            windows.drop_last(),
        ).in_rate,
    ensures
        agreed_elsewhere(
            with_frames(windows),
            RATE_CONFIRMATIONS as int,
            track_after_all(start, windows.drop_last()).in_rate,
        ),
        windows.last() > 0,
        track_after_all(start, windows).in_rate == windows.last(),
{
    let heard = with_frames(windows);
    let past = with_frames(windows.drop_last());
    lemma_only_windows_with_frames_count(start, windows);
    lemma_only_windows_with_frames_count(start, windows.drop_last());
    assert(heard.drop_last() =~= past);
    lemma_pending_is_confirmed(start, past);
    let rate = track_after_all(start, past).in_rate;
    assert forall|i: int|
        heard.len() - 3 <= i < heard.len() implies !within_deadband(#[trigger] heard[i], rate)
        && within_deadband(heard[i], heard[heard.len() - 3]) by {
        if i < heard.len() - 1 {
            assert(past[i] == heard[i]);
        }
    }
}

/// Three windows in a row that miss the deadband and agree do re-rate it.
pub proof fn law_three_agreeing_windows_rerate(track: RateTrack, a: u32, b: u32, c: u32)
    requires
        track.pending is None,
        a > 0 && b > 0 && c > 0,
        agreed_elsewhere(seq![a, b, c], 3, track.in_rate),
    ensures
        track_after(track_after(track_after(track, a), b), c).in_rate == c,
{
    let windows = seq![a, b, c];
    assert(windows[0] == a && windows[1] == b && windows[2] == c);
}

/// A window inside the deadband leaves the rate alone and ends any suspicion.
pub proof fn law_deadband_ends_suspicion(track: RateTrack, observed: u32)
    requires
        observed > 0,
        within_deadband(observed, track.in_rate),
    ensures
        track_after(track, observed).in_rate == track.in_rate,
        track_after(track, observed).pending is None,
{
}

/// A window without frames is no evidence: it changes nothing, neither the rate nor
/// any suspicion.
pub proof fn law_silent_windows_change_nothing(track: RateTrack)
    ensures
        track_after(track, 0) == track,
        verdict_on(track, 0) is Silent,
{
}

/// How the embedding program handles a batch of captured samples.
#[derive(Debug, Clone, Copy, PartialEq, Eq)]
pub enum Route {
    /// The rates are equal: only the channels are mapped.
    Direct,
    /// By linear interpolation.
    Linear,
    /// By the sinc filter.
    Sinc,
    /// There is nothing to resample.
    Nothing,
}

/// The frames counted in a window that is long enough, and its length.
#[derive(Debug, Clone, Copy, PartialEq, Eq)]
pub struct RateWindow {
    pub frames: u64,
    pub elapsed_ns: u128,
}

/// The time from `earlier` to `later`, zero if they are the other way round.
pub open spec fn elapsed(earlier: u128, later: u128) -> int {
    if later >= earlier {
        later - earlier
    } else {
        0
    }
}

/// Everything about resampling one capture session.
#[derive(Debug)]
pub struct Resampler<S> {
    pub mode: ResamplerMode,
    pub target_rate: u32,
    pub linear: LinearResampler<S>,
    pub sinc: Option<SincResampler<S>>,
    pub rate_frames: u64,
    pub rate_start_ns: u128,
    pub track: RateTrack,
}

impl<S: Copy> Resampler<S> {
    /// Queues for the sinc filter exist exactly in the modes that use it.
    pub open spec fn wf(&self) -> bool {
        match self.sinc {
            Some(sinc) => self.mode != ResamplerMode::Linear && sinc.wf(),
            None => self.mode == ResamplerMode::Linear,
        }
    }

    pub fn new(
        in_rate: u32,
        in_channels: u16,
        target_rate: u32,
        mode: ResamplerMode,
        now_ns: u128,
    ) -> (r: Self)
        ensures
            r.wf(),
            r.mode == mode,
            r.target_rate == target_rate,
            r.linear@ == Seq::<S>::empty(),
            r.sinc matches Some(sinc) ==> sinc@ == Seq::<(S, S)>::empty(),
            r.rate_frames == 0,
            r.rate_start_ns == now_ns,
            r.track == (RateTrack { in_rate, pending: None, confirmations: 0, observed: None }),
    {
        let sinc = match mode {
            ResamplerMode::Linear => None,
            ResamplerMode::SincFast => Some(SincResampler::new(in_channels)),
            ResamplerMode::SincQuality => Some(SincResampler::new(in_channels)),
        };
        Resampler {
            mode,
            target_rate,
            linear: LinearResampler::new(in_channels),
            sinc,
            rate_frames: 0,
            rate_start_ns: now_ns,
            track: RateTrack::new(in_rate),
        }
    }

    /// Whether the device runs at another rate than the stream.
    pub fn needs_resample_rate(&self) -> (r: bool)
        ensures
            r == (self.track.in_rate != self.target_rate),
    {
        self.track.in_rate != self.target_rate
    }

    /// How a batch of `samples` captured samples is handled.
    pub fn route(&self, samples: usize, in_channels: u16) -> (r: Route)
        ensures
            r == (if self.track.in_rate == self.target_rate {
                Route::Direct
            } else if samples == 0 || in_channels == 0 {
                Route::Nothing
            } else if self.mode == ResamplerMode::Linear {
                Route::Linear
            } else {
                Route::Sinc
            }),
    {
        if !self.needs_resample_rate() {
            return Route::Direct;
        }
        if samples == 0 || in_channels == 0 {
            return Route::Nothing;
        }
        match self.mode {
            ResamplerMode::Linear => Route::Linear,
            ResamplerMode::SincFast => Route::Sinc,
            ResamplerMode::SincQuality => Route::Sinc,
        }
    }

    /// Counts captured frames. Returns the window once it is long enough; its
    /// rate is to be handed to [`Resampler::close_window`].
    pub fn observe_input(&mut self, samples: usize, in_channels: u16, now_ns: u128) -> (r: Option<
        RateWindow,
    >)
        requires
            in_channels > 0,
        ensures
            *final(self) == (Resampler { rate_frames: final(self).rate_frames, ..*old(self) }),
            final(self).rate_frames == (if old(self).rate_frames + samples / in_channels as usize
                > u64::MAX {
                u64::MAX as int
            } else {
                old(self).rate_frames + samples / in_channels as usize
            }),
            r == (if elapsed(old(self).rate_start_ns, now_ns) < RATE_WINDOW_NS {
                None
            } else {
                Some(
                    RateWindow {
                        frames: final(self).rate_frames,
                        elapsed_ns: elapsed(old(self).rate_start_ns, now_ns) as u128,
                    },
                )
            }),
            r is Some <==> now_ns >= old(self).rate_start_ns + 2_000_000_000,
    {
        let frames: usize = samples / in_channels as usize;
        self.rate_frames = self.rate_frames.saturating_add(frames as u64);
        let elapsed_ns: u128 = if now_ns >= self.rate_start_ns {
            now_ns - self.rate_start_ns
        } else {
            0
        };
        if elapsed_ns < RATE_WINDOW_NS {
            return None;
        }
        Some(RateWindow { frames: self.rate_frames, elapsed_ns })
    }

    /// Closes the window that observed a rate, and opens the next one. Where the
    /// resampler is re-rated, linear interpolation starts afresh; for the sinc
    /// filter see [`Resampler::sinc_rebuilt`].
    pub fn close_window(&mut self, observed: u32, now_ns: u128) -> (r: RateVerdict)
        requires
            old(self).wf(),
        ensures
            final(self).wf(),
            r == verdict_on(old(self).track, observed),
            *final(self) == (Resampler {
                rate_frames: 0,
                rate_start_ns: now_ns,
                track: track_after(old(self).track, observed),
                linear: final(self).linear,
                ..*old(self)
            }),
            if r is Rerated && old(self).mode == ResamplerMode::Linear {
                final(self).linear@ == Seq::<S>::empty()
            } else {
                final(self).linear == old(self).linear
            },
    {
        self.rate_frames = 0;
        self.rate_start_ns = now_ns;
        let verdict = self.track.close(observed);
        match verdict {
            RateVerdict::Rerated { .. } => {
                if self.mode == ResamplerMode::Linear {
                    self.linear.reset();
                }
            },
            _ => {},
        }
        verdict
    }

    /// Called when a filter for the current rate has been built: what waited for
    /// the former one is forgotten.
    pub fn sinc_rebuilt(&mut self)
        requires
            old(self).wf(),
        ensures
            final(self).wf(),
            *final(self) == (Resampler { sinc: final(self).sinc, ..*old(self) }),
            old(self).sinc is None <==> final(self).sinc is None,
            final(self).sinc matches Some(sinc) ==> sinc@ == Seq::<(S, S)>::empty(),
    {
        if let Some(sinc) = self.sinc.as_mut() {
            sinc.reset();
        }
    }
}

/// The two strengths of the sinc filter.
#[derive(Debug, Clone, Copy, PartialEq, Eq, Structural)]
pub enum SincQuality {
    Fast,
    Quality,
}

/// How the filter interpolates between its points.
#[derive(Debug, Clone, Copy, PartialEq, Eq, Structural)]
pub enum Interpolation {
    Quadratic,
    Cubic,
}

/// The parameters of a sinc filter.
#[derive(Debug, Clone, Copy, PartialEq, Eq)]
pub struct SincSettings {
    pub sinc_len: usize,
    pub oversampling_factor: usize,
    pub interpolation: Interpolation,
    /// The cut-off frequency, in percent of the largest one possible.
    pub cutoff_percent: u8,
}

/// The filter that a mode uses, if it uses one.
pub fn sinc_quality(mode: ResamplerMode) -> (r: Option<SincQuality>)
    ensures
        r == (match mode {
            ResamplerMode::Linear => None,
            ResamplerMode::SincFast => Some(SincQuality::Fast),
            ResamplerMode::SincQuality => Some(SincQuality::Quality),
        }),
{
    match mode {
        ResamplerMode::Linear => None,
        ResamplerMode::SincFast => Some(SincQuality::Fast),
        ResamplerMode::SincQuality => Some(SincQuality::Quality),
    }
}

/// The parameters of a filter.
pub fn sinc_settings(quality: SincQuality) -> (r: SincSettings)
    ensures
        r == (match quality {
            SincQuality::Fast => SincSettings {
                sinc_len: 128,
                oversampling_factor: 64,
                interpolation: Interpolation::Quadratic,
                cutoff_percent: 90,
            },
            SincQuality::Quality => SincSettings {
                sinc_len: 256,
                oversampling_factor: 256,
                interpolation: Interpolation::Cubic,
                cutoff_percent: 95,
            },
        }),
{
    match quality {
        SincQuality::Fast => SincSettings {
            sinc_len: 128,
            oversampling_factor: 64,
            interpolation: Interpolation::Quadratic,
            cutoff_percent: 90,
        },
        SincQuality::Quality => SincSettings {
            sinc_len: 256,
            oversampling_factor: 256,
            interpolation: Interpolation::Cubic,
            cutoff_percent: 95,
        },
    }
}

/// At most `max` elements are kept, and as many as that if there are so many. They are
/// the last ones, in their order.
pub proof fn law_newest_elements_are_kept<T>(s: Seq<T>, max: int, i: int)
    requires
        max >= 0,
    ensures
        s.len() <= max ==> newest(s, max).len() == s.len(),
        s.len() > max ==> newest(s, max).len() == max,
        0 <= i < newest(s, max).len() ==> newest(s, max)[i] == s[s.len() - newest(s, max).len()
            + i],
{
}

/// A rate is within the deadband exactly if it is off by half a percent at most: by five
/// parts in a thousand of the rate it is held against, to either side.
pub proof fn law_deadband_is_half_a_percent(observed: u32, reference: u32)
    ensures
        observed >= reference ==> (within_deadband(observed, reference) <==> 1000 * (observed
            - reference) <= 5 * reference),
        observed <= reference ==> (within_deadband(observed, reference) <==> 1000 * (reference
            - observed) <= 5 * reference),
{
}

/// A device that really runs at another rate is found out: three windows in a row that
/// observe the same rate, off by more than half a percent, however far and to either
/// side, re-rate the resampler to it, and no sooner. From then on the rate is steady.
pub proof fn law_mis_declared_device_is_found_out(declared: u32, actual: u32)
    requires
        actual > 0,
        1000 * (actual - declared) > 5 * declared || 1000 * (declared - actual) > 5 * declared,
    ensures
        ({
            let start = RateTrack { in_rate: declared, pending: None, confirmations: 0, observed: None };
            let one = track_after(start, actual);
            let two = track_after(one, actual);
            let three = track_after(two, actual);
            &&& verdict_on(start, actual) is Suspect && one.in_rate == declared
            &&& verdict_on(one, actual) is Suspect && two.in_rate == declared
            &&& verdict_on(two, actual) == (RateVerdict::Rerated { previous: declared })
            &&& three.in_rate == actual
            &&& verdict_on(three, actual) is Steady
            &&& track_after(three, actual).in_rate == actual
        }),
{
}

/// What a window changes, with the arithmetic written out: nothing if it saw no frames.
/// Within half a percent of the rate in use the rate is steady and nothing is pending.
/// Else a rate within half a percent of the pending one confirms it, and re-rates the
/// resampler if that makes three; any other rate is pending from now on, confirmed once.
pub proof fn law_what_a_window_changes(track: RateTrack, observed: u32)
    ensures
        ({
            let after = track_after(track, observed);
            let verdict = verdict_on(track, observed);
            let steady = 1000 * (observed - track.in_rate) <= 5 * track.in_rate && 1000 * (
            track.in_rate - observed) <= 5 * track.in_rate;
            let agrees = track.pending is Some && 1000 * (observed - track.pending->0) <= 5
                * track.pending->0 && 1000 * (track.pending->0 - observed) <= 5
                * track.pending->0;
            &&& observed == 0 ==> after == track && verdict is Silent
            &&& observed > 0 ==> after.observed == Some(observed)
            &&& observed > 0 && steady ==> verdict is Steady && after.in_rate == track.in_rate
                && after.pending is None && after.confirmations == track.confirmations
            &&& observed > 0 && !steady && !agrees ==> verdict is Suspect && after.in_rate
                == track.in_rate && after.pending == Some(observed) && after.confirmations == 1
            &&& observed > 0 && !steady && agrees && track.confirmations < 2 ==> verdict is Suspect
                && after.in_rate == track.in_rate && after.pending == track.pending
                && after.confirmations == track.confirmations + 1
            &&& observed > 0 && !steady && agrees && track.confirmations >= 2 ==> verdict == (
            RateVerdict::Rerated { previous: track.in_rate }) && after.in_rate == observed
                && after.pending is None && after.confirmations == 0
        }),
{
}

/// Time is the difference of two readings of the clock, and none if the clock seems to
/// have run backwards.
pub proof fn law_time_is_the_difference(earlier: u128, later: u128)
    ensures
        later >= earlier ==> elapsed(earlier, later) == later - earlier,
        later < earlier ==> elapsed(earlier, later) == 0,
{
}

/// Where the filter finds enough frames it gets the first ones, in order, and exactly as
/// many as it needs. They are gone afterwards if it made something of them, and only
/// they; else all frames still wait.
pub proof fn law_filter_gets_the_first_frames<S>(waiting: Seq<(S, S)>, needed: nat, i: int)
    ensures
        next_block(waiting, needed) is Some <==> needed <= waiting.len(),
        next_block(waiting, needed) matches Some(block) ==> block.len() == needed && (0 <= i
            < needed ==> block[i] == waiting[i]),
        needed <= waiting.len() ==> left_waiting(waiting, needed, true).len() == waiting.len()
            - needed && (needed <= i < waiting.len() ==> left_waiting(waiting, needed, true)[i
            - needed] == waiting[i]),
        left_waiting(waiting, needed, false) == waiting,
{
}

/// What interpolation makes at a position: on each side the mixture of the sample of the
/// frame there with that of the frame after it, by the weight of the position; two samples
/// for each position, in order.
#[verifier::spinoff_prover]
#[verifier::rlimit(40)]
pub proof fn law_mixture_of_neighbouring_frames<S, W, F: Fn(S, S, W) -> i16>(
    out: Seq<i16>,
    data: Seq<S>,
    in_channels: u16,
    silence: S,
    positions: Seq<(usize, W)>,
    mix: F,
    k: int,
)
    requires
        in_channels > 0,
        within(positions, (data.len() / in_channels as nat) as int),
        mixes(out, crate::pcm::stereo_frames(data, in_channels, silence), positions, mix),
    ensures
        out.len() == 2 * positions.len(),
        0 <= k < positions.len() ==> {
            let at = positions[k].0 * in_channels;
            let right: int = if in_channels == 1 {
                0
            } else {
                1
            };
            &&& mix.ensures((data[at], data[at + in_channels], positions[k].1), out[2 * k])
            &&& mix.ensures(
                (data[at + right], data[at + in_channels + right], positions[k].1),
                out[2 * k + 1],
            )
        },
{
    if 0 <= k < positions.len() {
        let c = in_channels as int;
        let index = positions[k].0 as int;
        crate::pcm::law_frames_are_the_first_two_channels(data, in_channels, silence, index);
        crate::pcm::law_frames_are_the_first_two_channels(data, in_channels, silence, index + 1);
        crate::pcm::lemma_frame_fits(data.len() as int, c, index);
        crate::pcm::lemma_frame_fits(data.len() as int, c, index + 1);
        assert(c == 1 ==> index * c == index && (index + 1) * c == index + 1) by (nonlinear_arith);
    }
}

/// A window lasts two seconds at least, and it takes three of them that agree before a new
/// rate is believed.
pub proof fn law_how_long_a_rate_is_observed()
    ensures
        RATE_WINDOW_NS == 2_000_000_000,
        RATE_CONFIRMATIONS == 3,
{
}

} // verus!
