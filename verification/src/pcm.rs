//! Frames, channels and the bytes of the stream.
//!
//! A captured sample has the type parameter `S`: captured samples are
//! floating-point numbers of the embedding program. What is done here is to
//! put each one in its place.

use vstd::prelude::*;

use crate::audio::TARGET_CHANNELS;

verus! {

/// The frame number `k` of interleaved samples.
pub open spec fn frame_at<S>(data: Seq<S>, channels: int, k: int) -> Seq<S> {
    data.subrange(k * channels, (k + 1) * channels)
}

/// The left and the right sample of a frame. A mono frame fills both sides, and
/// of more than two channels the first two are taken.
pub open spec fn stereo_of<S>(frame: Seq<S>, channels: u16, silence: S) -> (S, S) {
    if channels == 0 {
        (silence, silence)
    } else if channels == 1 {
        (frame[0], frame[0])
    } else {
        (frame[0], frame[1])
    }
}

/// The whole frames of interleaved samples, as stereo. An incomplete frame at
/// the end does not count.
pub open spec fn stereo_frames<S>(data: Seq<S>, channels: u16, silence: S) -> Seq<(S, S)> {
    Seq::new(
        (data.len() / channels as nat) as nat,
        |k: int| stereo_of(frame_at(data, channels as int, k), channels, silence),
    )
}

/// Whether `out` holds both sides of each of `frames` in turn, converted.
pub open spec fn interleaves<S, F: Fn(S) -> i16>(
    out: Seq<i16>,
    frames: Seq<(S, S)>,
    convert: F,
) -> bool {
    &&& out.len() == 2 * frames.len()
    &&& forall|k: int|
        #![trigger frames[k]]
        0 <= k < frames.len() ==> {
            &&& convert.ensures((frames[k].0,), out[2 * k])
            &&& convert.ensures((frames[k].1,), out[2 * k + 1])
        }
}

/// Where frame `k` lies among `len` interleaved samples.
pub proof fn lemma_frame_fits(len: int, channels: int, k: int)
    requires
        0 < channels,
        0 <= k < len / channels,
    ensures
        0 <= k * channels,
        (k + 1) * channels == k * channels + channels,
        k * channels + channels <= len,
{
    assert(0 <= k * channels && (k + 1) * channels == k * channels + channels && k * channels
        + channels <= len) by (nonlinear_arith)
        requires
            0 < channels,
            0 <= k < len / channels,
    ;
}

/// Where samples are cut at the end of a frame, the frames of the whole are those of
/// the first part and then those of the second.
pub proof fn law_frames_of_a_cut_input<S>(a: Seq<S>, b: Seq<S>, channels: u16, silence: S)
    requires
        channels > 0,
        a.len() % channels as nat == 0,
    ensures
        stereo_frames(a + b, channels, silence) == stereo_frames(a, channels, silence)
            + stereo_frames(b, channels, silence),
{
    let c = channels as int;
    let first = a.len() as int / c;
    let second = b.len() as int / c;
    vstd::arithmetic::div_mod::lemma_fundamental_div_mod(a.len() as int, c);
    assert(a.len() == first * c) by (nonlinear_arith)
        requires
            a.len() == c * first,
    ;
    assert((b.len() + first * c) / c == first + second) by {
        vstd::arithmetic::div_mod::lemma_hoist_over_denominator(b.len() as int, first, c as nat);
    }
    let whole = stereo_frames(a + b, channels, silence);
    let parts = stereo_frames(a, channels, silence) + stereo_frames(b, channels, silence);
    assert forall|k: int| 0 <= k < whole.len() implies #[trigger] whole[k] == parts[k] by {
        lemma_frame_fits((a + b).len() as int, c, k);
        if k < first {
            lemma_frame_fits(a.len() as int, c, k);
            assert(frame_at(a + b, c, k) =~= frame_at(a, c, k));
        } else {
            lemma_frame_fits(b.len() as int, c, k - first);
            assert(k * c == a.len() + (k - first) * c) by (nonlinear_arith)
                requires
                    a.len() == first * c,
            ;
            assert(frame_at(a + b, c, k) =~= frame_at(b, c, k - first));
        }
    }
    assert(whole =~= parts);
}

/// The left and the right sample of one frame.
pub fn map_channels<S: Copy>(frame: &[S], channels: u16, silence: S) -> (r: (S, S))
    requires
        channels == 1 ==> frame@.len() >= 1,
        channels >= 2 ==> frame@.len() >= 2,
    ensures
        r == stereo_of(frame@, channels, silence),
{
    match channels {
        0 => (silence, silence),
        1 => (frame[0], frame[0]),
        _ => (frame[0], frame[1]),
    }
}

/// The frame that starts at sample `at`, as stereo.
pub fn stereo_at<S: Copy>(data: &[S], at: usize, channels: u16, silence: S) -> (r: (S, S))
    requires
        at + channels <= data@.len(),
    ensures
        r == stereo_of(data@.subrange(at as int, at + channels), channels, silence),
{
    assert(data@.len() == data.len());
    let frame = vstd::slice::slice_subrange(data, at, at + channels as usize);
    map_channels(frame, channels, silence)
}

/// Brings captured audio to stereo and converts each sample, without changing
/// the rate.
pub fn convert_direct_to_i16<S: Copy, F: Fn(S) -> i16>(
    data: &[S],
    channels: u16,
    silence: S,
    convert: F,
) -> (r: Vec<i16>)
    requires
        channels > 0,
        forall|s: S| convert.requires((s,)),
    ensures
        interleaves(r@, stereo_frames(data@, channels, silence), convert),
{
    let len: usize = data.len();
    let mut out: Vec<i16> = Vec::with_capacity(len);
    let step: usize = channels as usize;
    let total: usize = len / step;
    let ghost frames = stereo_frames(data@, channels, silence);
    let mut at: usize = 0;
    let mut done: usize = 0;
    while done < total
        invariant
            channels > 0,
            step == channels,
            len == data@.len(),
            total == data@.len() / channels as nat,
            frames == stereo_frames(data@, channels, silence),
            done <= total,
            at == done * channels,
            forall|s: S| convert.requires((s,)),
            interleaves(out@, frames.take(done as int), convert),
        decreases total - done,
    {
        proof {
            lemma_frame_fits(data@.len() as int, channels as int, done as int);
        }
        let (left, right) = stereo_at(data, at, channels, silence);
        let ghost before = out@;
        out.push(convert(left));
        out.push(convert(right));
        proof {
            assert((left, right) == frames[done as int]);
            let now = frames.take(done + 1);
            assert forall|k: int|
                #![trigger now[k]]
                0 <= k < now.len() implies convert.ensures((now[k].0,), out@[2 * k])
                && convert.ensures((now[k].1,), out@[2 * k + 1]) by {
                if k < done {
                    assert(frames.take(done as int)[k] == now[k]);
                    assert(out@[2 * k] == before[2 * k]);
                    assert(out@[2 * k + 1] == before[2 * k + 1]);
                }
            }
        }
        at = at + step;
        done = done + 1;
    }
    assert(frames.take(done as int) == frames);
    out
}

/// The frames of two separate channels, as many as both hold.
pub open spec fn paired<S>(left: Seq<S>, right: Seq<S>) -> Seq<(S, S)> {
    Seq::new(
        if left.len() <= right.len() {
            left.len()
        } else {
            right.len()
        },
        |k: int| (left[k], right[k]),
    )
}

/// The stereo frames of separate channels: none if a side is missing.
pub open spec fn paired_channels<S>(output: Seq<Vec<S>>) -> Seq<(S, S)> {
    if output.len() < 2 {
        Seq::empty()
    } else {
        paired(output[0]@, output[1]@)
    }
}

/// Interleaves separate channels and converts each sample.
pub fn interleave_to_i16<S: Copy, F: Fn(S) -> i16>(output: &Vec<Vec<S>>, convert: F) -> (r: Vec<
    i16,
>)
    requires
        forall|s: S| convert.requires((s,)),
    ensures
        interleaves(r@, paired_channels(output@), convert),
{
    if output.len() < TARGET_CHANNELS as usize {
        return Vec::new();
    }
    let left = &output[0];
    let right = &output[1];
    let total: usize = if left.len() <= right.len() {
        left.len()
    } else {
        right.len()
    };
    let ghost frames = paired(left@, right@);
    let mut out: Vec<i16> = Vec::new();
    let mut done: usize = 0;
    while done < total
        invariant
            done <= total,
            total <= left@.len(),
            total <= right@.len(),
            frames == paired(left@, right@),
            total == frames.len(),
            forall|s: S| convert.requires((s,)),
            interleaves(out@, frames.take(done as int), convert),
        decreases total - done,
    {
        let ghost before = out@;
        out.push(convert(left[done]));
        out.push(convert(right[done]));
        proof {
            let now = frames.take(done + 1);
            assert forall|k: int|
                #![trigger now[k]]
                0 <= k < now.len() implies convert.ensures((now[k].0,), out@[2 * k])
                && convert.ensures((now[k].1,), out@[2 * k + 1]) by {
                if k < done {
                    assert(frames.take(done as int)[k] == now[k]);
                    assert(out@[2 * k] == before[2 * k]);
                    assert(out@[2 * k + 1] == before[2 * k + 1]);
                }
            }
        }
        done = done + 1;
    }
    assert(frames.take(done as int) == frames);
    out
}

/// The distance of an unsigned sample from the middle of its range.
pub fn centred(sample: u16) -> (r: i32)
    ensures
        r == sample - 0x8000,
{
    sample as i32 - 0x8000
}

/// A 16-bit sample as a number without sign, in two's complement.
pub open spec fn two_complement(sample: i16) -> int {
    if sample < 0 {
        sample + 0x1_0000
    } else {
        sample as int
    }
}

/// The sample that a low and a high byte stand for.
pub open spec fn sample_of(low: u8, high: u8) -> int {
    let n = low + 0x100 * high;
    if n < 0x8000 {
        n
    } else {
        n - 0x1_0000
    }
}

/// The bytes of samples: 16 bits each, the low byte first.
pub open spec fn pcm_bytes(samples: Seq<i16>) -> Seq<u8> {
    Seq::new(
        2 * samples.len(),
        |i: int|
            if i % 2 == 0 {
                (two_complement(samples[i / 2]) % 0x100) as u8
            } else {
                (two_complement(samples[i / 2]) / 0x100) as u8
            },
    )
}

/// The samples of bytes. A byte left over at the end does not count.
pub open spec fn pcm_samples(bytes: Seq<u8>) -> Seq<i16> {
    Seq::new(
        (bytes.len() / 2) as nat,
        |k: int| sample_of(bytes[2 * k], bytes[2 * k + 1]) as i16,
    )
}

/// Encodes samples for the stream.
pub fn encode_pcm(samples: &Vec<i16>) -> (r: Vec<u8>)
    ensures
        r@ == pcm_bytes(samples@),
{
    let mut bytes: Vec<u8> = Vec::new();
    let mut i: usize = 0;
    while i < samples.len()
        invariant
            i <= samples.len(),
            bytes@ == pcm_bytes(samples@.take(i as int)),
        decreases samples.len() - i,
    {
        let sample: i32 = samples[i] as i32;
        let n: i32 = if sample < 0 {
            sample + 0x1_0000
        } else {
            sample
        };
        bytes.push((n % 0x100) as u8);
        bytes.push((n / 0x100) as u8);
        assert(bytes@ =~= pcm_bytes(samples@.take(i + 1)));
        i = i + 1;
    }
    assert(samples@.take(i as int) == samples@);
    bytes
}

/// The chunk that a batch of samples makes: nothing if there are none.
pub fn pcm_chunk(samples: &Vec<i16>) -> (r: Option<Vec<u8>>)
    ensures
        match r {
            Some(bytes) => samples@.len() > 0 && bytes@ == pcm_bytes(samples@),
            None => samples@.len() == 0,
        },
{
    if samples.is_empty() {
        None
    } else {
        Some(encode_pcm(samples))
    }
}

/// Decodes the samples of a chunk.
pub fn decode_pcm(bytes: &[u8]) -> (r: Vec<i16>)
    ensures
        r@ == pcm_samples(bytes@),
{
    let mut samples: Vec<i16> = Vec::new();
    let mut at: usize = 0;
    while bytes.len() - at >= 2
        invariant
            at <= bytes@.len(),
            at % 2 == 0,
            samples@ == pcm_samples(bytes@.take(at as int)),
        decreases bytes@.len() - at,
    {
        let n: i32 = bytes[at] as i32 + 0x100 * (bytes[at + 1] as i32);
        let sample: i32 = if n < 0x8000 {
            n
        } else {
            n - 0x1_0000
        };
        samples.push(sample as i16);
        assert(samples@ =~= pcm_samples(bytes@.take(at + 2)));
        at = at + 2;
    }
    assert(samples@ =~= pcm_samples(bytes@));
    samples
}

/// Decoding gives back the samples that were encoded.
pub proof fn law_pcm_round_trip(samples: Seq<i16>)
    ensures
        pcm_samples(pcm_bytes(samples)) == samples,
        pcm_bytes(samples).len() == 2 * samples.len(),
{
    let bytes = pcm_bytes(samples);
    assert forall|k: int| 0 <= k < samples.len() implies #[trigger] pcm_samples(bytes)[k]
        == samples[k] by {
        assert((2 * k) / 2 == k && (2 * k + 1) / 2 == k);
    }
    assert(pcm_samples(bytes) =~= samples);
}

/// Frame `k` begins at sample `k` times the channel count. Its left side is the sample
/// there; its right side is the one after it, or the same if there is one channel. A
/// frame that is not whole does not count.
pub proof fn law_frames_are_the_first_two_channels<S>(
    data: Seq<S>,
    channels: u16,
    silence: S,
    k: int,
)
    requires
        channels > 0,
    ensures
        stereo_frames(data, channels, silence).len() * channels <= data.len(),
        data.len() < (stereo_frames(data, channels, silence).len() + 1) * channels,
        0 <= k < stereo_frames(data, channels, silence).len() ==> {
            let (left, right) = stereo_frames(data, channels, silence)[k];
            &&& left == data[k * channels]
            &&& channels == 1 ==> right == data[k]
            &&& channels > 1 ==> right == data[k * channels + 1]
        },
{
    let c = channels as int;
    let count = data.len() as int / c;
    vstd::arithmetic::div_mod::lemma_fundamental_div_mod(data.len() as int, c);
    vstd::arithmetic::div_mod::lemma_mod_bound(data.len() as int, c);
    assert(count * c <= data.len() && data.len() < (count + 1) * c) by (nonlinear_arith)
        requires
            data.len() == c * count + data.len() as int % c,
            0 <= data.len() as int % c < c,
    ;
    if 0 <= k < count {
        lemma_frame_fits(data.len() as int, c, k);
    }
}

/// What one frame becomes: silence without channels, both sides alike with one, and else
/// its first two samples.
pub proof fn law_sides_of_a_frame<S>(frame: Seq<S>, channels: u16, silence: S)
    ensures
        channels == 0 ==> stereo_of(frame, channels, silence) == (silence, silence),
        channels == 1 ==> stereo_of(frame, channels, silence) == (frame[0], frame[0]),
        channels > 1 ==> stereo_of(frame, channels, silence) == (frame[0], frame[1]),
{
}

/// Converted samples alternate between left and right: two for each frame, in order, and
/// each is what the conversion makes of the sample in its place.
pub proof fn law_samples_alternate_between_the_sides<S, F: Fn(S) -> i16>(
    out: Seq<i16>,
    frames: Seq<(S, S)>,
    convert: F,
    i: int,
)
    requires
        interleaves(out, frames, convert),
    ensures
        out.len() == 2 * frames.len(),
        0 <= i < out.len() && i % 2 == 0 ==> convert.ensures((frames[i / 2].0,), out[i]),
        0 <= i < out.len() && i % 2 == 1 ==> convert.ensures((frames[i / 2].1,), out[i]),
{
    if 0 <= i < out.len() {
        let frame = frames[i / 2];
        assert(i % 2 == 0 ==> i == 2 * (i / 2));
        assert(i % 2 == 1 ==> i == 2 * (i / 2) + 1);
    }
}

/// Separate channels are paired sample by sample, as long as both go on. Channels beyond
/// the second are left out, and a lone channel makes no frame.
pub proof fn law_channels_are_paired_in_step<S>(output: Seq<Vec<S>>, k: int)
    ensures
        output.len() < 2 ==> paired_channels(output).len() == 0,
        output.len() >= 2 ==> {
            let frames = paired_channels(output);
            &&& frames.len() <= output[0]@.len()
            &&& frames.len() <= output[1]@.len()
            &&& frames.len() == output[0]@.len() || frames.len() == output[1]@.len()
            &&& 0 <= k < frames.len() ==> frames[k].0 == output[0]@[k] && frames[k].1
                == output[1]@[k]
        },
{
}

/// The two bytes of a sample, the low one first, are the sample modulo 65536.
pub proof fn law_bytes_are_little_endian(samples: Seq<i16>, k: int)
    requires
        0 <= k < samples.len(),
    ensures
        pcm_bytes(samples).len() == 2 * samples.len(),
        (pcm_bytes(samples)[2 * k] + 256 * pcm_bytes(samples)[2 * k + 1] - samples[k]) % 65536 == 0,
        samples[k] >= 0 <==> pcm_bytes(samples)[2 * k + 1] < 128,
{
    assert((2 * k) / 2 == k && (2 * k + 1) / 2 == k);
}

/// Decoding takes two bytes a sample, the low one first; from 32768 on the number stands
/// for a negative sample. A byte left over is not looked at.
pub proof fn law_samples_are_read_little_endian(bytes: Seq<u8>, k: int)
    ensures
        pcm_samples(bytes).len() == bytes.len() / 2,
        0 <= k < bytes.len() / 2 ==> {
            let n = bytes[2 * k] + 256 * bytes[2 * k + 1];
            pcm_samples(bytes)[k] == if n < 32768 {
                n
            } else {
                n - 65536
            }
        },
{
}

} // verus!
