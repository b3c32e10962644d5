use lox_linein_bridge::pcm::{
    centred, convert_direct_to_i16, decode_pcm, encode_pcm, interleave_to_i16, map_channels,
    pcm_chunk, stereo_at,
};

fn to_i16(sample: f32) -> i16 {
    (sample * 100.0) as i16
}

#[test]
fn channels_become_stereo() {
    assert_eq!(map_channels::<f32>(&[], 0, 0.0), (0.0, 0.0));
    assert_eq!(map_channels(&[0.5], 1, 0.0), (0.5, 0.5));
    assert_eq!(map_channels(&[0.5, 0.25], 2, 0.0), (0.5, 0.25));
    assert_eq!(map_channels(&[0.5, 0.25, 0.125], 3, 0.0), (0.5, 0.25));
    assert_eq!(stereo_at(&[1, 2, 3, 4, 5, 6], 3, 3, 0), (4, 5));
}

#[test]
fn direct_conversion_keeps_stereo() {
    let data = [0.1f32, -0.2, 0.3, 0.4];
    let expected: Vec<i16> = data.iter().map(|s| to_i16(*s)).collect();
    assert_eq!(convert_direct_to_i16(&data, 2, 0.0, to_i16), expected);
    assert!(convert_direct_to_i16(&[], 2, 0.0, to_i16).is_empty());
}

#[test]
fn direct_conversion_maps_other_channel_counts() {
    assert_eq!(
        convert_direct_to_i16(&[0.5, -0.5], 1, 0.0, to_i16),
        [50, 50, -50, -50]
    );
    // The first two of three channels, and no incomplete frame.
    assert_eq!(
        convert_direct_to_i16(&[0.5, 0.25, 0.75, -0.5, -0.25, -0.75, 1.0], 3, 0.0, to_i16),
        [50, 25, -50, -25]
    );
    // An odd sample of stereo is left out.
    assert_eq!(convert_direct_to_i16(&[0.5, 0.25, 1.0], 2, 0.0, to_i16), [50, 25]);
}

#[test]
fn sides_are_interleaved_as_far_as_both_go() {
    let sides = vec![vec![0.1f32, 0.2, 0.3], vec![-0.5, 0.75]];
    assert_eq!(
        interleave_to_i16(&sides, to_i16),
        [to_i16(0.1), -50, to_i16(0.2), 75]
    );
    assert!(interleave_to_i16(&vec![vec![0.1f32]], to_i16).is_empty());
    assert!(interleave_to_i16(&Vec::<Vec<f32>>::new(), to_i16).is_empty());
}

#[test]
fn unsigned_samples_are_centred() {
    assert_eq!(centred(0), -32768);
    assert_eq!(centred(32768), 0);
    assert_eq!(centred(65535), 32767);
}

#[test]
fn samples_are_little_endian() {
    assert_eq!(encode_pcm(&vec![1, -2, 0x1234]), [1, 0, 0xfe, 0xff, 0x34, 0x12]);
    for sample in i16::MIN..=i16::MAX {
        let bytes = encode_pcm(&vec![sample]);
        assert_eq!(bytes, sample.to_le_bytes());
        assert_eq!(decode_pcm(&bytes), [sample]);
    }
}

#[test]
fn decoding_gives_back_what_was_encoded() {
    let samples = vec![0, 1, -1, i16::MAX, i16::MIN, 12345];
    assert_eq!(decode_pcm(&encode_pcm(&samples)), samples);
    // A byte left over does not count.
    assert_eq!(decode_pcm(&[1, 0, 9]), [1]);
    assert!(decode_pcm(&[9]).is_empty());
}

#[test]
fn no_samples_make_no_chunk() {
    assert_eq!(pcm_chunk(&vec![]), None);
    assert_eq!(pcm_chunk(&vec![-1]), Some(vec![0xff, 0xff]));
}
