//! The muxer from construction through a run of frames.

use fmp4_mux::fmp4::Fmp4;
use fmp4_mux::fragment::{mdat, moof};
use fmp4_mux::sample::Sample;

fn field(bytes: &[u8], at: usize) -> u32 {
    u32::from_be_bytes([bytes[at], bytes[at + 1], bytes[at + 2], bytes[at + 3]])
}

fn inner<'a>(run: &'a [u8], tag: &[u8; 4]) -> &'a [u8] {
    let mut at = 0usize;
    while at + 8 <= run.len() {
        let size = field(run, at) as usize;
        assert!(size >= 8 && at + size <= run.len());
        if &run[at + 4..at + 8] == tag {
            return &run[at + 8..at + size];
        }
        at += size;
    }
    panic!("no such box");
}

#[test]
fn new_muxer_starts_at_zero() {
    let muxer = Fmp4::new(30, 1920, 1080);
    let track = muxer.track();
    assert_eq!(track.duration, 33);
    assert_eq!(track.timescale, 1000);
    assert_eq!(track.width, 1920);
    assert_eq!(track.height, 1080);
    assert_eq!(track.id, 0);
    assert_eq!(track.volume, 0);
    assert_eq!(track.dts, 0);
    assert_eq!(muxer.sequence_number(), 0);
}

#[test]
fn sample_duration_is_the_truncated_quotient() {
    assert_eq!(Fmp4::new(1, 2, 2).track().duration, 1000);
    assert_eq!(Fmp4::new(24, 2, 2).track().duration, 41);
    assert_eq!(Fmp4::new(60, 2, 2).track().duration, 16);
    assert_eq!(Fmp4::new(1000, 2, 2).track().duration, 1);
    assert_eq!(Fmp4::new(1001, 2, 2).track().duration, 0);
    assert_eq!(Fmp4::new(u32::MAX, 2, 2).track().duration, 0);
}

#[test]
fn three_frames_end_to_end() {
    let mut muxer = Fmp4::new(30, 1920, 1080);
    let duration = muxer.track().duration;
    assert_eq!(duration, 1000 / 30);

    let sizes = [100usize, 50, 100];
    let keys = [true, false, false];
    let mut times = Vec::new();
    let mut numbers = Vec::new();
    for n in 0..3 {
        let data = vec![0x80 + n as u8; sizes[n]];
        let segment = muxer.wrap_frame(&data, keys[n]);

        let fragment_len = field(&segment, 0) as usize;
        assert_eq!(&segment[4..8], b"moof");
        let fragment = inner(&segment, b"moof");
        let track_fragment = inner(fragment, b"traf");
        numbers.push(field(inner(fragment, b"mfhd"), 4));
        times.push(field(inner(track_fragment, b"tfdt"), 4));
        assert_eq!(field(inner(track_fragment, b"tfhd"), 4), 0);

        let run = inner(track_fragment, b"trun");
        assert_eq!(field(run, 4), 1);
        assert_eq!(field(run, 12), duration);
        assert_eq!(field(run, 16) as usize, sizes[n]);
        assert_eq!(run[20] & 3, if keys[n] { 2 } else { 1 });
        assert_eq!(run[21] & 1, if keys[n] { 0 } else { 1 });
        assert_eq!(field(run, 24), 0);
        assert_eq!(inner(track_fragment, b"sdtp"), &[0, 0, 0, 0, if keys[n] { 0x20 } else { 0x10 }]);

        let payload = inner(&segment, b"mdat");
        assert_eq!(payload.len(), sizes[n]);
        assert_eq!(payload, &data[..]);
        assert_eq!(field(&segment, fragment_len) as usize, 8 + sizes[n]);

        let offset = field(run, 8) as usize;
        assert_eq!(offset, fragment_len + 8);
        assert_eq!(&segment[offset..], &data[..]);
        assert_eq!(segment.len(), 113 + 8 + sizes[n]);
    }
    assert_eq!(times, vec![0, duration, 2 * duration]);
    assert_eq!(numbers, vec![0, 1, 2]);
    assert_eq!(muxer.track().dts, 3 * duration);
    assert_eq!(muxer.sequence_number(), 3);
}

#[test]
fn wrap_frame_is_moof_then_mdat() {
    let mut muxer = Fmp4::new(25, 320, 240);
    muxer.wrap_frame(&[0; 10], true);
    let state = muxer.track();
    let sn = muxer.sequence_number();
    assert_eq!((state.dts, sn), (40, 1));

    let data = [1u8, 2, 3, 4, 5];
    let out = muxer.wrap_frame(&data, false);
    let samples = vec![Sample::new(5, 40, 0, false)];
    let mut expected = moof(sn, state.dts, &state, &samples).unwrap();
    expected.extend_from_slice(&mdat(&data));
    assert_eq!(out, expected);

    let after = muxer.track();
    assert_eq!(after.dts, 80);
    assert_eq!(after.duration, state.duration);
    assert_eq!(after.id, state.id);
    assert_eq!(after.timescale, state.timescale);
    assert_eq!(after.width, state.width);
    assert_eq!(after.height, state.height);
    assert_eq!(after.volume, state.volume);
    assert_eq!(muxer.sequence_number(), 2);
}

#[test]
fn a_new_muxer_can_wrap_frames() {
    let mut muxer = Fmp4::new(30, 16, 16);
    assert!(muxer.can_wrap_frame(&[]));
    assert!(muxer.can_wrap_frame(&[0; 1000]));
    muxer.wrap_frame(&[0; 1000], true);
    assert!(muxer.can_wrap_frame(&[1]));
}

#[test]
fn wrap_frame_of_no_bytes() {
    let mut muxer = Fmp4::new(30, 16, 16);
    let out = muxer.wrap_frame(&[], true);
    assert_eq!(out.len(), 113 + 8);
    assert_eq!(&out[113..], &[0, 0, 0, 8, b'm', b'd', b'a', b't']);
    let run = inner(inner(inner(&out, b"moof"), b"traf"), b"trun");
    assert_eq!(field(run, 16), 0);
    assert_eq!(field(run, 8) as usize, out.len());
    assert_eq!(muxer.sequence_number(), 1);
}

#[test]
fn base_decode_time_is_the_sum_of_earlier_durations() {
    let mut muxer = Fmp4::new(7, 64, 64);
    let duration = muxer.track().duration;
    assert_eq!(duration, 142);
    let mut sum = 0u32;
    for n in 0..50u32 {
        let out = muxer.wrap_frame(&[n as u8], n % 10 == 0);
        let fragment = inner(&out, b"moof");
        let track_fragment = inner(fragment, b"traf");
        assert_eq!(field(inner(fragment, b"mfhd"), 4), n);
        assert_eq!(field(inner(track_fragment, b"tfdt"), 4), sum);
        sum += field(inner(track_fragment, b"trun"), 12);
    }
    assert_eq!(sum, 50 * 142);
    assert_eq!(muxer.track().dts, sum);
}

#[test]
fn a_muxer_of_zero_duration_never_moves_its_cursor() {
    let mut muxer = Fmp4::new(2000, 64, 64);
    for n in 0..3u32 {
        let out = muxer.wrap_frame(&[1], true);
        let fragment = inner(&out, b"moof");
        assert_eq!(field(inner(fragment, b"mfhd"), 4), n);
        assert_eq!(field(inner(inner(fragment, b"traf"), b"tfdt"), 4), 0);
    }
    assert_eq!(muxer.track().dts, 0);
}
