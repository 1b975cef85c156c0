//! Tracks, samples and the two packed forms of the sample flags.

use fmp4_mux::sample::{Flags, Sample};
use fmp4_mux::track::Track;

fn flags(
    is_leading: u8,
    depands_on: u8,
    is_depended_on: u8,
    has_redundancy: u8,
    padding_value: u8,
    is_non_sync: u8,
    degrad_prio: u16,
) -> Flags {
    Flags {
        is_leading,
        is_depended_on,
        has_redundancy,
        depands_on,
        padding_value,
        is_non_sync,
        degrad_prio,
    }
}

#[test]
fn track_new_sets_defaults() {
    let t = Track::new(33, 1920, 1080);
    assert_eq!(t.id, 0);
    assert_eq!(t.duration, 33);
    assert_eq!(t.timescale, 1000);
    assert_eq!(t.width, 1920);
    assert_eq!(t.height, 1080);
    assert_eq!(t.volume, 0);
    assert_eq!(t.dts, 0);
    assert_eq!(Track::DEFAULT_TIMESCALE, 1000);
}

#[test]
fn key_frame_sample_is_a_sync_point() {
    let s = Sample::new(100, 33, 7, true);
    assert_eq!(s.size, 100);
    assert_eq!(s.duration, 33);
    assert_eq!(s.cts, 7);
    assert_eq!(s.flags.depands_on, 2);
    assert_eq!(s.flags.is_non_sync, 0);
    assert_eq!(s.flags.is_leading, 0);
    assert_eq!(s.flags.is_depended_on, 0);
    assert_eq!(s.flags.has_redundancy, 0);
    assert_eq!(s.flags.padding_value, 0);
    assert_eq!(s.flags.degrad_prio, 0);
}

#[test]
fn dependent_sample_is_no_sync_point() {
    let s = Sample::new(50, 40, 0, false);
    assert_eq!(s.size, 50);
    assert_eq!(s.duration, 40);
    assert_eq!(s.cts, 0);
    assert_eq!(s.flags.depands_on, 1);
    assert_eq!(s.flags.is_non_sync, 1);
}

#[test]
fn key_frame_flags_decode() {
    let f = Sample::new(1, 1, 0, true).flags;
    let word = f.as_four_byte();
    assert_eq!(word, [0x02, 0x00, 0x00, 0x00]);
    assert_eq!(word[0] & 3, 2);
    assert_eq!(word[1] & 1, 0);
    let code = f.as_byte();
    assert_eq!(code, 0x20);
    assert_eq!((code >> 4) & 3, 2);
}

#[test]
fn dependent_frame_flags_decode() {
    let f = Sample::new(1, 1, 0, false).flags;
    let word = f.as_four_byte();
    assert_eq!(word, [0x01, 0x01, 0x00, 0x00]);
    assert_eq!(word[0] & 3, 1);
    assert_eq!(word[1] & 1, 1);
    let code = f.as_byte();
    assert_eq!(code, 0x10);
    assert_eq!((code >> 4) & 3, 1);
}

#[test]
fn as_byte_packs_three_fields() {
    assert_eq!(flags(0, 2, 1, 3, 0, 0, 0).as_byte(), 0x27);
    assert_eq!(flags(3, 0, 0, 0, 7, 1, 0xffff).as_byte(), 0x00);
    assert_eq!(flags(0, 3, 3, 3, 0, 0, 0).as_byte(), 0x3f);
}

#[test]
fn as_byte_drops_bits_shifted_out() {
    assert_eq!(flags(0, 0x1f, 0, 0, 0, 0, 0).as_byte(), 0xf0);
    assert_eq!(flags(0, 0, 0xff, 0, 0, 0, 0).as_byte(), 0xfc);
}

#[test]
fn as_four_byte_packs_every_field() {
    let word = flags(1, 2, 0, 0, 5, 1, 0x1234).as_four_byte();
    assert_eq!(word, [0x06, 0x0b, 0x12, 0x34]);
    assert_eq!((word[0] >> 2) & 3, 1);
    assert_eq!(word[0] & 3, 2);
    assert_eq!((word[1] >> 1) & 7, 5);
    assert_eq!(word[1] & 1, 1);
    assert_eq!(u16::from_be_bytes([word[2], word[3]]), 0x1234);
}

#[test]
fn as_four_byte_shares_the_high_bits_of_the_second_byte() {
    assert_eq!(flags(0, 0, 1, 0, 0, 0, 0).as_four_byte(), [0x00, 0x40, 0x00, 0x00]);
    assert_eq!(flags(0, 0, 0, 1, 0, 0, 0).as_four_byte(), [0x00, 0x40, 0x00, 0x00]);
    assert_eq!(flags(0, 0, 1, 2, 0, 0, 0).as_four_byte(), [0x00, 0xc0, 0x00, 0x00]);
    assert_eq!(flags(0, 0, 2, 2, 0, 0, 0).as_four_byte(), [0x00, 0x80, 0x00, 0x00]);
}
