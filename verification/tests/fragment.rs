//! Movie fragments: their boxes byte for byte, and the data offset read back.

use fmp4_mux::fragment::{mdat, mfhd, moof, sdtp, traf, trun, FragmentError, FIELD_BOX_LEN};
use fmp4_mux::sample::{Flags, Sample};
use fmp4_mux::track::Track;

fn u32_at(bytes: &[u8], at: usize) -> u32 {
    u32::from_be_bytes([bytes[at], bytes[at + 1], bytes[at + 2], bytes[at + 3]])
}

fn payload_of<'a>(run: &'a [u8], tag: &[u8; 4]) -> Option<&'a [u8]> {
    let mut at = 0usize;
    while at + 8 <= run.len() {
        let size = u32_at(run, at) as usize;
        if size < 8 || at + size > run.len() {
            return None;
        }
        if &run[at + 4..at + 8] == tag {
            return Some(&run[at + 8..at + size]);
        }
        at += size;
    }
    None
}

fn track_with_id(id: u32) -> Track {
    Track { id, duration: 33, timescale: 1000, width: 640, height: 480, volume: 0, dts: 0 }
}

fn three_samples() -> Vec<Sample> {
    let mut odd = Sample::new(0x0a0b_0c0d, 0x0102_0304, 0x1122_3344, false);
    odd.flags = Flags {
        is_leading: 1,
        is_depended_on: 1,
        has_redundancy: 2,
        depands_on: 2,
        padding_value: 5,
        is_non_sync: 1,
        degrad_prio: 0x1234,
    };
    vec![Sample::new(100, 33, 0, true), Sample::new(50, 34, 5, false), odd]
}

#[test]
fn mfhd_holds_the_sequence_number() {
    assert_eq!(
        mfhd(0x0102_0304),
        vec![0, 0, 0, 16, b'm', b'f', b'h', b'd', 0, 0, 0, 0, 1, 2, 3, 4]
    );
    assert_eq!(mfhd(0).len(), FIELD_BOX_LEN as usize);
}

#[test]
fn mdat_wraps_the_payload_unchanged() {
    assert_eq!(mdat(&[9, 8, 7]), vec![0, 0, 0, 11, b'm', b'd', b'a', b't', 9, 8, 7]);
    assert_eq!(mdat(&[]), vec![0, 0, 0, 8, b'm', b'd', b'a', b't']);
}

#[test]
fn sdtp_lists_one_code_per_sample() {
    let samples = three_samples();
    assert_eq!(
        sdtp(&samples),
        vec![0, 0, 0, 15, b's', b'd', b't', b'p', 0, 0, 0, 0, 0x20, 0x10, 0x26]
    );
    assert_eq!(sdtp(&[]), vec![0, 0, 0, 12, b's', b'd', b't', b'p', 0, 0, 0, 0]);
}

#[test]
fn trun_lists_duration_size_flags_and_offset_per_sample() {
    let samples = three_samples();
    let out = trun(&track_with_id(1), 100, &samples);
    let expected: Vec<u8> = vec![
        0, 0, 0, 68, b't', b'r', b'u', b'n', // box header
        0x00, 0x00, 0x0f, 0x01, // version, flags
        0, 0, 0, 3, // sample count
        0, 0, 0, 168, // data offset: 100 + 8 + 12 + 3 * 16
        0, 0, 0, 33, 0, 0, 0, 100, 0x02, 0x00, 0x00, 0x00, 0, 0, 0, 0, // key frame
        0, 0, 0, 34, 0, 0, 0, 50, 0x01, 0x01, 0x00, 0x00, 0, 0, 0, 5, // dependent frame
        0x01, 0x02, 0x03, 0x04, 0x0a, 0x0b, 0x0c, 0x0d, 0x06, 0xcb, 0x12, 0x34, 0x11, 0x22, 0x33,
        0x44,
    ];
    assert_eq!(out, expected);
}

#[test]
fn trun_of_no_sample_has_only_its_fixed_fields() {
    let out = trun(&track_with_id(1), 7, &[]);
    assert_eq!(
        out,
        vec![0, 0, 0, 20, b't', b'r', b'u', b'n', 0x00, 0x00, 0x0f, 0x01, 0, 0, 0, 0, 0, 0, 0, 27]
    );
}

#[test]
fn traf_holds_header_time_run_and_table() {
    let samples = vec![Sample::new(100, 33, 0, true)];
    let out = traf(&track_with_id(0x0a), 0x0102_0304, &samples, 24);
    let expected: Vec<u8> = vec![
        0, 0, 0, 89, b't', b'r', b'a', b'f', // box header
        0, 0, 0, 16, b't', b'f', b'h', b'd', 0, 0, 0, 0, 0, 0, 0, 0x0a, // track id
        0, 0, 0, 16, b't', b'f', b'd', b't', 0, 0, 0, 0, 1, 2, 3, 4, // decode time
        0, 0, 0, 36, b't', b'r', b'u', b'n', 0x00, 0x00, 0x0f, 0x01, 0, 0, 0, 1, 0, 0, 0, 121, 0,
        0, 0, 33, 0, 0, 0, 100, 0x02, 0x00, 0x00, 0x00, 0, 0, 0, 0, // run
        0, 0, 0, 13, b's', b'd', b't', b'p', 0, 0, 0, 0, 0x20, // dependency table
    ];
    assert_eq!(out, expected);
}

#[test]
fn traf_counts_its_lead_into_the_data_offset() {
    let samples = three_samples();
    let near = traf(&track_with_id(1), 0, &samples, 0);
    let far = traf(&track_with_id(1), 0, &samples, 1000);
    let near_run = payload_of(&near[8..], b"trun").unwrap();
    let far_run = payload_of(&far[8..], b"trun").unwrap();
    assert_eq!(u32_at(near_run, 8) as usize, near.len() + 8);
    assert_eq!(u32_at(far_run, 8) as usize, 1000 + far.len() + 8);
    assert_eq!(near.len(), 72 + 17 * 3);
}

#[test]
fn moof_of_one_key_frame() {
    let samples = vec![Sample::new(100, 33, 0, true)];
    let out = moof(7, 66, &track_with_id(0), &samples).unwrap();
    let expected: Vec<u8> = vec![
        0, 0, 0, 113, b'm', b'o', b'o', b'f', // box header
        0, 0, 0, 16, b'm', b'f', b'h', b'd', 0, 0, 0, 0, 0, 0, 0, 7, // sequence number
        0, 0, 0, 89, b't', b'r', b'a', b'f', // track fragment
        0, 0, 0, 16, b't', b'f', b'h', b'd', 0, 0, 0, 0, 0, 0, 0, 0, // track id
        0, 0, 0, 16, b't', b'f', b'd', b't', 0, 0, 0, 0, 0, 0, 0, 66, // decode time
        0, 0, 0, 36, b't', b'r', b'u', b'n', 0x00, 0x00, 0x0f, 0x01, 0, 0, 0, 1, 0, 0, 0, 121, 0,
        0, 0, 33, 0, 0, 0, 100, 0x02, 0x00, 0x00, 0x00, 0, 0, 0, 0, // run
        0, 0, 0, 13, b's', b'd', b't', b'p', 0, 0, 0, 0, 0x20, // dependency table
    ];
    assert_eq!(out, expected);
}

#[test]
fn moof_refuses_an_empty_batch() {
    let out = moof(0, 0, &track_with_id(0), &[]);
    assert_eq!(out, Err(FragmentError::NoSamples));
}

#[test]
fn moof_data_offset_leads_to_the_first_sample_byte() {
    for n in 1..6usize {
        let mut samples = Vec::new();
        let mut data = Vec::new();
        for k in 0..n {
            samples.push(Sample::new(3, 33, 0, k == 0));
            data.extend_from_slice(&[0xd0 + k as u8, 0xe0 + k as u8, 0xf0 + k as u8]);
        }
        let fragment = moof(n as u32, 0, &track_with_id(1), &samples).unwrap();
        assert_eq!(fragment.len(), 96 + 17 * n);
        assert_eq!(u32_at(&fragment, 0) as usize, fragment.len());

        let run = payload_of(payload_of(&fragment[8..], b"traf").unwrap(), b"trun").unwrap();
        assert_eq!(u32_at(run, 4) as usize, n);
        let offset = u32_at(run, 8) as usize;
        assert_eq!(offset, fragment.len() + 8);

        let mut segment = fragment.clone();
        segment.extend_from_slice(&mdat(&data));
        assert_eq!(&segment[offset..], &data[..]);
        assert_eq!(segment[offset], 0xd0);
    }
}

#[test]
fn every_box_of_a_fragment_declares_its_length() {
    let samples = three_samples();
    let fragment = moof(1, 2, &track_with_id(3), &samples).unwrap();
    assert_eq!(u32_at(&fragment, 0) as usize, fragment.len());
    let inside = &fragment[8..];
    assert_eq!(u32_at(inside, 0), 16);
    assert_eq!(&inside[4..8], b"mfhd");
    let track_fragment = &inside[16..];
    assert_eq!(u32_at(track_fragment, 0) as usize, track_fragment.len());
    assert_eq!(&track_fragment[4..8], b"traf");
    let mut at = 8usize;
    let mut tags: Vec<Vec<u8>> = Vec::new();
    while at < track_fragment.len() {
        let size = u32_at(track_fragment, at) as usize;
        assert!(size >= 8 && at + size <= track_fragment.len());
        tags.push(track_fragment[at + 4..at + 8].to_vec());
        at += size;
    }
    assert_eq!(at, track_fragment.len());
    assert_eq!(tags, vec![b"tfhd".to_vec(), b"tfdt".to_vec(), b"trun".to_vec(), b"sdtp".to_vec()]);
}

#[test]
fn run_and_dependency_table_keep_the_order_of_the_batch() {
    let samples = three_samples();
    let fragment = moof(0, 0, &track_with_id(1), &samples).unwrap();
    let track_fragment = payload_of(&fragment[8..], b"traf").unwrap();
    let run = payload_of(track_fragment, b"trun").unwrap();
    let table = payload_of(track_fragment, b"sdtp").unwrap();
    for (i, s) in samples.iter().enumerate() {
        let at = 12 + 16 * i;
        assert_eq!(u32_at(run, at), s.duration);
        assert_eq!(u32_at(run, at + 4), s.size);
        assert_eq!(&run[at + 8..at + 12], &s.flags.as_four_byte());
        assert_eq!(u32_at(run, at + 12), s.cts);
        assert_eq!(table[4 + i], s.flags.as_byte());
    }
}
