//! One fragment: the movie-fragment box, which times and sizes a batch of
//! samples of one track, and the media-data box that holds their bytes.

use vstd::prelude::*;
use crate::boxes::{concat, find_box, find_in, lemma_concat_1, lemma_concat_2, lemma_concat_4,
    lemma_concat_take, lemma_concat_uniform, lemma_concat_uniform_index, lemma_find_box_first,
    lemma_find_box_skip, mp4_box, spec_box, views, BOX_HEADER_LEN};
use crate::endian::{be_u32, lemma_read_be_u32_at, put_bytes, put_u32, put_version_flags,
    read_be_u32, version_flags};
use crate::sample::Sample;
use crate::tags::{MDAT, MFHD, MOOF, SDTP, TFDT, TFHD, TRAF, TRUN};
use crate::track::Track;

verus! {

/// Why no fragment was built.
#[derive(Clone, Copy, Debug, PartialEq, Eq)]
pub enum FragmentError {
    /// The batch holds no sample: a fragment describes at least one.
    NoSamples,
}

/// Bytes of a fragment header, of a track-fragment header and of a
/// decode-time box: a box header, version and flags, and one 32-bit field.
pub const FIELD_BOX_LEN: u32 = 16;

/// Bytes of one entry of a track run.
pub const RUN_ENTRY_LEN: u32 = 16;

/// Flags of the track run: the data offset is present, and each entry gives
/// duration, size, flags and composition-time offset.
pub const RUN_FLAGS: u32 = 0x000f01;

/// Bytes of a track run of `samples` entries: the box header, version and
/// flags, the sample count, the data offset, and the entries.
pub open spec fn trun_len(samples: nat) -> nat {
    BOX_HEADER_LEN as nat + 12 + samples * (RUN_ENTRY_LEN as nat)
}

/// Bytes of a sample-dependency table of `samples` entries.
pub open spec fn sdtp_len(samples: nat) -> nat {
    BOX_HEADER_LEN as nat + 4 + samples
}

/// Bytes of a track fragment of `samples` samples.
pub open spec fn traf_len(samples: nat) -> nat {
    BOX_HEADER_LEN as nat + 2 * (FIELD_BOX_LEN as nat) + trun_len(samples) + sdtp_len(samples)
}

/// Bytes of a movie fragment of `samples` samples.
pub open spec fn moof_len(samples: nat) -> nat {
    BOX_HEADER_LEN as nat + FIELD_BOX_LEN as nat + traf_len(samples)
}

/// Distance from the first byte of a movie fragment of `samples` samples to the
/// first byte of sample data: the whole fragment box, and the header of the
/// media-data box that follows it.
pub open spec fn first_sample_offset(samples: nat) -> nat {
    moof_len(samples) + BOX_HEADER_LEN as nat
}

/// The fragment header: the fragment's sequence number.
#[verifier::opaque]
pub open spec fn spec_mfhd(sn: u32) -> Seq<u8> {
    spec_box(MFHD@, version_flags(0, 0) + be_u32(sn))
}

/// The track-fragment header: the track's identifier and no optional field.
#[verifier::opaque]
pub open spec fn spec_tfhd(id: u32) -> Seq<u8> {
    spec_box(TFHD@, version_flags(0, 0) + be_u32(id))
}

/// The decode-time box: the decode time of the fragment's first sample.
#[verifier::opaque]
pub open spec fn spec_tfdt(base_media_decode_time: u32) -> Seq<u8> {
    spec_box(TFDT@, version_flags(0, 0) + be_u32(base_media_decode_time))
}

/// One entry of a track run: duration, size, flags, composition-time offset.
pub open spec fn run_entry(sample: Sample) -> Seq<u8> {
    be_u32(sample.duration) + be_u32(sample.size) + sample.flags.word_code() + be_u32(sample.cts)
}

/// The run entry of each sample, in order.
pub open spec fn run_entries(samples: Seq<Sample>) -> Seq<Seq<u8>> {
    Seq::new(samples.len(), |i: int| run_entry(samples[i]))
}

/// Payload of a track run that declares `data_offset`.
pub open spec fn trun_payload(data_offset: u32, samples: Seq<Sample>) -> Seq<u8> {
    version_flags(0, RUN_FLAGS) + be_u32(samples.len() as u32) + be_u32(data_offset) + concat(
        run_entries(samples),
    )
}

/// The track run.
#[verifier::opaque]
pub open spec fn spec_trun(data_offset: u32, samples: Seq<Sample>) -> Seq<u8> {
    spec_box(TRUN@, trun_payload(data_offset, samples))
}

/// The one-byte dependency code of each sample, in order.
pub open spec fn dependency_codes(samples: Seq<Sample>) -> Seq<u8> {
    Seq::new(samples.len(), |i: int| samples[i].flags.byte_code())
}

/// The sample-dependency table.
#[verifier::opaque]
pub open spec fn spec_sdtp(samples: Seq<Sample>) -> Seq<u8> {
    spec_box(SDTP@, version_flags(0, 0) + dependency_codes(samples))
}

/// The track fragment whose run declares `data_offset`.
#[verifier::opaque]
pub open spec fn spec_traf(
    track: Track,
    base_media_decode_time: u32,
    samples: Seq<Sample>,
    data_offset: u32,
) -> Seq<u8> {
    spec_box(
        TRAF@,
        spec_tfhd(track.id) + spec_tfdt(base_media_decode_time) + spec_trun(data_offset, samples)
            + spec_sdtp(samples),
    )
}

/// The movie fragment number `sn` of `track`, for `samples` that start at
/// `base_media_decode_time`. Its run points at the payload of the media-data
/// box that follows the fragment.
#[verifier::opaque]
pub open spec fn spec_moof(
    sn: u32,
    base_media_decode_time: u32,
    track: Track,
    samples: Seq<Sample>,
) -> Seq<u8> {
    spec_box(
        MOOF@,
        spec_mfhd(sn) + spec_traf(
            track,
            base_media_decode_time,
            samples,
            first_sample_offset(samples.len()) as u32,
        ),
    )
}

/// The media-data box around the samples' bytes.
#[verifier::opaque]
pub open spec fn spec_mdat(data: Seq<u8>) -> Seq<u8> {
    spec_box(MDAT@, data)
}

/// A whole fragment: the movie fragment, then the media-data box with the bytes
/// of its samples.
pub open spec fn spec_fragment(
    sn: u32,
    base_media_decode_time: u32,
    track: Track,
    samples: Seq<Sample>,
    data: Seq<u8>,
) -> Seq<u8> {
    spec_moof(sn, base_media_decode_time, track, samples) + spec_mdat(data)
}

/// The payload of the fragment header of `fragment`.
pub open spec fn fragment_header_of(fragment: Seq<u8>) -> Option<Seq<u8>> {
    find_in(find_box(fragment, MOOF@), MFHD@)
}

/// The payload of the decode-time box of the first track fragment of
/// `fragment`.
pub open spec fn decode_time_of(fragment: Seq<u8>) -> Option<Seq<u8>> {
    find_in(find_in(find_box(fragment, MOOF@), TRAF@), TFDT@)
}

/// The payload of the track run of the first track fragment of `fragment`.
pub open spec fn track_run_of(fragment: Seq<u8>) -> Option<Seq<u8>> {
    find_in(find_in(find_box(fragment, MOOF@), TRAF@), TRUN@)
}

/// The payload of the sample-dependency table of the first track fragment of
/// `fragment`.
pub open spec fn dependency_table_of(fragment: Seq<u8>) -> Option<Seq<u8>> {
    find_in(find_in(find_box(fragment, MOOF@), TRAF@), SDTP@)
}

/// The sequence number that `fragment` declares.
pub open spec fn declared_sequence_number(fragment: Seq<u8>) -> Option<int> {
    match fragment_header_of(fragment) {
        Some(header) => Some(read_be_u32(header, 4)),
        None => None,
    }
}

/// The base media decode time that `fragment` declares.
pub open spec fn declared_base_time(fragment: Seq<u8>) -> Option<int> {
    match decode_time_of(fragment) {
        Some(time) => Some(read_be_u32(time, 4)),
        None => None,
    }
}

/// The number of samples that the track run of `fragment` declares.
pub open spec fn declared_sample_count(fragment: Seq<u8>) -> Option<int> {
    match track_run_of(fragment) {
        Some(run) => Some(read_be_u32(run, 4)),
        None => None,
    }
}

/// The first-sample data offset that the track run of `fragment` declares.
pub open spec fn declared_data_offset(fragment: Seq<u8>) -> Option<int> {
    match track_run_of(fragment) {
        Some(run) => Some(read_be_u32(run, 8)),
        None => None,
    }
}

/// Where the entry of sample `i` starts in the payload of a track run.
pub open spec fn run_entry_at(i: int) -> int {
    12 + i * RUN_ENTRY_LEN
}

/// A track run has sixteen bytes for each sample.
pub proof fn lemma_run_entries_len(samples: Seq<Sample>)
    ensures
        concat(run_entries(samples)).len() == samples.len() * RUN_ENTRY_LEN,
{
    lemma_concat_uniform(run_entries(samples), RUN_ENTRY_LEN as nat);
}

/// The boxes of a movie fragment of `n` samples have the lengths that
/// `trun_len`, `sdtp_len`, `traf_len` and `moof_len` give.
pub proof fn lemma_moof_len(
    sn: u32,
    base_media_decode_time: u32,
    track: Track,
    samples: Seq<Sample>,
    data_offset: u32,
)
    requires
        first_sample_offset(samples.len()) <= u32::MAX,
    ensures
        spec_mfhd(sn).len() == FIELD_BOX_LEN,
        spec_tfhd(track.id).len() == FIELD_BOX_LEN,
        spec_tfdt(base_media_decode_time).len() == FIELD_BOX_LEN,
        trun_payload(data_offset, samples).len() == 12 + samples.len() * RUN_ENTRY_LEN,
        spec_trun(data_offset, samples).len() == trun_len(samples.len()),
        spec_sdtp(samples).len() == sdtp_len(samples.len()),
        spec_traf(track, base_media_decode_time, samples, data_offset).len() == traf_len(
            samples.len(),
        ),
        spec_moof(sn, base_media_decode_time, track, samples).len() == moof_len(samples.len()),
{
    lemma_run_entries_len(samples);
    assert(spec_mfhd(sn).len() == FIELD_BOX_LEN) by {
        reveal(spec_mfhd);
    }
    assert(spec_tfhd(track.id).len() == FIELD_BOX_LEN) by {
        reveal(spec_tfhd);
    }
    assert(spec_tfdt(base_media_decode_time).len() == FIELD_BOX_LEN) by {
        reveal(spec_tfdt);
    }
    assert(spec_trun(data_offset, samples).len() == trun_len(samples.len())) by {
        reveal(spec_trun);
    }
    assert(spec_sdtp(samples).len() == sdtp_len(samples.len())) by {
        reveal(spec_sdtp);
    }
    assert forall|offset: u32| #[trigger]
        spec_traf(track, base_media_decode_time, samples, offset).len() == traf_len(
            samples.len(),
        ) by {
        reveal(spec_traf);
        assert(spec_trun(offset, samples).len() == trun_len(samples.len())) by {
            reveal(spec_trun);
        }
    }
    reveal(spec_moof);
}

/// The boxes of a track fragment are found in its payload, each with the
/// payload it was built from.
pub proof fn lemma_traf_children(
    track: Track,
    base_media_decode_time: u32,
    samples: Seq<Sample>,
    data_offset: u32,
)
    requires
        first_sample_offset(samples.len()) <= u32::MAX,
    ensures
        ({
            let payload = spec_tfhd(track.id) + spec_tfdt(base_media_decode_time) + spec_trun(
                data_offset,
                samples,
            ) + spec_sdtp(samples);
            &&& find_box(payload, TFHD@) == Some(version_flags(0, 0) + be_u32(track.id))
            &&& find_box(payload, TFDT@) == Some(
                version_flags(0, 0) + be_u32(base_media_decode_time),
            )
            &&& find_box(payload, TRUN@) == Some(trun_payload(data_offset, samples))
            &&& find_box(payload, SDTP@) == Some(version_flags(0, 0) + dependency_codes(samples))
        }),
{
    let tfhd = spec_tfhd(track.id);
    let tfdt = spec_tfdt(base_media_decode_time);
    let run = spec_trun(data_offset, samples);
    let table = spec_sdtp(samples);
    let empty = Seq::<u8>::empty();
    let time_payload = version_flags(0, 0) + be_u32(base_media_decode_time);
    let id_payload = version_flags(0, 0) + be_u32(track.id);
    let run_payload = trun_payload(data_offset, samples);
    let table_payload = version_flags(0, 0) + dependency_codes(samples);
    let payload = tfhd + tfdt + run + table;
    let after_tfhd = tfdt + (run + table);
    let after_tfdt = run + table;

    lemma_run_entries_len(samples);
    assert(payload =~= tfhd + after_tfhd);
    assert(tfhd == spec_box(TFHD@, id_payload)) by {
        reveal(spec_tfhd);
    }
    assert(tfdt == spec_box(TFDT@, time_payload)) by {
        reveal(spec_tfdt);
    }
    assert(run == spec_box(TRUN@, run_payload)) by {
        reveal(spec_trun);
    }
    assert(table == spec_box(SDTP@, table_payload)) by {
        reveal(spec_sdtp);
    }
    assert(TFHD@[2] != TFDT@[2] && TFHD@[2] != TRUN@[2] && TFHD@[0] != SDTP@[0]);
    assert(TFDT@[2] != TRUN@[2] && TFDT@[0] != SDTP@[0] && TRUN@[0] != SDTP@[0]);
    assert(run_payload.len() == 12 + samples.len() * RUN_ENTRY_LEN);
    assert(table_payload.len() == 4 + samples.len());

    lemma_find_box_first(TFHD@, id_payload, after_tfhd);

    lemma_find_box_skip(TFHD@, id_payload, after_tfhd, TFDT@);
    lemma_find_box_first(TFDT@, time_payload, after_tfdt);

    lemma_find_box_skip(TFHD@, id_payload, after_tfhd, TRUN@);
    lemma_find_box_skip(TFDT@, time_payload, after_tfdt, TRUN@);
    lemma_find_box_first(TRUN@, run_payload, table);

    lemma_find_box_skip(TFHD@, id_payload, after_tfhd, SDTP@);
    lemma_find_box_skip(TFDT@, time_payload, after_tfdt, SDTP@);
    lemma_find_box_skip(TRUN@, run_payload, table, SDTP@);
    lemma_find_box_first(SDTP@, table_payload, empty);
    assert(table + empty =~= table);
}

/// The boxes of a fragment are found in it: the movie fragment with its header
/// and its track fragment, and the media-data box with the samples' bytes,
/// which start where `first_sample_offset` says.
pub proof fn lemma_fragment_children(
    sn: u32,
    base_media_decode_time: u32,
    track: Track,
    samples: Seq<Sample>,
    data: Seq<u8>,
)
    requires
        first_sample_offset(samples.len()) <= u32::MAX,
        BOX_HEADER_LEN + data.len() <= u32::MAX,
    ensures
        ({
            let fragment = spec_fragment(sn, base_media_decode_time, track, samples, data);
            let offset = first_sample_offset(samples.len()) as int;
            let payload = spec_mfhd(sn) + spec_traf(
                track,
                base_media_decode_time,
                samples,
                offset as u32,
            );
            &&& fragment.len() == offset + data.len()
            &&& find_box(fragment, MOOF@) == Some(payload)
            &&& find_box(fragment, MDAT@) == Some(data)
            &&& fragment.subrange(offset, offset + data.len()) == data
            &&& find_box(payload, MFHD@) == Some(version_flags(0, 0) + be_u32(sn))
            &&& find_box(payload, TRAF@) == Some(
                spec_tfhd(track.id) + spec_tfdt(base_media_decode_time) + spec_trun(
                    offset as u32,
                    samples,
                ) + spec_sdtp(samples),
            )
        }),
{
    let fragment = spec_fragment(sn, base_media_decode_time, track, samples, data);
    let movie_fragment = spec_moof(sn, base_media_decode_time, track, samples);
    let offset = first_sample_offset(samples.len()) as u32;
    let media_data = spec_mdat(data);
    let header = spec_mfhd(sn);
    let track_fragment = spec_traf(track, base_media_decode_time, samples, offset);
    let empty = Seq::<u8>::empty();
    let header_payload = version_flags(0, 0) + be_u32(sn);
    let payload = header + track_fragment;
    let track_payload = spec_tfhd(track.id) + spec_tfdt(base_media_decode_time) + spec_trun(
        offset,
        samples,
    ) + spec_sdtp(samples);

    lemma_moof_len(sn, base_media_decode_time, track, samples, offset);
    assert(movie_fragment == spec_box(MOOF@, payload)) by {
        reveal(spec_moof);
    }
    assert(media_data == spec_box(MDAT@, data)) by {
        reveal(spec_mdat);
    }
    assert(header == spec_box(MFHD@, header_payload)) by {
        reveal(spec_mfhd);
    }
    assert(track_fragment == spec_box(TRAF@, track_payload)) by {
        reveal(spec_traf);
    }
    assert(MOOF@[1] != MDAT@[1] && MFHD@[0] != TRAF@[0]);

    lemma_find_box_first(MOOF@, payload, media_data);

    lemma_find_box_skip(MOOF@, payload, media_data, MDAT@);
    lemma_find_box_first(MDAT@, data, empty);
    assert(media_data + empty =~= media_data);
    assert(fragment.subrange(offset as int, offset + data.len()) =~= data);

    lemma_find_box_first(MFHD@, header_payload, track_fragment);

    lemma_find_box_skip(MFHD@, header_payload, track_fragment, TRAF@);
    lemma_find_box_first(TRAF@, track_payload, empty);
    assert(track_fragment + empty =~= track_fragment);
}

/// Read as a run of boxes, a fragment declares the sequence number and the
/// base media decode time that it was built with, and the number of its
/// samples. The data offset of its run is the length of the movie fragment and
/// of the header of the media-data box: counted from the first byte of the
/// fragment, it is where the samples' bytes start.
pub proof fn lemma_fragment_layout(
    sn: u32,
    base_media_decode_time: u32,
    track: Track,
    samples: Seq<Sample>,
    data: Seq<u8>,
)
    requires
        first_sample_offset(samples.len()) <= u32::MAX,
        BOX_HEADER_LEN + data.len() <= u32::MAX,
    ensures
        ({
            let fragment = spec_fragment(sn, base_media_decode_time, track, samples, data);
            let movie_fragment = spec_moof(sn, base_media_decode_time, track, samples);
            let offset = first_sample_offset(samples.len()) as int;
            &&& movie_fragment.len() == moof_len(samples.len())
            &&& fragment.len() == offset + data.len()
            &&& declared_sequence_number(fragment) == Some(sn as int)
            &&& declared_base_time(fragment) == Some(base_media_decode_time as int)
            &&& declared_sample_count(fragment) == Some(samples.len() as int)
            &&& declared_data_offset(fragment) == Some(movie_fragment.len() + BOX_HEADER_LEN)
            &&& track_run_of(fragment) == Some(trun_payload(offset as u32, samples))
            &&& dependency_table_of(fragment) == Some(
                version_flags(0, 0) + dependency_codes(samples),
            )
            &&& find_box(fragment, MDAT@) == Some(data)
            &&& fragment.subrange(offset, offset + data.len()) == data
        }),
{
    let offset = first_sample_offset(samples.len()) as u32;
    let header_payload = version_flags(0, 0) + be_u32(sn);
    let time_payload = version_flags(0, 0) + be_u32(base_media_decode_time);
    let run_payload = trun_payload(offset, samples);
    lemma_moof_len(sn, base_media_decode_time, track, samples, offset);
    lemma_fragment_children(sn, base_media_decode_time, track, samples, data);
    lemma_traf_children(track, base_media_decode_time, samples, offset);
    assert(read_be_u32(header_payload, 4) == sn) by {
        assert(header_payload.subrange(4, 8) =~= be_u32(sn));
        lemma_read_be_u32_at(header_payload, 4, sn);
    }
    assert(read_be_u32(time_payload, 4) == base_media_decode_time) by {
        assert(time_payload.subrange(4, 8) =~= be_u32(base_media_decode_time));
        lemma_read_be_u32_at(time_payload, 4, base_media_decode_time);
    }
    assert(read_be_u32(run_payload, 4) == samples.len() && read_be_u32(run_payload, 8) == offset)
        by {
        lemma_run_fixed_fields(offset, samples);
    }
}

/// The payload of a track run starts with version and flags, the number of
/// its samples and the data offset.
pub proof fn lemma_run_fixed_fields(data_offset: u32, samples: Seq<Sample>)
    requires
        samples.len() <= u32::MAX,
    ensures
        trun_payload(data_offset, samples).len() == 12 + samples.len() * RUN_ENTRY_LEN,
        trun_payload(data_offset, samples).subrange(0, 4) == version_flags(0, RUN_FLAGS),
        read_be_u32(trun_payload(data_offset, samples), 4) == samples.len(),
        read_be_u32(trun_payload(data_offset, samples), 8) == data_offset,
{
    let run = trun_payload(data_offset, samples);
    lemma_run_entries_len(samples);
    assert(run.subrange(0, 4) =~= version_flags(0, RUN_FLAGS));
    assert(run.subrange(4, 8) =~= be_u32(samples.len() as u32));
    assert(run.subrange(8, 12) =~= be_u32(data_offset));
    lemma_read_be_u32_at(run, 4, samples.len() as u32);
    lemma_read_be_u32_at(run, 8, data_offset);
}

/// One entry of a track run has sixteen bytes: duration, size, packed flags
/// and composition-time offset, four bytes each.
pub proof fn lemma_entry_fields(sample: Sample)
    ensures
        run_entry(sample).len() == RUN_ENTRY_LEN,
        read_be_u32(run_entry(sample), 0) == sample.duration,
        read_be_u32(run_entry(sample), 4) == sample.size,
        run_entry(sample).subrange(8, 12) == sample.flags.word_code(),
        read_be_u32(run_entry(sample), 12) == sample.cts,
{
    let entry = run_entry(sample);
    assert(sample.flags.word_code().len() == 4);
    assert(entry.len() == 16);
    assert(entry.subrange(0, 4) =~= be_u32(sample.duration));
    assert(entry.subrange(4, 8) =~= be_u32(sample.size));
    assert(entry.subrange(8, 12) =~= sample.flags.word_code());
    assert(entry.subrange(12, 16) =~= be_u32(sample.cts));
    lemma_read_be_u32_at(entry, 0, sample.duration);
    lemma_read_be_u32_at(entry, 4, sample.size);
    lemma_read_be_u32_at(entry, 12, sample.cts);
}

/// Byte `k` of the entry of sample `i` stands at `run_entry_at(i) + k` in the
/// payload of the track run.
pub proof fn lemma_run_entry_byte(data_offset: u32, samples: Seq<Sample>, i: int, k: int)
    requires
        0 <= i < samples.len(),
        0 <= k < RUN_ENTRY_LEN,
    ensures
        12 <= run_entry_at(i) + k < trun_payload(data_offset, samples).len(),
        trun_payload(data_offset, samples)[run_entry_at(i) + k] == run_entry(samples[i])[k],
{
    let entries = run_entries(samples);
    let fixed = version_flags(0, RUN_FLAGS) + be_u32(samples.len() as u32) + be_u32(data_offset);
    assert(fixed.len() == 12);
    assert(entries[i] == run_entry(samples[i]));
    lemma_concat_uniform_index(entries, RUN_ENTRY_LEN as nat, i, k);
    assert(trun_payload(data_offset, samples) == fixed + concat(entries));
}

/// Entry `i` of a track run gives the duration, the size, the packed flags and
/// the composition-time offset of sample `i`.
pub proof fn lemma_run_entry_fields(data_offset: u32, samples: Seq<Sample>, i: int)
    requires
        0 <= i < samples.len(),
    ensures
        ({
            let run = trun_payload(data_offset, samples);
            let at = run_entry_at(i);
            &&& 12 <= at
            &&& at + RUN_ENTRY_LEN <= run.len()
            &&& read_be_u32(run, at) == samples[i].duration
            &&& read_be_u32(run, at + 4) == samples[i].size
            &&& run.subrange(at + 8, at + 12) == samples[i].flags.word_code()
            &&& read_be_u32(run, at + 12) == samples[i].cts
        }),
{
    let run = trun_payload(data_offset, samples);
    let entry = run_entry(samples[i]);
    let at = run_entry_at(i);
    lemma_entry_fields(samples[i]);
    assert forall|k: int| 0 <= k < 16 implies at + k < run.len() && run[at + k] == #[trigger] entry[k] by {
        lemma_run_entry_byte(data_offset, samples, i, k);
    }
    assert(run[at] == entry[0] && run[at + 1] == entry[1] && run[at + 2] == entry[2] && run[at + 3]
        == entry[3]);
    assert(run[at + 4] == entry[4] && run[at + 5] == entry[5] && run[at + 6] == entry[6] && run[at
        + 7] == entry[7]);
    assert(run[at + 12] == entry[12] && run[at + 13] == entry[13] && run[at + 14] == entry[14]
        && run[at + 15] == entry[15]);
    assert(at + 15 < run.len()) by {
        lemma_run_entry_byte(data_offset, samples, i, 15);
    }
    assert(run.subrange(at + 8, at + 12) =~= entry.subrange(8, 12)) by {
        assert(run[at + 8] == entry[8] && run[at + 9] == entry[9] && run[at + 10] == entry[10]
            && run[at + 11] == entry[11]);
    }
}

/// Builds a box of version 0 and no flags around one 32-bit field.
fn field_box(box_type: &[u8; 4], value: u32) -> (out: Vec<u8>)
    ensures
        out@ == spec_box(box_type@, version_flags(0, 0) + be_u32(value)),
        out@.len() == FIELD_BOX_LEN,
        read_be_u32(out@, 0) == out@.len(),
{
    let mut bytes: Vec<u8> = Vec::new();
    put_version_flags(&mut bytes, 0, 0);
    put_u32(&mut bytes, value);
    assert(bytes@ =~= version_flags(0, 0) + be_u32(value));
    let parts: Vec<&[u8]> = vec![bytes.as_slice()];
    proof {
        lemma_concat_1(bytes@);
        assert(views(parts@) =~= seq![bytes@]);
    }
    mp4_box(box_type, parts)
}

/// Builds the movie fragment number `sn` of `track` for the batch `samples`,
/// whose first sample is decoded at `base_media_decode_time`.
///
/// An empty batch is refused.
pub fn moof(sn: u32, base_media_decode_time: u32, track: &Track, samples: &[Sample]) -> (out:
    Result<Vec<u8>, FragmentError>)
    requires
        first_sample_offset(samples@.len()) <= u32::MAX,
    ensures
        samples@.len() == 0 <==> out == Err::<Vec<u8>, FragmentError>(FragmentError::NoSamples),
        samples@.len() > 0 <==> out is Ok,
        out is Ok ==> out->Ok_0@ == spec_moof(sn, base_media_decode_time, *track, samples@),
        out is Ok ==> out->Ok_0@.len() == moof_len(samples@.len()),
        out is Ok ==> read_be_u32(out->Ok_0@, 0) == out->Ok_0@.len(),
{
    proof {
        reveal(spec_moof);
    }
    if samples.len() == 0 {
        return Err(FragmentError::NoSamples);
    }
    let header = mfhd(sn);
    let lead: u32 = BOX_HEADER_LEN + header.len() as u32;
    let fragment = traf(track, base_media_decode_time, samples, lead);
    let parts: Vec<&[u8]> = vec![header.as_slice(), fragment.as_slice()];
    proof {
        lemma_concat_2(header@, fragment@);
        assert(views(parts@) =~= seq![header@, fragment@]);
    }
    Ok(mp4_box(&MOOF, parts))
}

/// Builds the media-data box around `data`.
pub fn mdat(data: &[u8]) -> (out: Vec<u8>)
    requires
        BOX_HEADER_LEN + data@.len() <= u32::MAX,
    ensures
        out@ == spec_mdat(data@),
        out@.len() == BOX_HEADER_LEN + data@.len(),
        read_be_u32(out@, 0) == out@.len(),
{
    proof {
        reveal(spec_mdat);
    }
    let parts: Vec<&[u8]> = vec![data];
    proof {
        lemma_concat_1(data@);
        assert(views(parts@) =~= seq![data@]);
    }
    mp4_box(&MDAT, parts)
}

/// Builds the fragment header.
pub fn mfhd(sn: u32) -> (out: Vec<u8>)
    ensures
        out@ == spec_mfhd(sn),
        out@.len() == FIELD_BOX_LEN,
        read_be_u32(out@, 0) == out@.len(),
{
    proof {
        reveal(spec_mfhd);
    }
    field_box(&MFHD, sn)
}

/// Builds the track fragment of `track` for `samples`. `lead` counts the bytes
/// of the movie fragment that come before this box; every length that goes
/// into the run's data offset is measured on the box it belongs to.
pub fn traf(track: &Track, base_media_decode_time: u32, samples: &[Sample], lead: u32) -> (out:
    Vec<u8>)
    requires
        lead + traf_len(samples@.len()) + BOX_HEADER_LEN <= u32::MAX,
    ensures
        out@ == spec_traf(
            *track,
            base_media_decode_time,
            samples@,
            (lead + traf_len(samples@.len()) + BOX_HEADER_LEN) as u32,
        ),
        out@.len() == traf_len(samples@.len()),
        read_be_u32(out@, 0) == out@.len(),
{
    proof {
        reveal(spec_traf);
        reveal(spec_tfhd);
        reveal(spec_tfdt);
    }
    let sample_dependency_table = sdtp(samples);
    let tfhd = field_box(&TFHD, track.id);
    let tfdt = field_box(&TFDT, base_media_decode_time);
    let offset: u32 = lead + BOX_HEADER_LEN + tfhd.len() as u32 + tfdt.len() as u32
        + sample_dependency_table.len() as u32 + BOX_HEADER_LEN;
    let trun = trun(track, offset, samples);
    let parts: Vec<&[u8]> = vec![
        tfhd.as_slice(),
        tfdt.as_slice(),
        trun.as_slice(),
        sample_dependency_table.as_slice(),
    ];
    proof {
        lemma_concat_4(tfhd@, tfdt@, trun@, sample_dependency_table@);
        assert(views(parts@) =~= seq![tfhd@, tfdt@, trun@, sample_dependency_table@]);
    }
    mp4_box(&TRAF, parts)
}

/// Builds the track run of `samples`. `offset` counts every byte between the
/// start of the movie fragment and the first byte of sample data but those of
/// the run itself.
pub fn trun(_track: &Track, offset: u32, samples: &[Sample]) -> (out: Vec<u8>)
    requires
        offset + trun_len(samples@.len()) <= u32::MAX,
    ensures
        out@ == spec_trun((offset + trun_len(samples@.len())) as u32, samples@),
        out@.len() == trun_len(samples@.len()),
        read_be_u32(out@, 0) == out@.len(),
{
    proof {
        reveal(spec_trun);
    }
    let sample_count: u32 = samples.len() as u32;
    let data_offset: u32 = offset + 8 + 12 + 16 * sample_count;

    let mut buffer: Vec<u8> = Vec::new();
    put_version_flags(&mut buffer, 0, RUN_FLAGS);
    put_u32(&mut buffer, sample_count);
    put_u32(&mut buffer, data_offset);
    let ghost fixed = buffer@;
    let ghost entries = run_entries(samples@);
    assert(fixed =~= version_flags(0, RUN_FLAGS) + be_u32(sample_count) + be_u32(data_offset));

    let mut i: usize = 0;
    while i < samples.len()
        invariant
            i <= samples.len(),
            entries == run_entries(samples@),
            buffer@ == fixed + concat(entries.take(i as int)),
        decreases samples.len() - i,
    {
        let s = &samples[i];
        let flags = s.flags.as_four_byte();
        proof {
            lemma_concat_take(entries, i as int);
        }
        let ghost before = buffer@;
        put_u32(&mut buffer, s.duration);
        put_u32(&mut buffer, s.size);
        put_bytes(&mut buffer, flags.as_slice());
        put_u32(&mut buffer, s.cts);
        i += 1;
        assert(buffer@ =~= before + run_entry(samples@[i - 1]));
        assert(buffer@ =~= fixed + concat(entries.take(i as int)));
    }
    assert(entries.take(i as int) =~= entries);
    proof {
        lemma_run_entries_len(samples@);
    }
    let parts: Vec<&[u8]> = vec![buffer.as_slice()];
    proof {
        lemma_concat_1(buffer@);
        assert(views(parts@) =~= seq![buffer@]);
    }
    mp4_box(&TRUN, parts)
}

/// Builds the sample-dependency table of `samples`.
pub fn sdtp(samples: &[Sample]) -> (out: Vec<u8>)
    requires
        sdtp_len(samples@.len()) <= u32::MAX,
    ensures
        out@ == spec_sdtp(samples@),
        out@.len() == sdtp_len(samples@.len()),
        read_be_u32(out@, 0) == out@.len(),
{
    proof {
        reveal(spec_sdtp);
    }
    let mut buffer: Vec<u8> = Vec::new();
    put_version_flags(&mut buffer, 0, 0);
    let mut i: usize = 0;
    while i < samples.len()
        invariant
            i <= samples.len(),
            buffer@ == version_flags(0, 0) + dependency_codes(samples@).take(i as int),
        decreases samples.len() - i,
    {
        buffer.push(samples[i].flags.as_byte());
        i += 1;
        assert(buffer@ =~= version_flags(0, 0) + dependency_codes(samples@).take(i as int));
    }
    assert(dependency_codes(samples@).take(i as int) =~= dependency_codes(samples@));
    let parts: Vec<&[u8]> = vec![buffer.as_slice()];
    proof {
        lemma_concat_1(buffer@);
        assert(views(parts@) =~= seq![buffer@]);
    }
    mp4_box(&SDTP, parts)
}

} // verus!
