//! The initialization segment: the file-type box and the movie box, which
//! describes the track's geometry, timing and codec once, before any fragment.

use vstd::prelude::*;
use crate::boxes::{concat, contents, lemma_concat_1, lemma_concat_2, lemma_concat_3,
    lemma_concat_4, lemma_concat_5, lemma_concat_append, lemma_concat_push, lemma_concat_uniform,
    mp4_box, push_all, spec_box, views, BOX_HEADER_LEN};
use crate::boxes::{find_box, find_in, lemma_find_box_first, lemma_find_box_skip};
use crate::endian::{be_u16, be_u32, lemma_read_be_u16_at, lemma_read_be_u32_at, put_bytes,
    put_u16, put_u32, put_version_flags, put_zeros, read_be_u16, read_be_u32, version_flags,
    zeros};
use crate::sample::{word_depends_on, word_is_non_sync, Flags, Sample};
use crate::tags::{DINF, DREF, FTYP, HANDLER_NAME, HDLR, ISOM, MDHD, MDIA, MINF, MOOV, MVEX, MVHD,
    STBL, STCO, STSC, STSD, STSZ, STTS, TKHD, TRAK, TREX, URL, VIDE, VMHD, VP09, VPCC};
use crate::track::Track;

verus! {

/// The transformation matrix that leaves the picture as it is: 1.0, 1.0 and 1.0
/// on the diagonal, in 16.16 and 2.30 fixed point.
pub open spec fn unity_matrix() -> Seq<u8> {
    be_u32(0x0001_0000) + zeros(12) + be_u32(0x0001_0000) + zeros(12) + be_u32(0x4000_0000)
}

/// The file-type box: primary brand `isom`, minor version 1, compatible with
/// `isom` and `vp09`.
#[verifier::opaque]
pub open spec fn spec_ftyp() -> Seq<u8> {
    spec_box(FTYP@, ISOM@ + be_u32(1) + ISOM@ + VP09@)
}

/// Payload of the movie header.
pub open spec fn mvhd_payload(timescale: u32, duration: u32) -> Seq<u8> {
    version_flags(0, 0)
        + be_u32(1)  // creation time
        + be_u32(2)  // modification time
        + be_u32(timescale)
        + be_u32(duration)
        + be_u32(0x0001_0000)  // rate 1.0
        + be_u16(0x0100)  // volume 1.0
        + zeros(10)  // reserved
        + unity_matrix()
        + zeros(24)  // pre-defined
        + be_u32(0xffff_ffff)  // next track id
}

/// The movie header.
#[verifier::opaque]
pub open spec fn spec_mvhd(timescale: u32, duration: u32) -> Seq<u8> {
    spec_box(MVHD@, mvhd_payload(timescale, duration))
}

/// Payload of the track header. Width and height are 16.16 fixed-point numbers
/// with no fraction; of the volume the low byte is written as the whole part.
pub open spec fn tkhd_payload(track: Track) -> Seq<u8> {
    version_flags(0, 7)  // enabled, in movie, in preview
        + be_u32(0)  // creation time
        + be_u32(0)  // modification time
        + be_u32(track.id)
        + zeros(4)  // reserved
        + be_u32(track.duration)
        + zeros(8)  // reserved
        + be_u16(0)  // layer
        + be_u16(0)  // alternate group
        + seq![(track.volume % 0x100) as u8, 0u8]
        + zeros(2)  // reserved
        + unity_matrix()
        + be_u16(track.width) + zeros(2)
        + be_u16(track.height) + zeros(2)
}

/// The track header.
#[verifier::opaque]
pub open spec fn spec_tkhd(track: Track) -> Seq<u8> {
    spec_box(TKHD@, tkhd_payload(track))
}

/// Payload of the media header; the language is `und`, undetermined.
pub open spec fn mdhd_payload(timescale: u32, duration: u32) -> Seq<u8> {
    version_flags(0, 0)
        + be_u32(2)  // creation time
        + be_u32(3)  // modification time
        + be_u32(timescale)
        + be_u32(duration)
        + be_u16(0x55c4)  // language
        + be_u16(0)  // pre-defined
}

/// The media header.
#[verifier::opaque]
pub open spec fn spec_mdhd(timescale: u32, duration: u32) -> Seq<u8> {
    spec_box(MDHD@, mdhd_payload(timescale, duration))
}

/// The handler declaration: a video track.
#[verifier::opaque]
pub open spec fn spec_hdlr() -> Seq<u8> {
    spec_box(
        HDLR@,
        version_flags(0, 0)
            + be_u32(0)  // pre-defined
            + VIDE@
            + zeros(12)  // reserved
            + HANDLER_NAME@,
    )
}

/// The video media header: copy mode, black.
#[verifier::opaque]
pub open spec fn spec_vmhd() -> Seq<u8> {
    spec_box(VMHD@, version_flags(0, 1) + zeros(8))
}

/// The data information: one reference, to this same file.
#[verifier::opaque]
pub open spec fn spec_dinf() -> Seq<u8> {
    spec_box(
        DINF@,
        spec_box(DREF@, version_flags(0, 0) + be_u32(1) + spec_box(URL@, version_flags(0, 1))),
    )
}

/// The VP9 codec configuration: profile 0, level 3.1, eight bits, 4:2:0,
/// unspecified colour, and no initialization data.
#[verifier::opaque]
pub open spec fn spec_vpcc() -> Seq<u8> {
    spec_box(
        VPCC@,
        version_flags(1, 0)
            + seq![
                0x00u8,  // profile
                0x1fu8,  // level
                0x80u8,  // bit depth, chroma subsampling, full-range flag
                0x02u8,  // colour primaries
                0x02u8,  // transfer characteristics
                0x02u8,  // matrix coefficients
            ]
            + be_u16(0),  // size of the codec initialization data
    )
}

/// Fixed fields of the VP9 sample entry, before the codec configuration.
pub open spec fn vp09_fields(width: u16, height: u16) -> Seq<u8> {
    version_flags(1, 0)
        + zeros(2)
        + be_u16(1)  // data reference index
        + zeros(16)  // reserved
        + be_u16(width)
        + be_u16(height)
        + be_u32(0x0048_0000)  // horizontal resolution, 72 dpi
        + be_u32(0x0048_0000)  // vertical resolution, 72 dpi
        + zeros(4)  // reserved
        + zeros(32)  // compressor name
        + be_u16(1)  // frame count
        + be_u16(0x0018)  // depth
        + be_u16(0xffff)
}

/// The VP9 sample entry.
#[verifier::opaque]
pub open spec fn spec_vp09(width: u16, height: u16) -> Seq<u8> {
    spec_box(VP09@, vp09_fields(width, height) + spec_vpcc())
}

/// The sample descriptions: one entry, the VP9 sample entry.
#[verifier::opaque]
pub open spec fn spec_stsd(track: Track) -> Seq<u8> {
    spec_box(STSD@, version_flags(0, 0) + be_u32(1) + spec_vp09(track.width, track.height))
}

/// The sample table: the sample description, and the four tables that a
/// fragmented file leaves empty.
#[verifier::opaque]
pub open spec fn spec_stbl(track: Track) -> Seq<u8> {
    spec_box(
        STBL@,
        spec_stsd(track)
            + spec_box(STTS@, zeros(8))
            + spec_box(STSC@, zeros(8))
            + spec_box(STSZ@, zeros(12))
            + spec_box(STCO@, zeros(8)),
    )
}

/// The media information.
#[verifier::opaque]
pub open spec fn spec_minf(track: Track) -> Seq<u8> {
    spec_box(MINF@, spec_vmhd() + spec_dinf() + spec_stbl(track))
}

/// The media box.
#[verifier::opaque]
pub open spec fn spec_mdia(track: Track) -> Seq<u8> {
    spec_box(MDIA@, spec_mdhd(track.timescale, track.duration) + spec_hdlr() + spec_minf(track))
}

/// The track box.
#[verifier::opaque]
pub open spec fn spec_trak(track: Track) -> Seq<u8> {
    spec_box(TRAK@, spec_tkhd(track) + spec_mdia(track))
}

/// The sample flags that a fragment falls back on: those of a key frame, a
/// sync sample that depends on no other, in their four-byte form.
pub open spec fn default_sample_flags() -> Seq<u8> {
    Flags::of_frame(true).word_code()
}

/// Payload of the fragment defaults of one track: sample description 1, no
/// default duration or size, and the default sample flags.
pub open spec fn trex_payload(track: Track) -> Seq<u8> {
    version_flags(0, 0)
        + be_u32(track.id)
        + be_u32(1)  // default sample description index
        + be_u32(0)  // default sample duration: none, each sample gives its own
        + be_u32(0)  // default sample size: none, each sample gives its own
        + default_sample_flags()
}

/// The fragment defaults of one track.
#[verifier::opaque]
pub open spec fn spec_trex(track: Track) -> Seq<u8> {
    spec_box(TREX@, trex_payload(track))
}

/// The track box of each track, in order.
pub open spec fn spec_traks(tracks: Seq<Track>) -> Seq<Seq<u8>> {
    Seq::new(tracks.len(), |i: int| spec_trak(tracks[i]))
}

/// The fragment defaults of each track, in order.
pub open spec fn spec_trexes(tracks: Seq<Track>) -> Seq<Seq<u8>> {
    Seq::new(tracks.len(), |i: int| spec_trex(tracks[i]))
}

/// The movie-extends box.
#[verifier::opaque]
pub open spec fn spec_mvex(tracks: Seq<Track>) -> Seq<u8> {
    spec_box(MVEX@, concat(spec_trexes(tracks)))
}

/// The movie box: the movie header, one track box per track, and the
/// movie-extends box.
#[verifier::opaque]
pub open spec fn spec_moov(tracks: Seq<Track>, duration: u32, timescale: u32) -> Seq<u8> {
    spec_box(
        MOOV@,
        spec_mvhd(timescale, duration) + concat(spec_traks(tracks)) + spec_mvex(tracks),
    )
}

/// The initialization segment of a stream of one track: the file-type box,
/// then the movie box. The movie runs on the track's timescale and declares one
/// second of the default timescale as its duration.
pub open spec fn spec_init_segment(track: Track) -> Seq<u8> {
    spec_ftyp() + spec_moov(seq![track], Track::DEFAULT_TIMESCALE, track.timescale)
}

/// Bytes of the file-type box.
pub const FTYP_LEN: u32 = 24;

/// Bytes of one track box, whatever the track.
pub const TRAK_LEN: u32 = 447;

/// Bytes of one track's fragment defaults.
pub const TREX_LEN: u32 = 32;

/// Bytes of the movie header.
pub const MVHD_LEN: u32 = 108;

/// Bytes of a movie box that describes `tracks` tracks.
pub open spec fn moov_len(tracks: nat) -> nat {
    BOX_HEADER_LEN as nat + MVHD_LEN as nat + tracks * (TRAK_LEN as nat) + BOX_HEADER_LEN as nat
        + tracks * (TREX_LEN as nat)
}

/// The payload of the track header of the first track that the initialization
/// segment `init` describes.
pub open spec fn track_header_of(init: Seq<u8>) -> Option<Seq<u8>> {
    find_in(find_in(find_box(init, MOOV@), TRAK@), TKHD@)
}

/// The payload of the media header of the first track that the initialization
/// segment `init` describes.
pub open spec fn media_header_of(init: Seq<u8>) -> Option<Seq<u8>> {
    find_in(find_in(find_in(find_box(init, MOOV@), TRAK@), MDIA@), MDHD@)
}

/// The frame width that `init` declares for its first track: the whole part of
/// the track header's width.
pub open spec fn declared_width(init: Seq<u8>) -> Option<int> {
    match track_header_of(init) {
        Some(header) => Some(read_be_u16(header, 76)),
        None => None,
    }
}

/// The frame height that `init` declares for its first track: the whole part
/// of the track header's height.
pub open spec fn declared_height(init: Seq<u8>) -> Option<int> {
    match track_header_of(init) {
        Some(header) => Some(read_be_u16(header, 80)),
        None => None,
    }
}

/// The sample duration that `init` declares for its first track.
pub open spec fn declared_duration(init: Seq<u8>) -> Option<int> {
    match track_header_of(init) {
        Some(header) => Some(read_be_u32(header, 20)),
        None => None,
    }
}

/// The timescale that `init` declares for its first track.
pub open spec fn declared_timescale(init: Seq<u8>) -> Option<int> {
    match media_header_of(init) {
        Some(header) => Some(read_be_u32(header, 12)),
        None => None,
    }
}

/// The track header has 92 bytes.
pub proof fn lemma_tkhd_len(track: Track)
    ensures
        tkhd_payload(track).len() == 84,
        spec_tkhd(track).len() == 92,
{
    reveal(spec_tkhd);
}

/// The media header has 32 bytes.
pub proof fn lemma_mdhd_len(timescale: u32, duration: u32)
    ensures
        mdhd_payload(timescale, duration).len() == 24,
        spec_mdhd(timescale, duration).len() == 32,
{
    reveal(spec_mdhd);
}

/// The sample table has 198 bytes.
pub proof fn lemma_stbl_len(track: Track)
    ensures
        spec_vpcc().len() == 20,
        spec_vp09(track.width, track.height).len() == 106,
        spec_stsd(track).len() == 122,
        spec_stbl(track).len() == 198,
{
    assert(spec_vpcc().len() == 20) by {
        reveal(spec_vpcc);
    }
    assert(spec_vp09(track.width, track.height).len() == 106) by {
        reveal(spec_vp09);
    }
    assert(spec_stsd(track).len() == 122) by {
        reveal(spec_stsd);
    }
    assert(spec_stbl(track).len() == 198) by {
        reveal(spec_stbl);
    }
}

/// The media information has 262 bytes.
pub proof fn lemma_minf_len(track: Track)
    ensures
        spec_minf(track).len() == 262,
{
    lemma_stbl_len(track);
    assert(spec_vmhd().len() == 20) by {
        reveal(spec_vmhd);
    }
    assert(spec_dinf().len() == 36) by {
        reveal(spec_dinf);
    }
    reveal(spec_minf);
}

/// The media box has 347 bytes and the track box 447.
pub proof fn lemma_trak_len(track: Track)
    ensures
        spec_mdia(track).len() == 347,
        spec_trak(track).len() == TRAK_LEN,
{
    lemma_tkhd_len(track);
    lemma_mdhd_len(track.timescale, track.duration);
    lemma_minf_len(track);
    assert(spec_hdlr().len() == 45) by {
        reveal(spec_hdlr);
    }
    assert(spec_mdia(track).len() == 347) by {
        reveal(spec_mdia);
    }
    reveal(spec_trak);
}

/// The movie box of `tracks` has `moov_len` bytes.
pub proof fn lemma_moov_len(tracks: Seq<Track>, duration: u32, timescale: u32)
    ensures
        concat(spec_traks(tracks)).len() == tracks.len() * TRAK_LEN,
        spec_mvex(tracks).len() == BOX_HEADER_LEN + tracks.len() * TREX_LEN,
        spec_mvhd(timescale, duration).len() == MVHD_LEN,
        spec_moov(tracks, duration, timescale).len() == moov_len(tracks.len()),
{
    assert forall|i: int| 0 <= i < tracks.len() implies (#[trigger] spec_traks(tracks)[i]).len()
        == TRAK_LEN by {
        lemma_trak_len(tracks[i]);
    }
    lemma_concat_uniform(spec_traks(tracks), TRAK_LEN as nat);
    assert forall|i: int| 0 <= i < tracks.len() implies (#[trigger] spec_trexes(tracks)[i]).len()
        == TREX_LEN by {
        reveal(spec_trex);
    }
    lemma_concat_uniform(spec_trexes(tracks), TREX_LEN as nat);
    assert(spec_mvex(tracks).len() == BOX_HEADER_LEN + tracks.len() * TREX_LEN) by {
        reveal(spec_mvex);
    }
    assert(spec_mvhd(timescale, duration).len() == MVHD_LEN) by {
        reveal(spec_mvhd);
    }
    reveal(spec_moov);
}

/// The movie box is found in the initialization segment, after the file-type
/// box, and the track box in the movie box, after the movie header.
pub proof fn lemma_init_segment_children(track: Track)
    ensures
        spec_init_segment(track).len() == FTYP_LEN + moov_len(1),
        find_in(find_box(spec_init_segment(track), MOOV@), TRAK@) == Some(
            spec_tkhd(track) + spec_mdia(track),
        ),
{
    let init = spec_init_segment(track);
    let tracks = seq![track];
    let duration = Track::DEFAULT_TIMESCALE;
    let timescale = track.timescale;
    let file_type = spec_ftyp();
    let movie = spec_moov(tracks, duration, timescale);
    let movie_header = spec_mvhd(timescale, duration);
    let extends = spec_mvex(tracks);
    let trak = spec_trak(track);
    let file_type_payload = ISOM@ + be_u32(1) + ISOM@ + VP09@;
    let movie_payload = movie_header + concat(spec_traks(tracks)) + extends;
    let trak_payload = spec_tkhd(track) + spec_mdia(track);
    let empty = Seq::<u8>::empty();

    lemma_moov_len(tracks, duration, timescale);
    lemma_trak_len(track);
    assert(spec_traks(tracks) =~= seq![trak]);
    lemma_concat_1(trak);
    assert(file_type == spec_box(FTYP@, file_type_payload)) by {
        reveal(spec_ftyp);
    }
    assert(movie == spec_box(MOOV@, movie_payload)) by {
        reveal(spec_moov);
    }
    assert(movie_header == spec_box(MVHD@, mvhd_payload(timescale, duration))) by {
        reveal(spec_mvhd);
    }
    assert(trak == spec_box(TRAK@, trak_payload)) by {
        reveal(spec_trak);
    }
    assert(FTYP@[0] != MOOV@[0] && MVHD@[0] != TRAK@[0]);
    assert(file_type_payload.len() == 16);

    lemma_find_box_skip(FTYP@, file_type_payload, movie, MOOV@);
    lemma_find_box_first(MOOV@, movie_payload, empty);
    assert(movie + empty =~= movie);

    assert(movie_payload =~= movie_header + (trak + extends));
    lemma_find_box_skip(MVHD@, mvhd_payload(timescale, duration), trak + extends, TRAK@);
    lemma_find_box_first(TRAK@, trak_payload, extends);
}

/// The track header is the first box of a track box; the media box follows
/// it and starts with the media header.
pub proof fn lemma_trak_children(track: Track)
    ensures
        find_box(spec_tkhd(track) + spec_mdia(track), TKHD@) == Some(tkhd_payload(track)),
        find_in(find_box(spec_tkhd(track) + spec_mdia(track), MDIA@), MDHD@) == Some(
            mdhd_payload(track.timescale, track.duration),
        ),
{
    let track_header = spec_tkhd(track);
    let media = spec_mdia(track);
    let media_header = spec_mdhd(track.timescale, track.duration);
    let media_header_payload = mdhd_payload(track.timescale, track.duration);
    let media_rest = spec_hdlr() + spec_minf(track);
    let media_payload = media_header + spec_hdlr() + spec_minf(track);
    let empty = Seq::<u8>::empty();

    lemma_trak_len(track);
    lemma_tkhd_len(track);
    lemma_mdhd_len(track.timescale, track.duration);
    assert(track_header == spec_box(TKHD@, tkhd_payload(track))) by {
        reveal(spec_tkhd);
    }
    assert(media == spec_box(MDIA@, media_payload)) by {
        reveal(spec_mdia);
    }
    assert(media_header == spec_box(MDHD@, media_header_payload)) by {
        reveal(spec_mdhd);
    }
    assert(TKHD@[1] != MDIA@[1]);

    lemma_find_box_first(TKHD@, tkhd_payload(track), media);

    lemma_find_box_skip(TKHD@, tkhd_payload(track), media, MDIA@);
    lemma_find_box_first(MDIA@, media_payload, empty);
    assert(media + empty =~= media);

    assert(media_payload =~= media_header + media_rest);
    lemma_find_box_first(MDHD@, media_header_payload, media_rest);
}

/// The fields of the track header and of the media header that describe the
/// track stand where the format puts them.
pub proof fn lemma_header_fields(track: Track)
    ensures
        read_be_u32(tkhd_payload(track), 12) == track.id,
        read_be_u32(tkhd_payload(track), 20) == track.duration,
        read_be_u16(tkhd_payload(track), 76) == track.width,
        read_be_u16(tkhd_payload(track), 80) == track.height,
        read_be_u32(mdhd_payload(track.timescale, track.duration), 12) == track.timescale,
        read_be_u32(mdhd_payload(track.timescale, track.duration), 16) == track.duration,
{
    let header = tkhd_payload(track);
    let media = mdhd_payload(track.timescale, track.duration);
    assert(header.len() == 84 && media.len() == 24);
    assert(header.subrange(12, 16) =~= be_u32(track.id));
    assert(header.subrange(20, 24) =~= be_u32(track.duration));
    assert(header.subrange(76, 78) =~= be_u16(track.width));
    assert(header.subrange(80, 82) =~= be_u16(track.height));
    assert(media.subrange(12, 16) =~= be_u32(track.timescale));
    assert(media.subrange(16, 20) =~= be_u32(track.duration));
    lemma_read_be_u32_at(header, 12, track.id);
    lemma_read_be_u32_at(header, 20, track.duration);
    lemma_read_be_u16_at(header, 76, track.width);
    lemma_read_be_u16_at(header, 80, track.height);
    lemma_read_be_u32_at(media, 12, track.timescale);
    lemma_read_be_u32_at(media, 16, track.duration);
}

/// Read as a run of boxes, the initialization segment of `track` holds a movie
/// box with a track box in it, and that track's headers give back the width,
/// the height, the sample duration and the timescale of `track`.
pub proof fn lemma_init_segment_declares_track(track: Track)
    ensures
        track_header_of(spec_init_segment(track)) == Some(tkhd_payload(track)),
        media_header_of(spec_init_segment(track)) == Some(
            mdhd_payload(track.timescale, track.duration),
        ),
        declared_width(spec_init_segment(track)) == Some(track.width as int),
        declared_height(spec_init_segment(track)) == Some(track.height as int),
        declared_duration(spec_init_segment(track)) == Some(track.duration as int),
        declared_timescale(spec_init_segment(track)) == Some(track.timescale as int),
{
    lemma_init_segment_children(track);
    lemma_trak_children(track);
    lemma_header_fields(track);
}

/// The default sample flags are the bytes 2, 0, 0, 0: read as four-byte sample
/// flags they say "depends on no other" and "sync sample".
pub proof fn lemma_default_sample_flags()
    ensures
        default_sample_flags() == seq![2u8, 0u8, 0u8, 0u8],
        word_depends_on(default_sample_flags()) == 2,
        word_is_non_sync(default_sample_flags()) == 0,
{
    Sample::lemma_key_frame_flags(0, 0, 0, true);
}

/// The fragment defaults of a track name the track and sample description 1,
/// set no default duration and no default size, and end with the default
/// sample flags, those of a sync sample that depends on no other.
pub proof fn lemma_trex_fields(track: Track)
    ensures
        trex_payload(track).len() == 24,
        spec_trex(track).len() == TREX_LEN,
        read_be_u32(trex_payload(track), 4) == track.id,
        read_be_u32(trex_payload(track), 8) == 1,
        read_be_u32(trex_payload(track), 12) == 0,
        read_be_u32(trex_payload(track), 16) == 0,
        trex_payload(track).subrange(20, 24) == default_sample_flags(),
        spec_trex(track).subrange(28, 32) == default_sample_flags(),
        word_depends_on(trex_payload(track).subrange(20, 24)) == 2,
        word_is_non_sync(trex_payload(track).subrange(20, 24)) == 0,
{
    let payload = trex_payload(track);
    lemma_default_sample_flags();
    assert(payload.len() == 24);
    assert(payload.subrange(4, 8) =~= be_u32(track.id));
    assert(payload.subrange(8, 12) =~= be_u32(1));
    assert(payload.subrange(12, 16) =~= be_u32(0));
    assert(payload.subrange(16, 20) =~= be_u32(0));
    assert(payload.subrange(20, 24) =~= default_sample_flags());
    lemma_read_be_u32_at(payload, 4, track.id);
    lemma_read_be_u32_at(payload, 8, 1);
    lemma_read_be_u32_at(payload, 12, 0);
    lemma_read_be_u32_at(payload, 16, 0);
    assert(spec_trex(track).len() == TREX_LEN && spec_trex(track).subrange(28, 32)
        =~= default_sample_flags()) by {
        reveal(spec_trex);
    }
}

/// The initialization segment does not depend on the decode-time cursor: two
/// tracks that differ in nothing else have the same one.
pub proof fn lemma_init_segment_ignores_cursor(a: Track, b: Track)
    requires
        a == (Track { dts: a.dts, ..b }),
    ensures
        spec_init_segment(a) == spec_init_segment(b),
{
    reveal(spec_tkhd);
    reveal(spec_mdia);
    reveal(spec_minf);
    reveal(spec_stbl);
    reveal(spec_stsd);
    reveal(spec_trak);
    reveal(spec_trex);
    reveal(spec_mvex);
    reveal(spec_moov);
    assert(spec_trak(a) == spec_trak(b));
    assert(spec_trex(a) == spec_trex(b));
    assert(spec_traks(seq![a]) =~= spec_traks(seq![b]));
    assert(spec_trexes(seq![a]) =~= spec_trexes(seq![b]));
}

/// Appends the unity matrix to `buf`.
fn put_unity_matrix(buf: &mut Vec<u8>)
    ensures
        final(buf)@ == old(buf)@ + unity_matrix(),
{
    put_u32(buf, 0x0001_0000);
    put_zeros(buf, 12);
    put_u32(buf, 0x0001_0000);
    put_zeros(buf, 12);
    put_u32(buf, 0x4000_0000);
    assert(buf@ =~= old(buf)@ + unity_matrix());
}

/// Builds the file-type box.
pub fn ftyp() -> (out: Vec<u8>)
    ensures
        out@ == spec_ftyp(),
        out@.len() == FTYP_LEN,
        read_be_u32(out@, 0) == out@.len(),
{
    proof {
        reveal(spec_ftyp);
    }
    let minor_version: [u8; 4] = [0, 0, 0, 1];
    assert(minor_version@ =~= be_u32(1));
    let parts: Vec<&[u8]> = vec![
        ISOM.as_slice(),
        minor_version.as_slice(),
        ISOM.as_slice(),
        VP09.as_slice(),
    ];
    proof {
        lemma_concat_4(ISOM@, minor_version@, ISOM@, VP09@);
        assert(views(parts@) =~= seq![ISOM@, minor_version@, ISOM@, VP09@]);
    }
    mp4_box(&FTYP, parts)
}

/// Builds the movie header.
pub fn mvhd(timescale: u32, duration: u32) -> (out: Vec<u8>)
    ensures
        out@ == spec_mvhd(timescale, duration),
        out@.len() == MVHD_LEN,
        read_be_u32(out@, 0) == out@.len(),
{
    proof {
        reveal(spec_mvhd);
    }
    let mut bytes: Vec<u8> = Vec::new();
    put_version_flags(&mut bytes, 0, 0);
    put_u32(&mut bytes, 1);
    put_u32(&mut bytes, 2);
    put_u32(&mut bytes, timescale);
    put_u32(&mut bytes, duration);
    put_u32(&mut bytes, 0x0001_0000);
    put_u16(&mut bytes, 0x0100);
    put_zeros(&mut bytes, 10);
    put_unity_matrix(&mut bytes);
    put_zeros(&mut bytes, 24);
    put_u32(&mut bytes, 0xffff_ffff);
    assert(bytes@ =~= mvhd_payload(timescale, duration));
    let parts: Vec<&[u8]> = vec![bytes.as_slice()];
    proof {
        lemma_concat_1(bytes@);
        assert(views(parts@) =~= seq![bytes@]);
    }
    mp4_box(&MVHD, parts)
}

/// Builds the track box.
pub fn trak(track: &Track) -> (out: Vec<u8>)
    ensures
        out@ == spec_trak(*track),
        out@.len() == TRAK_LEN,
        read_be_u32(out@, 0) == out@.len(),
{
    proof {
        reveal(spec_trak);
    }
    let header = tkhd(track);
    let media = mdia(track);
    let parts: Vec<&[u8]> = vec![header.as_slice(), media.as_slice()];
    proof {
        lemma_concat_2(header@, media@);
        assert(views(parts@) =~= seq![header@, media@]);
    }
    mp4_box(&TRAK, parts)
}

/// Builds the track header.
pub fn tkhd(track: &Track) -> (out: Vec<u8>)
    ensures
        out@ == spec_tkhd(*track),
        out@.len() == 92,
        read_be_u32(out@, 0) == out@.len(),
{
    proof {
        reveal(spec_tkhd);
    }
    let volume: u8 = #[verifier::truncate] (track.volume as u8);
    proof {
        let v = track.volume;
        assert(v as u8 == (v % 0x100) as u8) by (bit_vector);
    }
    let mut bytes: Vec<u8> = Vec::new();
    put_version_flags(&mut bytes, 0, 7);
    put_u32(&mut bytes, 0);
    put_u32(&mut bytes, 0);
    put_u32(&mut bytes, track.id);
    put_zeros(&mut bytes, 4);
    put_u32(&mut bytes, track.duration);
    put_zeros(&mut bytes, 8);
    put_u16(&mut bytes, 0);
    put_u16(&mut bytes, 0);
    bytes.push(volume);
    bytes.push(0);
    put_zeros(&mut bytes, 2);
    put_unity_matrix(&mut bytes);
    put_u16(&mut bytes, track.width);
    put_zeros(&mut bytes, 2);
    put_u16(&mut bytes, track.height);
    put_zeros(&mut bytes, 2);
    assert(bytes@ =~= tkhd_payload(*track));
    let parts: Vec<&[u8]> = vec![bytes.as_slice()];
    proof {
        lemma_concat_1(bytes@);
        assert(views(parts@) =~= seq![bytes@]);
    }
    mp4_box(&TKHD, parts)
}

/// Builds the media box.
pub fn mdia(track: &Track) -> (out: Vec<u8>)
    ensures
        out@ == spec_mdia(*track),
        out@.len() == 347,
        read_be_u32(out@, 0) == out@.len(),
{
    proof {
        reveal(spec_mdia);
    }
    let header = mdhd(track.timescale, track.duration);
    let handler = hdlr();
    let info = minf(track);
    let parts: Vec<&[u8]> = vec![header.as_slice(), handler.as_slice(), info.as_slice()];
    proof {
        lemma_concat_3(header@, handler@, info@);
        assert(views(parts@) =~= seq![header@, handler@, info@]);
    }
    mp4_box(&MDIA, parts)
}

/// Builds the media information.
pub fn minf(track: &Track) -> (out: Vec<u8>)
    ensures
        out@ == spec_minf(*track),
        out@.len() == 262,
        read_be_u32(out@, 0) == out@.len(),
{
    proof {
        reveal(spec_minf);
        reveal(spec_vmhd);
        reveal(spec_dinf);
    }
    let mut video_header: Vec<u8> = Vec::new();
    put_version_flags(&mut video_header, 0, 1);
    put_zeros(&mut video_header, 8);
    assert(video_header@ =~= version_flags(0, 1) + zeros(8));
    let vmhd_parts: Vec<&[u8]> = vec![video_header.as_slice()];
    proof {
        lemma_concat_1(video_header@);
        assert(views(vmhd_parts@) =~= seq![video_header@]);
    }
    let vmhd = mp4_box(&VMHD, vmhd_parts);

    let mut entry_flags: Vec<u8> = Vec::new();
    put_version_flags(&mut entry_flags, 0, 1);
    assert(entry_flags@ =~= version_flags(0, 1));
    let url_parts: Vec<&[u8]> = vec![entry_flags.as_slice()];
    proof {
        lemma_concat_1(entry_flags@);
        assert(views(url_parts@) =~= seq![entry_flags@]);
    }
    let url = mp4_box(&URL, url_parts);

    let mut entry_count: Vec<u8> = Vec::new();
    put_version_flags(&mut entry_count, 0, 0);
    put_u32(&mut entry_count, 1);
    assert(entry_count@ =~= version_flags(0, 0) + be_u32(1));
    let dref_parts: Vec<&[u8]> = vec![entry_count.as_slice(), url.as_slice()];
    proof {
        lemma_concat_2(entry_count@, url@);
        assert(views(dref_parts@) =~= seq![entry_count@, url@]);
    }
    let dref = mp4_box(&DREF, dref_parts);

    let dinf_parts: Vec<&[u8]> = vec![dref.as_slice()];
    proof {
        lemma_concat_1(dref@);
        assert(views(dinf_parts@) =~= seq![dref@]);
    }
    let dinf = mp4_box(&DINF, dinf_parts);

    let table = stbl(track);
    let parts: Vec<&[u8]> = vec![vmhd.as_slice(), dinf.as_slice(), table.as_slice()];
    proof {
        lemma_concat_3(vmhd@, dinf@, table@);
        assert(views(parts@) =~= seq![vmhd@, dinf@, table@]);
    }
    mp4_box(&MINF, parts)
}

/// Builds the media header.
pub fn mdhd(timescale: u32, duration: u32) -> (out: Vec<u8>)
    ensures
        out@ == spec_mdhd(timescale, duration),
        out@.len() == 32,
        read_be_u32(out@, 0) == out@.len(),
{
    proof {
        reveal(spec_mdhd);
    }
    let mut bytes: Vec<u8> = Vec::new();
    put_version_flags(&mut bytes, 0, 0);
    put_u32(&mut bytes, 2);
    put_u32(&mut bytes, 3);
    put_u32(&mut bytes, timescale);
    put_u32(&mut bytes, duration);
    put_u16(&mut bytes, 0x55c4);
    put_u16(&mut bytes, 0);
    assert(bytes@ =~= mdhd_payload(timescale, duration));
    let parts: Vec<&[u8]> = vec![bytes.as_slice()];
    proof {
        lemma_concat_1(bytes@);
        assert(views(parts@) =~= seq![bytes@]);
    }
    mp4_box(&MDHD, parts)
}

/// Builds the handler declaration.
pub fn hdlr() -> (out: Vec<u8>)
    ensures
        out@ == spec_hdlr(),
        out@.len() == 45,
        read_be_u32(out@, 0) == out@.len(),
{
    proof {
        reveal(spec_hdlr);
    }
    let mut bytes: Vec<u8> = Vec::new();
    put_version_flags(&mut bytes, 0, 0);
    put_u32(&mut bytes, 0);
    put_bytes(&mut bytes, VIDE.as_slice());
    put_zeros(&mut bytes, 12);
    put_bytes(&mut bytes, HANDLER_NAME.as_slice());
    assert(bytes@ =~= version_flags(0, 0) + be_u32(0) + VIDE@ + zeros(12) + HANDLER_NAME@);
    let parts: Vec<&[u8]> = vec![bytes.as_slice()];
    proof {
        lemma_concat_1(bytes@);
        assert(views(parts@) =~= seq![bytes@]);
    }
    mp4_box(&HDLR, parts)
}

/// Builds one of the tables that a fragmented file leaves empty: a box of
/// `len` zero bytes.
fn empty_table(box_type: &[u8; 4], len: usize) -> (out: Vec<u8>)
    requires
        len <= 12,
    ensures
        out@ == spec_box(box_type@, zeros(len as nat)),
        out@.len() == BOX_HEADER_LEN + len,
        read_be_u32(out@, 0) == out@.len(),
{
    let mut bytes: Vec<u8> = Vec::new();
    put_zeros(&mut bytes, len);
    assert(bytes@ =~= zeros(len as nat));
    let parts: Vec<&[u8]> = vec![bytes.as_slice()];
    proof {
        lemma_concat_1(bytes@);
        assert(views(parts@) =~= seq![bytes@]);
    }
    mp4_box(box_type, parts)
}

/// Builds the sample table.
pub fn stbl(track: &Track) -> (out: Vec<u8>)
    ensures
        out@ == spec_stbl(*track),
        out@.len() == 198,
        read_be_u32(out@, 0) == out@.len(),
{
    proof {
        reveal(spec_stbl);
    }
    let description = stsd(track);
    let stts = empty_table(&STTS, 8);
    let stsc = empty_table(&STSC, 8);
    let stsz = empty_table(&STSZ, 12);
    let stco = empty_table(&STCO, 8);
    let parts: Vec<&[u8]> = vec![
        description.as_slice(),
        stts.as_slice(),
        stsc.as_slice(),
        stsz.as_slice(),
        stco.as_slice(),
    ];
    proof {
        lemma_concat_5(description@, stts@, stsc@, stsz@, stco@);
        assert(views(parts@) =~= seq![description@, stts@, stsc@, stsz@, stco@]);
    }
    mp4_box(&STBL, parts)
}

/// Builds the sample descriptions.
pub fn stsd(track: &Track) -> (out: Vec<u8>)
    ensures
        out@ == spec_stsd(*track),
        out@.len() == 122,
        read_be_u32(out@, 0) == out@.len(),
{
    proof {
        reveal(spec_stsd);
    }
    let mut entry_count: Vec<u8> = Vec::new();
    put_version_flags(&mut entry_count, 0, 0);
    put_u32(&mut entry_count, 1);
    assert(entry_count@ =~= version_flags(0, 0) + be_u32(1));
    let entry = vp09(track.width, track.height);
    let parts: Vec<&[u8]> = vec![entry_count.as_slice(), entry.as_slice()];
    proof {
        lemma_concat_2(entry_count@, entry@);
        assert(views(parts@) =~= seq![entry_count@, entry@]);
    }
    mp4_box(&STSD, parts)
}

/// Builds the VP9 sample entry for frames of `width` by `height` pixels.
pub fn vp09(width: u16, height: u16) -> (out: Vec<u8>)
    ensures
        out@ == spec_vp09(width, height),
        out@.len() == 106,
        read_be_u32(out@, 0) == out@.len(),
{
    proof {
        reveal(spec_vp09);
    }
    let mut bytes: Vec<u8> = Vec::new();
    put_version_flags(&mut bytes, 1, 0);
    put_zeros(&mut bytes, 2);
    put_u16(&mut bytes, 1);
    put_zeros(&mut bytes, 16);
    put_u16(&mut bytes, width);
    put_u16(&mut bytes, height);
    put_u32(&mut bytes, 0x0048_0000);
    put_u32(&mut bytes, 0x0048_0000);
    put_zeros(&mut bytes, 4);
    put_zeros(&mut bytes, 32);
    put_u16(&mut bytes, 1);
    put_u16(&mut bytes, 0x0018);
    put_u16(&mut bytes, 0xffff);
    assert(bytes@ =~= vp09_fields(width, height));
    let config = vpcc();
    let parts: Vec<&[u8]> = vec![bytes.as_slice(), config.as_slice()];
    proof {
        lemma_concat_2(bytes@, config@);
        assert(views(parts@) =~= seq![bytes@, config@]);
    }
    mp4_box(&VP09, parts)
}

/// Builds the VP9 codec configuration.
pub fn vpcc() -> (out: Vec<u8>)
    ensures
        out@ == spec_vpcc(),
        out@.len() == 20,
        read_be_u32(out@, 0) == out@.len(),
{
    proof {
        reveal(spec_vpcc);
    }
    let mut bytes: Vec<u8> = Vec::new();
    put_version_flags(&mut bytes, 1, 0);
    bytes.push(0x00);
    bytes.push(0x1f);
    bytes.push(0x80);
    bytes.push(0x02);
    bytes.push(0x02);
    bytes.push(0x02);
    put_u16(&mut bytes, 0);
    assert(bytes@ =~= version_flags(1, 0) + seq![
        0x00u8,
        0x1fu8,
        0x80u8,
        0x02u8,
        0x02u8,
        0x02u8,
    ] + be_u16(0));
    let parts: Vec<&[u8]> = vec![bytes.as_slice()];
    proof {
        lemma_concat_1(bytes@);
        assert(views(parts@) =~= seq![bytes@]);
    }
    mp4_box(&VPCC, parts)
}

/// Builds the movie-extends box: the fragment defaults of each track.
pub fn mvex(tracks: &[Track]) -> (out: Vec<u8>)
    requires
        BOX_HEADER_LEN + tracks@.len() * TREX_LEN <= u32::MAX,
    ensures
        out@ == spec_mvex(tracks@),
        out@.len() == BOX_HEADER_LEN + tracks@.len() * TREX_LEN,
        read_be_u32(out@, 0) == out@.len(),
{
    proof {
        reveal(spec_mvex);
    }
    let mut boxes: Vec<Vec<u8>> = Vec::new();
    let mut i: usize = 0;
    while i < tracks.len()
        invariant
            i <= tracks.len(),
            boxes@.len() == i,
            forall|j: int| 0 <= j < i ==> (#[trigger] boxes@[j])@ == spec_trex(tracks@[j]),
            forall|j: int| 0 <= j < i ==> (#[trigger] boxes@[j])@.len() == TREX_LEN,
        decreases tracks.len() - i,
    {
        boxes.push(trex(&tracks[i]));
        i += 1;
    }
    let mut parts: Vec<&[u8]> = Vec::new();
    push_all(&mut parts, &boxes);
    proof {
        assert(contents(boxes@) =~= spec_trexes(tracks@));
        assert(views(parts@) =~= spec_trexes(tracks@));
        assert forall|j: int| 0 <= j < tracks@.len() implies (#[trigger] spec_trexes(
            tracks@,
        )[j]).len() == TREX_LEN by {
            assert(boxes@[j]@.len() == TREX_LEN);
        }
        lemma_concat_uniform(spec_trexes(tracks@), TREX_LEN as nat);
    }
    mp4_box(&MVEX, parts)
}

/// Builds the fragment defaults of one track. Its default sample flags are
/// those of a key frame: a sync sample that depends on no other.
pub fn trex(track: &Track) -> (out: Vec<u8>)
    ensures
        out@ == spec_trex(*track),
        out@.len() == TREX_LEN,
        read_be_u32(out@, 0) == out@.len(),
        out@.subrange(28, 32) == default_sample_flags(),
        word_depends_on(out@.subrange(28, 32)) == 2,
        word_is_non_sync(out@.subrange(28, 32)) == 0,
{
    proof {
        reveal(spec_trex);
    }
    let default_flags = Sample::new(0, 0, 0, true).flags.as_four_byte();
    let mut bytes: Vec<u8> = Vec::new();
    put_version_flags(&mut bytes, 0, 0);
    put_u32(&mut bytes, track.id);
    put_u32(&mut bytes, 1);
    put_u32(&mut bytes, 0);
    put_u32(&mut bytes, 0);
    put_bytes(&mut bytes, default_flags.as_slice());
    assert(bytes@ =~= trex_payload(*track));
    let parts: Vec<&[u8]> = vec![bytes.as_slice()];
    proof {
        lemma_concat_1(bytes@);
        assert(views(parts@) =~= seq![bytes@]);
        lemma_trex_fields(*track);
    }
    mp4_box(&TREX, parts)
}

/// Builds the movie box for `tracks`, with the movie's own `duration` and
/// `timescale`.
pub fn moov(tracks: &[Track], duration: u32, timescale: u32) -> (out: Vec<u8>)
    requires
        moov_len(tracks@.len()) <= u32::MAX,
    ensures
        out@ == spec_moov(tracks@, duration, timescale),
        out@.len() == moov_len(tracks@.len()),
        read_be_u32(out@, 0) == out@.len(),
{
    proof {
        reveal(spec_moov);
    }
    let mut boxes: Vec<Vec<u8>> = Vec::new();
    let mut i: usize = 0;
    while i < tracks.len()
        invariant
            i <= tracks.len(),
            boxes@.len() == i,
            forall|j: int| 0 <= j < i ==> (#[trigger] boxes@[j])@ == spec_trak(tracks@[j]),
            forall|j: int| 0 <= j < i ==> (#[trigger] boxes@[j])@.len() == TRAK_LEN,
        decreases tracks.len() - i,
    {
        boxes.push(trak(&tracks[i]));
        i += 1;
    }
    let header = mvhd(timescale, duration);
    let extends = mvex(tracks);

    let mut payloads: Vec<&[u8]> = Vec::new();
    payloads.push(header.as_slice());
    assert(views(payloads@) =~= seq![header@]);
    push_all(&mut payloads, &boxes);
    let ghost traks = spec_traks(tracks@);
    assert(contents(boxes@) =~= traks);
    payloads.push(extends.as_slice());
    proof {
        assert forall|j: int| 0 <= j < traks.len() implies (#[trigger] traks[j]).len()
            == TRAK_LEN by {
            assert(boxes@[j]@.len() == TRAK_LEN);
        }
        assert(views(payloads@) =~= (seq![header@] + traks).push(extends@));
        lemma_concat_uniform(traks, TRAK_LEN as nat);
        lemma_concat_1(header@);
        lemma_concat_append(seq![header@], traks);
        lemma_concat_push(seq![header@] + traks, extends@);
    }
    mp4_box(&MOOV, payloads)
}

} // verus!
