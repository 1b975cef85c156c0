//! The muxer: it owns the track with its decode-time cursor and the fragment
//! counter, gives the initialization segment, and wraps each encoded frame into
//! a fragment.

use vstd::prelude::*;
use crate::boxes::{find_box, BOX_HEADER_LEN};
use crate::endian::read_be_u32;
use crate::fragment::{declared_base_time, declared_data_offset, declared_sample_count,
    declared_sequence_number, first_sample_offset, lemma_fragment_layout, lemma_run_entry_fields,
    mdat, moof, run_entry_at, spec_fragment, track_run_of};
use crate::init_segment::{declared_duration, declared_height, declared_timescale, declared_width,
    ftyp, lemma_init_segment_declares_track, lemma_init_segment_ignores_cursor, moov,
    spec_init_segment};
use crate::sample::{word_depends_on, word_is_non_sync, Sample};
use crate::tags::MDAT;
use crate::track::Track;

verus! {

/// What a muxer holds between two calls.
pub struct MuxState {
    /// The track, with its decode-time cursor.
    pub track: Track,
    /// Sequence number of the next fragment.
    pub sn: u32,
}

impl MuxState {
    /// The state of a new muxer for `fps` frames a second.
    pub open spec fn fresh(fps: u32, width: u16, height: u16) -> MuxState
        recommends
            fps > 0,
    {
        MuxState {
            track: Track::spec_new((Track::DEFAULT_TIMESCALE / fps) as u32, width, height),
            sn: 0,
        }
    }

    /// The one sample of the fragment that wraps a frame of `len` bytes.
    pub open spec fn sample(self, len: nat, key_frame: bool) -> Sample {
        Sample::spec_new(len as u32, self.track.duration, 0, key_frame)
    }

    /// The fragment that wraps the frame `data` in this state.
    pub open spec fn fragment(self, data: Seq<u8>, key_frame: bool) -> Seq<u8> {
        spec_fragment(
            self.sn,
            self.track.dts,
            self.track,
            seq![self.sample(data.len(), key_frame)],
            data,
        )
    }

    /// A frame of `len` bytes can be wrapped: its media-data box fits a 32-bit
    /// length, and neither the cursor nor the counter would pass 32 bits.
    pub open spec fn can_wrap(self, len: nat) -> bool {
        &&& BOX_HEADER_LEN + len <= u32::MAX
        &&& self.track.dts + self.track.duration <= u32::MAX
        &&& self.sn < u32::MAX
    }

    /// The state after one frame was wrapped: the cursor has moved on by one
    /// sample duration and the counter by one.
    pub open spec fn next(self) -> MuxState {
        MuxState {
            track: Track { dts: (self.track.dts + self.track.duration) as u32, ..self.track },
            sn: (self.sn + 1) as u32,
        }
    }

    /// The state after `frames` frames were wrapped.
    pub open spec fn after(self, frames: nat) -> MuxState
        decreases frames,
    {
        if frames == 0 {
            self
        } else {
            self.after((frames - 1) as nat).next()
        }
    }

    /// Ticks that the samples of the first `frames` fragments last, each
    /// fragment holding one sample of the track's duration at that time.
    pub open spec fn elapsed(self, frames: nat) -> nat
        decreases frames,
    {
        if frames == 0 {
            0
        } else {
            self.elapsed((frames - 1) as nat) + self.after((frames - 1) as nat).track.duration as nat
        }
    }
}

impl MuxState {
    /// Wrapping a frame moves the counter on by exactly one, and the cursor by
    /// the duration of the one sample that the fragment holds.
    pub proof fn lemma_next(self)
        requires
            self.track.dts + self.track.duration <= u32::MAX,
            self.sn < u32::MAX,
        ensures
            self.next().sn == self.sn + 1,
            self.next().track.dts == self.track.dts + self.track.duration,
            self.next().track == (Track { dts: self.next().track.dts, ..self.track }),
    {
    }

    /// After `frames` frames the counter has grown by `frames` and the cursor
    /// by the durations of all samples wrapped so far, which is `frames` times
    /// the track's sample duration. Nothing else of the track has changed.
    pub proof fn lemma_after(self, frames: nat)
        requires
            self.track.dts + frames * self.track.duration <= u32::MAX,
            self.sn + frames <= u32::MAX,
        ensures
            self.after(frames).sn == self.sn + frames,
            self.after(frames).track.dts == self.track.dts + self.elapsed(frames),
            self.elapsed(frames) == frames * self.track.duration,
            self.after(frames).track == (Track {
                dts: self.after(frames).track.dts,
                ..self.track
            }),
        decreases frames,
    {
        if frames > 0 {
            let before = (frames - 1) as nat;
            assert(before * self.track.duration + self.track.duration == frames
                * self.track.duration) by (nonlinear_arith)
                requires
                    before + 1 == frames,
            ;
            assert(0 <= before * self.track.duration) by (nonlinear_arith);
            self.lemma_after(before);
            assert(self.after(before).track.duration == self.track.duration);
            assert(self.elapsed(frames) == self.elapsed(before) + self.track.duration);
        } else {
            assert(frames * self.track.duration == 0) by (nonlinear_arith)
                requires
                    frames == 0,
            ;
        }
    }

    /// The fragment that wraps a frame declares the state it was built in: its
    /// sequence number is the counter, its base media decode time the cursor.
    /// It holds one sample, of the track's duration and of the frame's size,
    /// with the flags of a key frame or of a dependent frame. Its data offset
    /// leads from its first byte to the first byte of the frame, past the
    /// whole movie fragment and the header of the media-data box.
    pub proof fn lemma_fragment(self, data: Seq<u8>, key_frame: bool)
        requires
            BOX_HEADER_LEN + data.len() <= u32::MAX,
        ensures
            ({
                let fragment = self.fragment(data, key_frame);
                let offset = first_sample_offset(1) as int;
                &&& fragment.len() == offset + data.len()
                &&& declared_sequence_number(fragment) == Some(self.sn as int)
                &&& declared_base_time(fragment) == Some(self.track.dts as int)
                &&& declared_sample_count(fragment) == Some(1int)
                &&& declared_data_offset(fragment) == Some(offset)
                &&& fragment.subrange(offset, offset + data.len()) == data
                &&& find_box(fragment, MDAT@) == Some(data)
                &&& track_run_of(fragment) is Some
                &&& read_be_u32(track_run_of(fragment)->Some_0, run_entry_at(0))
                    == self.track.duration
                &&& read_be_u32(track_run_of(fragment)->Some_0, run_entry_at(0) + 4) == data.len()
                &&& word_depends_on(
                    track_run_of(fragment)->Some_0.subrange(
                        run_entry_at(0) + 8,
                        run_entry_at(0) + 12,
                    ),
                ) == (if key_frame { 2u8 } else { 1u8 })
                &&& word_is_non_sync(
                    track_run_of(fragment)->Some_0.subrange(
                        run_entry_at(0) + 8,
                        run_entry_at(0) + 12,
                    ),
                ) == (if key_frame { 0u8 } else { 1u8 })
            }),
    {
        let sample = self.sample(data.len(), key_frame);
        let samples = seq![sample];
        lemma_fragment_layout(self.sn, self.track.dts, self.track, samples, data);
        lemma_run_entry_fields(first_sample_offset(1) as u32, samples, 0);
        Sample::lemma_key_frame_flags(data.len() as u32, self.track.duration, 0, key_frame);
    }

    /// Fragment number `frames` of a muxer, counted from zero, declares the
    /// muxer's first sequence number plus `frames`, and as its base media
    /// decode time the muxer's first cursor plus the durations of the samples
    /// of all fragments before it. For a new muxer these are `frames` and the
    /// sum of those durations.
    pub proof fn lemma_nth_fragment(self, frames: nat, data: Seq<u8>, key_frame: bool)
        requires
            self.track.dts + frames * self.track.duration <= u32::MAX,
            self.sn + frames <= u32::MAX,
            BOX_HEADER_LEN + data.len() <= u32::MAX,
        ensures
            declared_sequence_number(self.after(frames).fragment(data, key_frame)) == Some(
                self.sn + frames,
            ),
            declared_base_time(self.after(frames).fragment(data, key_frame)) == Some(
                self.track.dts + self.elapsed(frames),
            ),
            self.elapsed(frames) == frames * self.track.duration,
    {
        self.lemma_after(frames);
        self.after(frames).lemma_fragment(data, key_frame);
    }

    /// The initialization segment of a new muxer declares the width and the
    /// height it was made with, the default timescale, and as sample duration
    /// the whole ticks of a second divided by the frame rate.
    pub proof fn lemma_fresh_init_segment(fps: u32, width: u16, height: u16)
        requires
            fps > 0,
        ensures
            ({
                let init = spec_init_segment(MuxState::fresh(fps, width, height).track);
                &&& declared_width(init) == Some(width as int)
                &&& declared_height(init) == Some(height as int)
                &&& declared_timescale(init) == Some(1000int)
                &&& declared_duration(init) == Some(1000int / fps as int)
            }),
    {
        lemma_init_segment_declares_track(MuxState::fresh(fps, width, height).track);
    }

    /// The initialization segment is the same before and after any number of
    /// frames: it is a function of the track's description alone.
    pub proof fn lemma_init_segment_stable(self, frames: nat)
        ensures
            spec_init_segment(self.after(frames).track) == spec_init_segment(self.track),
            self.after(frames).track == (Track {
                dts: self.after(frames).track.dts,
                ..self.track
            }),
        decreases frames,
    {
        if frames > 0 {
            self.lemma_init_segment_stable((frames - 1) as nat);
        }
        lemma_init_segment_ignores_cursor(self.after(frames).track, self.track);
    }
}

/// A muxer of one video track into fragments.
pub struct Fmp4 {
    track: Track,
    sn: u32,
}

impl View for Fmp4 {
    type V = MuxState;

    closed spec fn view(&self) -> MuxState {
        MuxState { track: self.track, sn: self.sn }
    }
}

impl Fmp4 {
    /// A muxer for frames of `width` by `height` pixels at `fps` frames a
    /// second. One sample lasts the whole ticks of a second divided by `fps`.
    pub fn new(fps: u32, width: u16, height: u16) -> (muxer: Self)
        requires
            fps > 0,
        ensures
            muxer@ == MuxState::fresh(fps, width, height),
    {
        let duration = Track::DEFAULT_TIMESCALE / fps;
        Self { track: Track::new(duration, width, height), sn: 0 }
    }

    /// The track, with its cursor where the next fragment starts.
    pub fn track(&self) -> (track: Track)
        ensures
            track == self@.track,
    {
        self.track
    }

    /// The sequence number that the next fragment gets.
    pub fn sequence_number(&self) -> (sn: u32)
        ensures
            sn == self@.sn,
    {
        self.sn
    }

    /// Tells whether [`Fmp4::wrap_frame`] can take `data` now.
    pub fn can_wrap_frame(&self, data: &[u8]) -> (ok: bool)
        ensures
            ok == self@.can_wrap(data@.len()),
    {
        data.len() <= (u32::MAX - BOX_HEADER_LEN) as usize && self.track.dts <= u32::MAX
            - self.track.duration && self.sn < u32::MAX
    }

    /// Builds the initialization segment. It depends on the track's
    /// description alone, and the muxer stays as it is.
    pub fn init_segment(&self) -> (out: Vec<u8>)
        ensures
            out@ == spec_init_segment(self@.track),
    {
        let mut ftyp = ftyp();
        let tracks: Vec<Track> = vec![self.track];
        assert(tracks@ =~= seq![self.track]);
        let mut movie = moov(tracks.as_slice(), Track::DEFAULT_TIMESCALE, self.track.timescale);
        let total_len = ftyp.len() + movie.len();

        let mut buffer: Vec<u8> = Vec::with_capacity(total_len);
        buffer.append(&mut ftyp);
        buffer.append(&mut movie);
        assert(buffer@ =~= spec_init_segment(self@.track));
        buffer
    }

    /// Wraps the encoded frame `data` into a fragment, then moves the cursor on
    /// by one sample duration and the counter by one.
    pub fn wrap_frame(&mut self, data: &[u8], key_frame: bool) -> (out: Vec<u8>)
        requires
            old(self)@.can_wrap(data@.len()),
        ensures
            out@ == old(self)@.fragment(data@, key_frame),
            final(self)@ == old(self)@.next(),
    {
        let sample = Sample::new(data.len() as u32, self.track.duration, 0, key_frame);
        let samples: Vec<Sample> = vec![sample];
        assert(samples@ =~= seq![sample]);
        let fragment = moof(self.sn, self.track.dts, &self.track, samples.as_slice());
        let mut buffer = fragment.unwrap();
        let mut payload = mdat(data);
        buffer.append(&mut payload);

        self.track.dts += self.track.duration;
        self.sn += 1;

        buffer
    }
}

} // verus!
