//! The video track: its geometry, its timing and its decode-time cursor.

use vstd::prelude::*;

verus! {

/// One video elementary stream, as the container describes it.
#[derive(Clone, Copy, Debug)]
pub struct Track {
    /// Numeric identifier of the track.
    pub id: u32,
    /// Nominal duration of one sample, in ticks of `timescale`.
    pub duration: u32,
    /// Ticks per second.
    pub timescale: u32,
    /// Frame width in pixels.
    pub width: u16,
    /// Frame height in pixels.
    pub height: u16,
    /// Audio volume; carried for conformance, a video track leaves it at zero.
    pub volume: u16,
    /// Decode-time cursor: ticks since the start of the stream.
    pub dts: u32,
}

impl Track {
    /// Ticks per second of a track made by [`Track::new`].
    pub const DEFAULT_TIMESCALE: u32 = 1000;

    /// The track that [`Track::new`] makes.
    pub open spec fn spec_new(duration: u32, width: u16, height: u16) -> Track {
        Track { id: 0, duration, timescale: 1000, width, height, volume: 0, dts: 0 }
    }

    /// A track of the given sample duration and frame size, with identifier 0,
    /// the default timescale, and its cursor at the start of the stream.
    pub fn new(duration: u32, width: u16, height: u16) -> (track: Self)
        ensures
            track == Track::spec_new(duration, width, height),
    {
        Self {
            id: 0,
            duration,
            timescale: Track::DEFAULT_TIMESCALE,
            width,
            height,
            volume: 0,
            dts: 0,
        }
    }
}

} // verus!
