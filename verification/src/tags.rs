//! The four-character codes that the muxer writes.

use vstd::prelude::*;

verus! {

/// `ftyp`: file type and compatibility.
pub const FTYP: [u8; 4] = [0x66, 0x74, 0x79, 0x70];

/// `moov`: the movie box, root of the stream's description.
pub const MOOV: [u8; 4] = [0x6d, 0x6f, 0x6f, 0x76];

/// `mvhd`: movie header.
pub const MVHD: [u8; 4] = [0x6d, 0x76, 0x68, 0x64];

/// `trak`: one track.
pub const TRAK: [u8; 4] = [0x74, 0x72, 0x61, 0x6b];

/// `tkhd`: track header.
pub const TKHD: [u8; 4] = [0x74, 0x6b, 0x68, 0x64];

/// `mdia`: media of a track.
pub const MDIA: [u8; 4] = [0x6d, 0x64, 0x69, 0x61];

/// `mdhd`: media header.
pub const MDHD: [u8; 4] = [0x6d, 0x64, 0x68, 0x64];

/// `hdlr`: handler type.
pub const HDLR: [u8; 4] = [0x68, 0x64, 0x6c, 0x72];

/// `minf`: media information.
pub const MINF: [u8; 4] = [0x6d, 0x69, 0x6e, 0x66];

/// `vmhd`: video media header.
pub const VMHD: [u8; 4] = [0x76, 0x6d, 0x68, 0x64];

/// `dinf`: data information.
pub const DINF: [u8; 4] = [0x64, 0x69, 0x6e, 0x66];

/// `dref`: data references.
pub const DREF: [u8; 4] = [0x64, 0x72, 0x65, 0x66];

/// `url `: one data reference.
pub const URL: [u8; 4] = [0x75, 0x72, 0x6c, 0x20];

/// `stbl`: sample table.
pub const STBL: [u8; 4] = [0x73, 0x74, 0x62, 0x6c];

/// `stsd`: sample descriptions.
pub const STSD: [u8; 4] = [0x73, 0x74, 0x73, 0x64];

/// `stts`: time-to-sample table.
pub const STTS: [u8; 4] = [0x73, 0x74, 0x74, 0x73];

/// `stsc`: sample-to-chunk table.
pub const STSC: [u8; 4] = [0x73, 0x74, 0x73, 0x63];

/// `stsz`: sample-size table.
pub const STSZ: [u8; 4] = [0x73, 0x74, 0x73, 0x7a];

/// `stco`: chunk-offset table.
pub const STCO: [u8; 4] = [0x73, 0x74, 0x63, 0x6f];

/// `vp09`: VP9 sample entry, and the brand of a VP9-capable file.
pub const VP09: [u8; 4] = [0x76, 0x70, 0x30, 0x39];

/// `vpcC`: VP9 codec configuration.
pub const VPCC: [u8; 4] = [0x76, 0x70, 0x63, 0x43];

/// `mvex`: movie extends; announces that fragments follow.
pub const MVEX: [u8; 4] = [0x6d, 0x76, 0x65, 0x78];

/// `trex`: per-track defaults for fragments.
pub const TREX: [u8; 4] = [0x74, 0x72, 0x65, 0x78];

/// `moof`: movie fragment.
pub const MOOF: [u8; 4] = [0x6d, 0x6f, 0x6f, 0x66];

/// `mfhd`: movie fragment header.
pub const MFHD: [u8; 4] = [0x6d, 0x66, 0x68, 0x64];

/// `traf`: track fragment.
pub const TRAF: [u8; 4] = [0x74, 0x72, 0x61, 0x66];

/// `tfhd`: track fragment header.
pub const TFHD: [u8; 4] = [0x74, 0x66, 0x68, 0x64];

/// `tfdt`: track fragment decode time.
pub const TFDT: [u8; 4] = [0x74, 0x66, 0x64, 0x74];

/// `trun`: track run.
pub const TRUN: [u8; 4] = [0x74, 0x72, 0x75, 0x6e];

/// `sdtp`: sample-dependency table.
pub const SDTP: [u8; 4] = [0x73, 0x64, 0x74, 0x70];

/// `mdat`: media data.
pub const MDAT: [u8; 4] = [0x6d, 0x64, 0x61, 0x74];

/// `isom`: the primary brand.
pub const ISOM: [u8; 4] = [0x69, 0x73, 0x6f, 0x6d];

/// `vide`: the handler type of a video track.
pub const VIDE: [u8; 4] = [0x76, 0x69, 0x64, 0x65];

/// `VideoHandler`, zero-terminated: the handler's name.
pub const HANDLER_NAME: [u8; 13] = [
    0x56, 0x69, 0x64, 0x65, 0x6f, 0x48, 0x61, 0x6e, 0x64, 0x6c, 0x65, 0x72, 0x00,
];

} // verus!
