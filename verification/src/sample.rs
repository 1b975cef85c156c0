//! One encoded frame as the container sees it, and the packed forms of its
//! dependency flags.

use vstd::prelude::*;
use crate::endian::be_u16;

verus! {

/// Dependency, redundancy and sync attributes of one sample.
#[derive(Clone, Copy, Debug)]
pub struct Flags {
    /// Two bits: whether the sample is a leading sample.
    pub is_leading: u8,
    /// Two bits: whether other samples depend on this one.
    pub is_depended_on: u8,
    /// Two bits: whether the sample carries redundant coding.
    pub has_redundancy: u8,
    /// Two bits: 0 unknown, 1 depends on others, 2 depends on no other.
    pub depands_on: u8,
    /// Three bits of padding value.
    pub padding_value: u8,
    /// One bit: 1 where the sample is no sync point.
    pub is_non_sync: u8,
    /// Degradation priority.
    pub degrad_prio: u16,
}

/// The container's record of one encoded frame.
#[derive(Clone, Copy, Debug)]
pub struct Sample {
    /// Bytes of compressed payload.
    pub size: u32,
    /// Duration in ticks of the track's timescale.
    pub duration: u32,
    /// Composition-time offset in ticks.
    pub cts: u32,
    /// Dependency flags.
    pub flags: Flags,
}

/// The depends-on field of a one-byte dependency code.
pub open spec fn byte_depends_on(code: u8) -> u8 {
    (code >> 4) & 3
}

/// The is-depended-on field of a one-byte dependency code.
pub open spec fn byte_is_depended_on(code: u8) -> u8 {
    (code >> 2) & 3
}

/// The has-redundancy field of a one-byte dependency code.
pub open spec fn byte_has_redundancy(code: u8) -> u8 {
    code & 3
}

/// The is-leading field of four-byte sample flags.
pub open spec fn word_is_leading(word: Seq<u8>) -> u8 {
    (word[0] >> 2) & 3
}

/// The depends-on field of four-byte sample flags.
pub open spec fn word_depends_on(word: Seq<u8>) -> u8 {
    word[0] & 3
}

/// The padding value of four-byte sample flags.
pub open spec fn word_padding_value(word: Seq<u8>) -> u8 {
    (word[1] >> 1) & 7
}

/// The is-non-sync bit of four-byte sample flags.
pub open spec fn word_is_non_sync(word: Seq<u8>) -> u8 {
    word[1] & 1
}

/// The degradation priority of four-byte sample flags.
pub open spec fn word_degrad_prio(word: Seq<u8>) -> int {
    word[2] * 0x100 + word[3]
}

impl Flags {
    /// Every field fits the bits that the packed forms give it.
    pub open spec fn fits(&self) -> bool {
        &&& self.is_leading < 4
        &&& self.is_depended_on < 4
        &&& self.has_redundancy < 4
        &&& self.depands_on < 4
        &&& self.padding_value < 8
        &&& self.is_non_sync < 2
    }

    /// The one-byte dependency code: depends-on above is-depended-on above
    /// has-redundancy, two bits each.
    pub open spec fn byte_code(&self) -> u8 {
        self.depands_on << 4 | self.is_depended_on << 2 | self.has_redundancy
    }

    /// The four-byte sample flags. Is-depended-on and has-redundancy share the
    /// two high bits of the second byte.
    pub open spec fn word_code(&self) -> Seq<u8> {
        seq![
            self.is_leading << 2 | self.depands_on,
            self.is_depended_on << 6 | self.has_redundancy << 6 | self.padding_value << 1
                | self.is_non_sync,
        ] + be_u16(self.degrad_prio)
    }

    /// The flags of a key frame or of a frame that needs earlier ones.
    pub open spec fn of_frame(key_frame: bool) -> Flags {
        Flags {
            is_leading: 0,
            is_depended_on: 0,
            has_redundancy: 0,
            depands_on: if key_frame { 2 } else { 1 },
            padding_value: 0,
            is_non_sync: if key_frame { 0 } else { 1 },
            degrad_prio: 0,
        }
    }

    /// Packs the flags into the one byte that the sample-dependency table holds.
    pub fn as_byte(&self) -> (code: u8)
        ensures
            code == self.byte_code(),
    {
        self.depands_on << 4 | self.is_depended_on << 2 | self.has_redundancy
    }

    /// Packs the flags into the four bytes that the track run holds.
    pub fn as_four_byte(&self) -> (word: [u8; 4])
        ensures
            word@ == self.word_code(),
    {
        let prio = self.degrad_prio;
        let hi: u8 = #[verifier::truncate] ((prio >> 8) as u8);
        let lo: u8 = #[verifier::truncate] (prio as u8);
        proof {
            assert((prio >> 8) as u8 == (prio / 0x100) as u8) by (bit_vector);
            assert(prio as u8 == (prio % 0x100) as u8) by (bit_vector);
        }
        let word = [
            self.is_leading << 2 | self.depands_on,
            self.is_depended_on << 6 | self.has_redundancy << 6 | self.padding_value << 1
                | self.is_non_sync,
            hi,
            lo,
        ];
        assert(word@ =~= self.word_code());
        word
    }

    /// The one-byte code gives back each field that fits its two bits.
    pub proof fn lemma_byte_code_decodes(self)
        requires
            self.fits(),
        ensures
            byte_depends_on(self.byte_code()) == self.depands_on,
            byte_is_depended_on(self.byte_code()) == self.is_depended_on,
            byte_has_redundancy(self.byte_code()) == self.has_redundancy,
    {
        let d = self.depands_on;
        let i = self.is_depended_on;
        let r = self.has_redundancy;
        assert(d < 4 && i < 4 && r < 4 ==> ((d << 4 | i << 2 | r) >> 4) & 3 == d) by (bit_vector);
        assert(d < 4 && i < 4 && r < 4 ==> ((d << 4 | i << 2 | r) >> 2) & 3 == i) by (bit_vector);
        assert(d < 4 && i < 4 && r < 4 ==> (d << 4 | i << 2 | r) & 3 == r) by (bit_vector);
    }

    /// The four-byte flags give back is-leading, depends-on, the padding value,
    /// the non-sync bit and the degradation priority of flags that fit.
    pub proof fn lemma_word_code_decodes(self)
        requires
            self.fits(),
        ensures
            self.word_code().len() == 4,
            word_is_leading(self.word_code()) == self.is_leading,
            word_depends_on(self.word_code()) == self.depands_on,
            word_padding_value(self.word_code()) == self.padding_value,
            word_is_non_sync(self.word_code()) == self.is_non_sync,
            word_degrad_prio(self.word_code()) == self.degrad_prio,
    {
        let l = self.is_leading;
        let d = self.depands_on;
        let i = self.is_depended_on;
        let r = self.has_redundancy;
        let p = self.padding_value;
        let n = self.is_non_sync;
        assert(l < 4 && d < 4 ==> ((l << 2 | d) >> 2) & 3 == l) by (bit_vector);
        assert(l < 4 && d < 4 ==> (l << 2 | d) & 3 == d) by (bit_vector);
        assert(p < 8 && n < 2 ==> ((i << 6 | r << 6 | p << 1 | n) >> 1) & 7 == p) by (bit_vector);
        assert(p < 8 && n < 2 ==> (i << 6 | r << 6 | p << 1 | n) & 1 == n) by (bit_vector);
    }
}

impl Sample {
    /// The sample that [`Sample::new`] makes.
    pub open spec fn spec_new(size: u32, duration: u32, cts: u32, key_frame: bool) -> Sample {
        Sample { size, duration, cts, flags: Flags::of_frame(key_frame) }
    }

    /// The record of a frame of `size` bytes. A key frame depends on no other
    /// sample and is a sync point; any other frame depends on others and is
    /// none.
    pub fn new(size: u32, duration: u32, cts: u32, key_frame: bool) -> (sample: Self)
        ensures
            sample == Sample::spec_new(size, duration, cts, key_frame),
            sample.flags.fits(),
    {
        Self {
            size,
            duration,
            cts,
            flags: Flags {
                is_leading: 0,
                is_depended_on: 0,
                has_redundancy: 0,
                depands_on: if key_frame { 2 } else { 1 },
                padding_value: 0,
                is_non_sync: if key_frame { 0 } else { 1 },
                degrad_prio: 0,
            },
        }
    }

    /// Both packed forms of a new sample's flags decode to "depends on no other,
    /// sync point" for a key frame and to "depends on others, no sync point" for
    /// any other frame.
    pub proof fn lemma_key_frame_flags(size: u32, duration: u32, cts: u32, key_frame: bool)
        ensures
            ({
                let flags = Sample::spec_new(size, duration, cts, key_frame).flags;
                &&& word_depends_on(flags.word_code()) == (if key_frame { 2u8 } else { 1u8 })
                &&& word_is_non_sync(flags.word_code()) == (if key_frame { 0u8 } else { 1u8 })
                &&& byte_depends_on(flags.byte_code()) == (if key_frame { 2u8 } else { 1u8 })
                &&& flags.byte_code() == (if key_frame { 0x20u8 } else { 0x10u8 })
                &&& flags.word_code() == (if key_frame {
                    seq![2u8, 0u8, 0u8, 0u8]
                } else {
                    seq![1u8, 1u8, 0u8, 0u8]
                })
            }),
    {
        let flags = Sample::spec_new(size, duration, cts, key_frame).flags;
        flags.lemma_byte_code_decodes();
        flags.lemma_word_code_decodes();
        assert((2u8 << 4 | 0u8 << 2 | 0u8) == 0x20u8) by (bit_vector);
        assert((1u8 << 4 | 0u8 << 2 | 0u8) == 0x10u8) by (bit_vector);
        assert((0u8 << 2 | 2u8) == 2u8) by (bit_vector);
        assert((0u8 << 2 | 1u8) == 1u8) by (bit_vector);
        assert((0u8 << 6 | 0u8 << 6 | 0u8 << 1 | 0u8) == 0u8) by (bit_vector);
        assert((0u8 << 6 | 0u8 << 6 | 0u8 << 1 | 1u8) == 1u8) by (bit_vector);
        if key_frame {
            assert(flags.word_code() =~= seq![2u8, 0u8, 0u8, 0u8]);
        } else {
            assert(flags.word_code() =~= seq![1u8, 1u8, 0u8, 0u8]);
        }
    }
}

} // verus!
