//! The animation clip container: clip metadata and exactly two sample
//! banks — "full" (time-varying, one value per frame) and "one" (evaluated
//! once, the static or rest pose).
//!
//! Versions below 13 store both banks' headers consecutively — including one
//! extra, deliberately discarded duplicate header for versions above 7 that
//! must still be read to keep the stream position — followed by both banks'
//! data; from version 13 on each bank is fully self-contained.  The clip's
//! name names its archive entry and is not part of the byte stream.

use vstd::prelude::*;

use crate::char_bones_io::{
    load_char_bones_samples, load_char_bones_samples_data, load_char_bones_samples_header,
    save_char_bones_samples, save_char_bones_samples_data, save_char_bones_samples_header,
    spec_counts_of, spec_header_bytes, spec_records_bytes, spec_syms_wf, spec_unc_data_bytes,
    spec_unc_count, CharBonesSamplesReadError,
};
use crate::char_bones_samples::{
    spec_descs, spec_sample_count, CharBone4Bone, CharBonesSamples, EncodedSamples,
};
use crate::stream::{
    lemma_u32_bytes_of, spec_u32_bytes, spec_u32_of, ByteReader, ByteWriter, StreamError,
};

verus! {

/// An error raised while loading an animation clip.
#[derive(Clone, Copy, Debug, PartialEq, Eq, Structural)]
pub enum CharClipSamplesReadError {
    /// The clip names a format version this codec does not support.
    CharClipSamplesNotSupported { version: u32 },
    /// A sample bank inside the clip could not be read.
    Bank(CharBonesSamplesReadError),
    /// The stream ended early.
    Stream(StreamError),
}

/// The clip versions this codec accepts.
pub fn is_version_supported(version: u32) -> (r: bool)
    ensures
        r == (version == 10 || version == 11 || version == 16),
{
    match version {
        10 | 11 => true,
        16 => true,
        _ => false,
    }
}

/// An animation clip: name, beat-unit timing, playback metadata and the two
/// sample banks.  Times and the blend width are `f32` bit patterns.
#[derive(Debug)]
pub struct CharClipSamples {
    pub name: String,
    pub start_beat: u32,
    pub end_beat: u32,
    pub beats_per_sec: u32,
    pub play_flags: u32,
    pub blend_width: u32,
    pub some_bool: bool,
    pub full: CharBonesSamples,
    pub one: CharBonesSamples,
}

impl Default for CharClipSamples {
    fn default() -> (r: CharClipSamples)
        ensures
            r.name@ == Seq::<char>::empty(),
            r.start_beat == 0 && r.end_beat == 0 && r.beats_per_sec == 0,
            r.play_flags == 0 && r.blend_width == 0 && !r.some_bool,
    {
        CharClipSamples {
            name: String::new(),
            start_beat: 0,
            end_beat: 0,
            beats_per_sec: 0,
            play_flags: 0,
            blend_width: 0,
            some_bool: false,
            full: Default::default(),
            one: Default::default(),
        }
    }
}

/// The clip metadata block: start beat, end beat, beats per second, play
/// flags, blend width.
pub open spec fn spec_clip_meta_bytes(c: CharClipSamples, big: bool) -> Seq<u8> {
    spec_u32_bytes(big, c.start_beat) + spec_u32_bytes(big, c.end_beat) + spec_u32_bytes(
        big,
        c.beats_per_sec,
    ) + spec_u32_bytes(big, c.play_flags) + spec_u32_bytes(big, c.blend_width)
}

/// The serialized header of one bank inside a clip: the saver always writes
/// the offset/count table derived from the descriptors.
pub open spec fn spec_bank_header_bytes(b: CharBonesSamples, version: u32, big: bool) -> Seq<u8> {
    spec_header_bytes(
        b.bones@,
        spec_counts_of(b.bones@),
        seq![
            spec_counts_of(b.bones@)[6],
            spec_counts_of(b.bones@)[6],
            spec_counts_of(b.bones@)[6],
        ],
        b.compression,
        spec_sample_count(&b) as u32,
        b.frames@,
        version,
        big,
    )
}

/// The serialized data section of one bank inside a clip.
pub open spec fn spec_bank_data_bytes(b: CharBonesSamples, big: bool) -> Seq<u8> {
    match b.samples {
        EncodedSamples::Compressed(_, ref recs) => spec_records_bytes(recs@),
        EncodedSamples::Uncompressed(ref ss) => spec_unc_data_bytes(
            ss@,
            spec_unc_count(ss@),
            b.compression,
            big,
        ),
    }
}

/// The duplicated, deliberately discarded header written between the two
/// bank headers of a pre-13 clip: an empty bank's header.
pub open spec fn spec_empty_bank_header_bytes(version: u32, big: bool) -> Seq<u8> {
    spec_header_bytes(
        Seq::<CharBone4Bone>::empty(),
        spec_counts_of(Seq::<CharBone4Bone>::empty()),
        seq![
            spec_counts_of(Seq::<CharBone4Bone>::empty())[6],
            spec_counts_of(Seq::<CharBone4Bone>::empty())[6],
            spec_counts_of(Seq::<CharBone4Bone>::empty())[6],
        ],
        0u32,
        0u32,
        Seq::<u32>::empty(),
        version,
        big,
    )
}

/// Everything one clip save appends: the chosen version word, the metadata
/// block, then — below version 13 — both banks' headers, the duplicate
/// discarded header and both banks' data sections, or — from version 13 on
/// — each bank fully self-contained.
pub open spec fn spec_clip_save_bytes(c: CharClipSamples, big: bool) -> Seq<u8> {
    let version: u32 = if c.full.frames@.len() > 0 {
        13u32
    } else {
        11u32
    };
    spec_u32_bytes(big, version) + spec_clip_meta_bytes(c, big) + spec_clip_banks_bytes(
        c,
        version,
        big,
    )
}

/// Reads the clip metadata block.
#[verifier::rlimit(100)]
fn load_char_clip(c: &mut CharClipSamples, reader: &mut ByteReader) -> (r: Result<
    (),
    CharClipSamplesReadError,
>)
    requires
        old(reader).wf(),
    ensures
        final(reader).same_stream(old(reader)),
        final(reader).wf(),
        match r {
            Ok(()) => {
                &&& old(reader).pos <= final(reader).pos <= old(reader).data@.len()
                &&& old(reader).data@.subrange(old(reader).pos as int, final(reader).pos as int)
                    == spec_clip_meta_bytes(*final(c), old(reader).spec_big())
                &&& final(c).name@ == old(c).name@
                &&& final(c).some_bool == old(c).some_bool
                &&& final(c).full == old(c).full
                &&& final(c).one == old(c).one
            },
            Err(e) => *final(c) == *old(c) && e matches CharClipSamplesReadError::Stream(_),
        },
{
    let ghost dat = reader.data@;
    let ghost start = reader.pos as int;
    let ghost big = reader.spec_big();
    let start_beat = match reader.read_f32_bits() {
        Ok(v) => v,
        Err(e) => {
            return Err(CharClipSamplesReadError::Stream(e));
        },
    };
    let ghost p1 = reader.pos as int;
    let end_beat = match reader.read_f32_bits() {
        Ok(v) => v,
        Err(e) => {
            return Err(CharClipSamplesReadError::Stream(e));
        },
    };
    let ghost p2 = reader.pos as int;
    let beats_per_sec = match reader.read_f32_bits() {
        Ok(v) => v,
        Err(e) => {
            return Err(CharClipSamplesReadError::Stream(e));
        },
    };
    let ghost p3 = reader.pos as int;
    let play_flags = match reader.read_u32() {
        Ok(v) => v,
        Err(e) => {
            return Err(CharClipSamplesReadError::Stream(e));
        },
    };
    let ghost p4 = reader.pos as int;
    let blend_width = match reader.read_f32_bits() {
        Ok(v) => v,
        Err(e) => {
            return Err(CharClipSamplesReadError::Stream(e));
        },
    };
    c.start_beat = start_beat;
    c.end_beat = end_beat;
    c.beats_per_sec = beats_per_sec;
    c.play_flags = play_flags;
    c.blend_width = blend_width;
    proof {
        lemma_u32_bytes_of(big, dat[start], dat[start + 1], dat[start + 2], dat[start + 3]);
        lemma_u32_bytes_of(big, dat[p1], dat[p1 + 1], dat[p1 + 2], dat[p1 + 3]);
        lemma_u32_bytes_of(big, dat[p2], dat[p2 + 1], dat[p2 + 2], dat[p2 + 3]);
        lemma_u32_bytes_of(big, dat[p3], dat[p3 + 1], dat[p3 + 2], dat[p3 + 3]);
        lemma_u32_bytes_of(big, dat[p4], dat[p4 + 1], dat[p4 + 2], dat[p4 + 3]);
        assert(dat.subrange(start, reader.pos as int) =~= spec_clip_meta_bytes(*c, big));
    }
    Ok(())
}

/// Writes the clip metadata block.
fn save_char_clip(c: &CharClipSamples, writer: &mut ByteWriter)
    ensures
        final(writer).endian == old(writer).endian,
        final(writer).data@ == old(writer).data@ + spec_clip_meta_bytes(
            *c,
            old(writer).spec_big(),
        ),
{
    writer.write_f32_bits(c.start_beat);
    writer.write_f32_bits(c.end_beat);
    writer.write_f32_bits(c.beats_per_sec);
    writer.write_u32(c.play_flags);
    writer.write_f32_bits(c.blend_width);
    proof {
        assert(final(writer).data@ =~= old(writer).data@ + spec_clip_meta_bytes(
            *c,
            old(writer).spec_big(),
        ));
    }
}

impl CharClipSamples {
    /// Loads a clip: version, metadata, the version-gated boolean, the two
    /// banks (split header/data layout below version 13, self-contained
    /// banks from version 13 on), and for versions above 14 a discarded
    /// extra bone list.
    pub fn load(&mut self, reader: &mut ByteReader) -> (r: Result<(), CharClipSamplesReadError>)
        requires
            old(reader).wf(),
        ensures
            final(reader).same_stream(old(reader)),
            final(reader).wf(),
            match r {
                Ok(()) => {
                    let big = old(reader).spec_big();
                    let version = spec_u32_of(
                        big,
                        old(reader).data@[old(reader).pos as int],
                        old(reader).data@[old(reader).pos + 1],
                        old(reader).data@[old(reader).pos + 2],
                        old(reader).data@[old(reader).pos + 3],
                    );
                    &&& old(reader).pos + 24 <= final(reader).pos <= old(reader).data@.len()
                    &&& (version == 10 || version == 11 || version == 16)
                    &&& final(self).name@ == old(self).name@
                    &&& old(reader).data@.subrange(old(reader).pos + 4, old(reader).pos + 24)
                        == spec_clip_meta_bytes(*final(self), big)
                    &&& (version >= 16 ==> final(self).some_bool == (old(reader).data@[old(
                        reader,
                    ).pos + 24] != 0))
                    &&& (version < 16 ==> final(self).some_bool == old(self).some_bool)
                    &&& spec_syms_wf(final(self).full.bones@)
                    &&& spec_syms_wf(final(self).one.bones@)
                    &&& final(self).full.samples matches EncodedSamples::Compressed(fb, _)
                        && spec_descs(fb@) == spec_descs(final(self).full.bones@)
                    &&& final(self).one.samples matches EncodedSamples::Compressed(ob, _)
                        && spec_descs(ob@) == spec_descs(final(self).one.bones@)
                },
                Err(CharClipSamplesReadError::CharClipSamplesNotSupported { version }) => {
                    &&& old(reader).pos + 4 <= old(reader).data@.len()
                    &&& version == spec_u32_of(
                        old(reader).spec_big(),
                        old(reader).data@[old(reader).pos as int],
                        old(reader).data@[old(reader).pos + 1],
                        old(reader).data@[old(reader).pos + 2],
                        old(reader).data@[old(reader).pos + 3],
                    )
                    &&& version != 10 && version != 11 && version != 16
                    &&& final(reader).pos == old(reader).pos + 4
                    &&& *final(self) == *old(self)
                },
                Err(_) => *final(self) == *old(self),
            },
            // The unsupported-version error comes on exactly the streams
            // whose leading word is readable and names another version.
            ({
                let version = spec_u32_of(
                    old(reader).spec_big(),
                    old(reader).data@[old(reader).pos as int],
                    old(reader).data@[old(reader).pos + 1],
                    old(reader).data@[old(reader).pos + 2],
                    old(reader).data@[old(reader).pos + 3],
                );
                old(reader).pos + 4 <= old(reader).data@.len() && version != 10 && version != 11
                    && version != 16
            }) ==> r matches Err(
                CharClipSamplesReadError::CharClipSamplesNotSupported { version },
            ),
    {
        let version = match reader.read_u32() {
            Ok(v) => v,
            Err(e) => {
                return Err(CharClipSamplesReadError::Stream(e));
            },
        };
        if !is_version_supported(version) {
            return Err(CharClipSamplesReadError::CharClipSamplesNotSupported { version });
        }
        let mut clip = CharClipSamples::default();
        match load_char_clip(&mut clip, reader) {
            Ok(()) => {},
            Err(e) => {
                return Err(e);
            },
        };
        let ghost meta_clip = clip;
        proof {
            assert(spec_clip_meta_bytes(meta_clip, old(reader).spec_big()).len() == 20);
        }
        let some_bool: bool = if version >= 16 {
            match reader.read_bool() {
                Ok(v) => v,
                Err(e) => {
                    return Err(CharClipSamplesReadError::Stream(e));
                },
            }
        } else {
            self.some_bool
        };
        let mut full = CharBonesSamples::default();
        let mut one = CharBonesSamples::default();
        if version < 13 {
            let (full_bones, full_sample_count) = match load_char_bones_samples_header(
                &mut full,
                reader,
                version,
            ) {
                Ok(v) => v,
                Err(e) => {
                    return Err(CharClipSamplesReadError::Bank(e));
                },
            };
            let (one_bones, one_sample_count) = match load_char_bones_samples_header(
                &mut one,
                reader,
                version,
            ) {
                Ok(v) => v,
                Err(e) => {
                    return Err(CharClipSamplesReadError::Bank(e));
                },
            };
            if version > 7 {
                // The stream holds a duplicate serialized header that must be
                // read, not skipped, to keep the stream position.
                let mut scratch = CharBonesSamples::default();
                match load_char_bones_samples_header(&mut scratch, reader, version) {
                    Ok(_) => {},
                    Err(e) => {
                        return Err(CharClipSamplesReadError::Bank(e));
                    },
                };
            }
            match load_char_bones_samples_data(
                &mut full,
                reader,
                version,
                full_bones,
                full_sample_count,
            ) {
                Ok(()) => {},
                Err(e) => {
                    return Err(CharClipSamplesReadError::Bank(e));
                },
            };
            match load_char_bones_samples_data(
                &mut one,
                reader,
                version,
                one_bones,
                one_sample_count,
            ) {
                Ok(()) => {},
                Err(e) => {
                    return Err(CharClipSamplesReadError::Bank(e));
                },
            };
        } else {
            match load_char_bones_samples(&mut full, reader) {
                Ok(()) => {},
                Err(e) => {
                    return Err(CharClipSamplesReadError::Bank(e));
                },
            };
            match load_char_bones_samples(&mut one, reader) {
                Ok(()) => {},
                Err(e) => {
                    return Err(CharClipSamplesReadError::Bank(e));
                },
            };
        }
        if version > 14 {
            let bone_count = match reader.read_u32() {
                Ok(v) => v,
                Err(e) => {
                    return Err(CharClipSamplesReadError::Stream(e));
                },
            };
            let mut i: u32 = 0;
            while i < bone_count
                invariant
                    reader.same_stream(old(reader)),
                    reader.wf(),
                    *self == *old(self),
                    old(reader).pos + 24 <= reader.pos,
                    old(reader).pos + 4 <= old(reader).data@.len(),
                    spec_u32_of(
                        old(reader).spec_big(),
                        old(reader).data@[old(reader).pos as int],
                        old(reader).data@[old(reader).pos + 1],
                        old(reader).data@[old(reader).pos + 2],
                        old(reader).data@[old(reader).pos + 3],
                    ) == 16,
                decreases bone_count - i,
            {
                match reader.read_prefixed_string() {
                    Ok(_) => {},
                    Err(e) => {
                        return Err(CharClipSamplesReadError::Stream(e));
                    },
                };
                match reader.read_f32_bits() {
                    Ok(_) => {},
                    Err(e) => {
                        return Err(CharClipSamplesReadError::Stream(e));
                    },
                };
                i = i + 1;
            }
        }
        self.start_beat = clip.start_beat;
        self.end_beat = clip.end_beat;
        self.beats_per_sec = clip.beats_per_sec;
        self.play_flags = clip.play_flags;
        self.blend_width = clip.blend_width;
        self.some_bool = some_bool;
        self.full = full;
        self.one = one;
        proof {
            assert(spec_clip_meta_bytes(*self, old(reader).spec_big()) =~= spec_clip_meta_bytes(
                meta_clip,
                old(reader).spec_big(),
            ));
        }
        Ok(())
    }

    /// Saves a clip.  The version is 13 when the full bank carries an
    /// explicit frame list and 11 otherwise; below 13 the two banks are
    /// written as split parts — both headers, one deliberately duplicated
    /// discarded header, then both data sections.  Writing the extra bone
    /// list of versions above 14 is not supported, and never chosen here.
    pub fn save(&self, writer: &mut ByteWriter)
        requires
            spec_syms_wf(self.full.bones@),
            self.full.bones@.len() <= u32::MAX,
            spec_sample_count(&self.full) <= u32::MAX,
            self.full.frames@.len() <= u32::MAX,
            spec_syms_wf(self.one.bones@),
            self.one.bones@.len() <= u32::MAX,
            spec_sample_count(&self.one) <= u32::MAX,
            self.one.frames@.len() <= u32::MAX,
        ensures
            final(writer).endian == old(writer).endian,
            final(writer).data@ == old(writer).data@ + spec_clip_save_bytes(
                *self,
                old(writer).spec_big(),
            ),
    {
        let ghost big = old(writer).spec_big();
        let version: u32 = if self.full.frames.len() > 0 {
            13
        } else {
            11
        };
        writer.write_u32(version);
        save_char_clip(self, writer);
        let ghost after_meta = writer.data@;
        save_clip_banks(self, writer, version);
        proof {
            assert(after_meta =~= old(writer).data@ + spec_u32_bytes(big, version)
                + spec_clip_meta_bytes(*self, big));
            assert(final(writer).data@ =~= old(writer).data@ + spec_clip_save_bytes(*self, big));
        }
    }
}

/// The serialized bank section of one clip: split headers and data below
/// version 13, self-contained banks from 13 on.
pub open spec fn spec_clip_banks_bytes(c: CharClipSamples, version: u32, big: bool) -> Seq<u8> {
    if version < 13 {
        spec_bank_header_bytes(c.full, version, big) + spec_bank_header_bytes(c.one, version, big)
            + spec_empty_bank_header_bytes(version, big) + spec_bank_data_bytes(c.full, big)
            + spec_bank_data_bytes(c.one, big)
    } else {
        spec_u32_bytes(big, version) + spec_bank_header_bytes(c.full, version, big)
            + spec_bank_data_bytes(c.full, big) + spec_u32_bytes(big, version)
            + spec_bank_header_bytes(c.one, version, big) + spec_bank_data_bytes(c.one, big)
    }
}

/// Writes the bank section of one clip.
#[verifier::rlimit(100)]
fn save_clip_banks(c: &CharClipSamples, writer: &mut ByteWriter, version: u32)
    requires
        spec_syms_wf(c.full.bones@),
        c.full.bones@.len() <= u32::MAX,
        spec_sample_count(&c.full) <= u32::MAX,
        c.full.frames@.len() <= u32::MAX,
        spec_syms_wf(c.one.bones@),
        c.one.bones@.len() <= u32::MAX,
        spec_sample_count(&c.one) <= u32::MAX,
        c.one.frames@.len() <= u32::MAX,
    ensures
        final(writer).endian == old(writer).endian,
        final(writer).data@ == old(writer).data@ + spec_clip_banks_bytes(
            *c,
            version,
            old(writer).spec_big(),
        ),
{
    if version < 13 {
        save_clip_banks_split(c, writer, version);
    } else {
        save_clip_banks_whole(c, writer, version);
    }
}

/// Writes the pre-13 bank section: both headers, the duplicate discarded
/// header, then both data sections.
#[verifier::rlimit(100)]
fn save_clip_banks_split(c: &CharClipSamples, writer: &mut ByteWriter, version: u32)
    requires
        version < 13,
        spec_syms_wf(c.full.bones@),
        c.full.bones@.len() <= u32::MAX,
        spec_sample_count(&c.full) <= u32::MAX,
        c.full.frames@.len() <= u32::MAX,
        spec_syms_wf(c.one.bones@),
        c.one.bones@.len() <= u32::MAX,
        spec_sample_count(&c.one) <= u32::MAX,
        c.one.frames@.len() <= u32::MAX,
    ensures
        final(writer).endian == old(writer).endian,
        final(writer).data@ == old(writer).data@ + spec_clip_banks_bytes(
            *c,
            version,
            old(writer).spec_big(),
        ),
{
    let ghost big = old(writer).spec_big();
    save_char_bones_samples_header(&c.full, writer, version);
    save_char_bones_samples_header(&c.one, writer, version);
    // Written and ignored on load either way; mirror the duplicated
    // header with an empty bank.
    let scratch = CharBonesSamples::default();
    save_char_bones_samples_header(&scratch, writer, version);
    proof {
        assert(scratch.bones@ == Seq::<CharBone4Bone>::empty());
        assert(scratch.frames@ == Seq::<u32>::empty());
        assert(spec_sample_count(&scratch) == 0) by {
            if let EncodedSamples::Uncompressed(ref ss) = scratch.samples {
                assert(ss@ == Seq::<crate::char_bones_samples::CharBoneSample>::empty());
            }
        }
        assert(writer.data@ == old(writer).data@ + spec_bank_header_bytes(c.full, version, big)
            + spec_bank_header_bytes(c.one, version, big) + spec_empty_bank_header_bytes(
            version,
            big,
        ));
    }
    save_char_bones_samples_data(&c.full, writer);
    save_char_bones_samples_data(&c.one, writer);
    proof {
        assert(writer.data@ =~= old(writer).data@ + spec_clip_banks_bytes(*c, version, big));
    }
}

/// Writes the version-13-and-later bank section: each bank fully
/// self-contained.
#[verifier::rlimit(100)]
fn save_clip_banks_whole(c: &CharClipSamples, writer: &mut ByteWriter, version: u32)
    requires
        version >= 13,
        spec_syms_wf(c.full.bones@),
        c.full.bones@.len() <= u32::MAX,
        spec_sample_count(&c.full) <= u32::MAX,
        c.full.frames@.len() <= u32::MAX,
        spec_syms_wf(c.one.bones@),
        c.one.bones@.len() <= u32::MAX,
        spec_sample_count(&c.one) <= u32::MAX,
        c.one.frames@.len() <= u32::MAX,
    ensures
        final(writer).endian == old(writer).endian,
        final(writer).data@ == old(writer).data@ + spec_clip_banks_bytes(
            *c,
            version,
            old(writer).spec_big(),
        ),
{
    let ghost big = old(writer).spec_big();
    save_char_bones_samples(&c.full, writer, version);
    save_char_bones_samples(&c.one, writer, version);
    proof {
        assert(writer.data@ =~= old(writer).data@ + spec_clip_banks_bytes(*c, version, big));
    }
}

} // verus!
