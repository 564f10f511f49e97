//! Binary codec for sample banks.
//!
//! Layout: `version:u32` (whole-bank form only), then the header — descriptor
//! count, per descriptor a length-prefixed name and (for versions above 10) a
//! 32-bit float weight, an offset/count table of 7 entries (10 for versions
//! below 16, the trailing three repeating the last entry on save), the
//! compression level, the sample count, and for versions above 11 an explicit
//! per-frame time list — then the raw per-frame records.  Every multi-byte
//! field honours the stream's byte order; float fields are carried as raw
//! bit patterns.

use vstd::prelude::*;

use crate::char_bones_samples::{
    spec_field_size, spec_offset, spec_sample_count, spec_type_of, CharBone4Bone,
    CharBonesSamples, EncodedSamples,
};
use crate::stream::{spec_align4, spec_u32_bytes, spec_u32_of, ByteReader, ByteWriter, StreamError};
use vstd::utf8::is_ascii_chars;

verus! {

/// An error raised while loading a sample bank.
#[derive(Clone, Copy, Debug, PartialEq, Eq, Structural)]
pub enum CharBonesSamplesReadError {
    /// The bank names a format version this codec does not support.
    CharBonesSamplesNotSupported { version: u32 },
    /// The stream ended early or held a malformed name.
    Stream(StreamError),
    /// Bytes remained after the bank's last record.
    TrailingData { remaining: usize },
    /// The stored offset/count table disagrees with the one the descriptor
    /// types derive, so re-serializing would not reproduce the stream.
    InconsistentCounts,
}

/// The bit pattern of the 32-bit float `1.0`, the weight assumed for
/// versions that do not store one.
pub const WEIGHT_ONE_BITS: u32 = 0x3F80_0000;

/// The one format version the whole-bank loader accepts.
pub fn is_version_supported(version: u32) -> (r: bool)
    ensures
        r == (version == 16),
{
    match version {
        16 => true,
        _ => false,
    }
}

/// Every descriptor symbol is ASCII and short enough for a 32-bit length
/// prefix, so the bank can be serialized.
pub open spec fn spec_syms_wf(bs: Seq<CharBone4Bone>) -> bool {
    forall|k: int|
        0 <= k < bs.len() ==> is_ascii_chars((#[trigger] bs[k]).symbol@) && bs[k].symbol@.len()
            <= u32::MAX
}

/// Number of descriptors whose type code is below `i`.
pub open spec fn spec_count_below(bs: Seq<CharBone4Bone>, i: int) -> int
    decreases bs.len(),
{
    if bs.len() == 0 {
        0
    } else {
        spec_count_below(bs.drop_last(), i) + (if spec_type_of(bs.last().symbol@) < i {
            1int
        } else {
            0int
        })
    }
}

/// The derived offset/count table: entry `i` counts the descriptors of type
/// below `i`, so entry 0 is 0 and entries grow with `i`.
pub open spec fn spec_counts_of(bs: Seq<CharBone4Bone>) -> Seq<u32> {
    Seq::new(7, |i: int| spec_count_below(bs, i) as u32)
}

pub proof fn lemma_count_below_bounds(bs: Seq<CharBone4Bone>, i: int)
    ensures
        0 <= spec_count_below(bs, i) <= bs.len(),
    decreases bs.len(),
{
    if bs.len() != 0 {
        lemma_count_below_bounds(bs.drop_last(), i);
    }
}

/// One step of the below-`i` count over a growing prefix.
pub proof fn lemma_count_below_step(bs: Seq<CharBone4Bone>, i: int, k: int)
    requires
        0 < k <= bs.len(),
    ensures
        spec_count_below(bs.take(k), i) == spec_count_below(bs.take(k - 1), i) + (if spec_type_of(
            bs[k - 1].symbol@,
        ) < i {
            1int
        } else {
            0int
        }),
{
    assert(bs.take(k).drop_last() =~= bs.take(k - 1));
    assert(bs.take(k).last() == bs[k - 1]);
}

/// The bytes of one length-prefixed ASCII symbol.
pub open spec fn spec_sym_bytes(s: Seq<char>, big: bool) -> Seq<u8> {
    spec_u32_bytes(big, s.len() as u32) + s.map_values(|c: char| c as u8)
}

/// The bytes of one descriptor: symbol, then (above version 10) the weight.
pub open spec fn spec_desc_bytes(b: CharBone4Bone, version: u32, big: bool) -> Seq<u8> {
    spec_sym_bytes(b.symbol@, big) + (if version > 10 {
        spec_u32_bytes(big, b.weight)
    } else {
        Seq::<u8>::empty()
    })
}

/// The bytes of a descriptor list.
pub open spec fn spec_descs_bytes(bs: Seq<CharBone4Bone>, version: u32, big: bool) -> Seq<u8>
    decreases bs.len(),
{
    if bs.len() == 0 {
        Seq::empty()
    } else {
        spec_descs_bytes(bs.drop_last(), version, big) + spec_desc_bytes(bs.last(), version, big)
    }
}

/// One step of the descriptor bytes over a growing prefix.
pub proof fn lemma_descs_bytes_step(bs: Seq<CharBone4Bone>, version: u32, big: bool, k: int)
    requires
        0 < k <= bs.len(),
    ensures
        spec_descs_bytes(bs.take(k), version, big) == spec_descs_bytes(bs.take(k - 1), version, big)
            + spec_desc_bytes(bs[k - 1], version, big),
{
    assert(bs.take(k).drop_last() =~= bs.take(k - 1));
    assert(bs.take(k).last() == bs[k - 1]);
}

/// The bytes of a list of 32-bit values.
pub open spec fn spec_u32s_bytes(vs: Seq<u32>, big: bool) -> Seq<u8>
    decreases vs.len(),
{
    if vs.len() == 0 {
        Seq::empty()
    } else {
        spec_u32s_bytes(vs.drop_last(), big) + spec_u32_bytes(big, vs.last())
    }
}

/// One step of the 32-bit list bytes over a growing prefix.
pub proof fn lemma_u32s_bytes_step(vs: Seq<u32>, big: bool, k: int)
    requires
        0 < k <= vs.len(),
    ensures
        spec_u32s_bytes(vs.take(k), big) == spec_u32s_bytes(vs.take(k - 1), big) + spec_u32_bytes(
            big,
            vs[k - 1],
        ),
{
    assert(vs.take(k).drop_last() =~= vs.take(k - 1));
    assert(vs.take(k).last() == vs[k - 1]);
}

/// The bytes of the offset/count table: the 7 entries, and for versions
/// below 16 three further entries (`extras`, each repeating the last entry
/// on save).
pub open spec fn spec_counts_bytes(
    counts: Seq<u32>,
    extras: Seq<u32>,
    version: u32,
    big: bool,
) -> Seq<u8> {
    if version > 15 {
        spec_u32s_bytes(counts, big)
    } else {
        spec_u32s_bytes(counts, big) + spec_u32s_bytes(extras, big)
    }
}

/// The bytes of a bank header.
pub open spec fn spec_header_bytes(
    bones: Seq<CharBone4Bone>,
    counts: Seq<u32>,
    extras: Seq<u32>,
    compression: u32,
    sample_count: u32,
    frames: Seq<u32>,
    version: u32,
    big: bool,
) -> Seq<u8> {
    spec_u32_bytes(big, bones.len() as u32) + spec_descs_bytes(bones, version, big)
        + spec_counts_bytes(counts, extras, version, big) + spec_u32_bytes(big, compression)
        + spec_u32_bytes(big, sample_count) + (if version > 11 {
        spec_u32_bytes(big, frames.len() as u32) + spec_u32s_bytes(frames, big)
    } else {
        Seq::<u8>::empty()
    })
}

/// The bytes of the raw per-frame records, concatenated.
pub open spec fn spec_records_bytes(recs: Seq<Vec<u8>>) -> Seq<u8>
    decreases recs.len(),
{
    if recs.len() == 0 {
        Seq::empty()
    } else {
        spec_records_bytes(recs.drop_last()) + recs.last()@
    }
}

/// One step of the record bytes over a growing prefix.
pub proof fn lemma_records_bytes_step(recs: Seq<Vec<u8>>, k: int)
    requires
        0 < k <= recs.len(),
    ensures
        spec_records_bytes(recs.take(k)) == spec_records_bytes(recs.take(k - 1)) + recs[k - 1]@,
{
    assert(recs.take(k).drop_last() =~= recs.take(k - 1));
    assert(recs.take(k).last() == recs[k - 1]);
}

/// Derives the offset/count table from the descriptor types, entry `i`
/// counting the descriptors of type below `i`.
pub fn compute_counts(bones: &Vec<CharBone4Bone>) -> (r: Vec<u32>)
    requires
        bones@.len() <= u32::MAX,
    ensures
        r@.len() == 7,
        forall|i: int| 0 <= i < 7 ==> r@[i] == spec_count_below(bones@, i) as u32,
        r@ == spec_counts_of(bones@),
{
    let mut r: Vec<u32> = Vec::new();
    let mut i: usize = 0;
    while i < 7
        invariant
            i <= 7,
            bones@.len() <= u32::MAX,
            r@.len() == i,
            forall|j: int| 0 <= j < i ==> r@[j] == spec_count_below(bones@, j) as u32,
        decreases 7 - i,
    {
        let mut c: u32 = 0;
        let mut k: usize = 0;
        proof {
            assert(bones@.take(0) =~= Seq::<CharBone4Bone>::empty());
        }
        while k < bones.len()
            invariant
                i <= 7,
                k <= bones@.len(),
                bones@.len() <= u32::MAX,
                c == spec_count_below(bones@.take(k as int), i as int),
            decreases bones@.len() - k,
        {
            proof {
                lemma_count_below_bounds(bones@.take(k as int), i as int);
                assert(bones@.take(k as int).len() == k);
            }
            let t = CharBonesSamples::get_type_of(bones[k].symbol.as_str());
            if t < i as u32 {
                c = c + 1;
            }
            k = k + 1;
            proof {
                lemma_count_below_step(bones@, i as int, k as int);
            }
        }
        proof {
            assert(bones@.take(bones@.len() as int) =~= bones@);
        }
        r.push(c);
        i = i + 1;
    }
    proof {
        assert(r@ =~= spec_counts_of(bones@));
    }
    r
}

/// Writes the descriptor section: the count, then each descriptor.
fn write_descs(writer: &mut ByteWriter, bones: &Vec<CharBone4Bone>, version: u32)
    requires
        spec_syms_wf(bones@),
        bones@.len() <= u32::MAX,
    ensures
        final(writer).endian == old(writer).endian,
        final(writer).data@ == old(writer).data@ + spec_u32_bytes(
            old(writer).spec_big(),
            bones@.len() as u32,
        ) + spec_descs_bytes(bones@, version, old(writer).spec_big()),
{
    let ghost big = old(writer).spec_big();
    writer.write_u32(bones.len() as u32);
    let ghost after_count = writer.data@;
    let mut k: usize = 0;
    proof {
        assert(spec_descs_bytes(bones@.take(0), version, big) =~= Seq::<u8>::empty());
        assert(writer.data@ =~= after_count + spec_descs_bytes(bones@.take(0), version, big));
    }
    while k < bones.len()
        invariant
            k <= bones@.len(),
            spec_syms_wf(bones@),
            writer.endian == old(writer).endian,
            big == old(writer).spec_big(),
            writer.data@ == after_count + spec_descs_bytes(bones@.take(k as int), version, big),
        decreases bones@.len() - k,
    {
        writer.write_prefixed_string(&bones[k].symbol);
        if version > 10 {
            writer.write_f32_bits(bones[k].weight);
        }
        k = k + 1;
        proof {
            lemma_descs_bytes_step(bones@, version, big, k as int);
            assert(writer.data@ =~= after_count + spec_descs_bytes(
                bones@.take(k as int),
                version,
                big,
            ));
        }
    }
    proof {
        assert(bones@.take(bones@.len() as int) =~= bones@);
    }
}

/// Writes the offset/count table derived from the descriptor types; for
/// versions below 16 the three extra entries repeat the last one.
fn write_counts_table(writer: &mut ByteWriter, bones: &Vec<CharBone4Bone>, version: u32)
    requires
        bones@.len() <= u32::MAX,
    ensures
        final(writer).endian == old(writer).endian,
        final(writer).data@ == old(writer).data@ + spec_counts_bytes(
            spec_counts_of(bones@),
            seq![
                spec_counts_of(bones@)[6],
                spec_counts_of(bones@)[6],
                spec_counts_of(bones@)[6],
            ],
            version,
            old(writer).spec_big(),
        ),
{
    let ghost big = old(writer).spec_big();
    let counts = compute_counts(bones);
    let mut i: usize = 0;
    proof {
        assert(spec_u32s_bytes(counts@.take(0), big) =~= Seq::<u8>::empty());
        assert(writer.data@ =~= old(writer).data@ + spec_u32s_bytes(counts@.take(0), big));
    }
    while i < 7
        invariant
            i <= 7,
            counts@.len() == 7,
            writer.endian == old(writer).endian,
            big == old(writer).spec_big(),
            writer.data@ == old(writer).data@ + spec_u32s_bytes(counts@.take(i as int), big),
        decreases 7 - i,
    {
        writer.write_u32(counts[i]);
        i = i + 1;
        proof {
            lemma_u32s_bytes_step(counts@, big, i as int);
            assert(writer.data@ =~= old(writer).data@ + spec_u32s_bytes(
                counts@.take(i as int),
                big,
            ));
        }
    }
    proof {
        assert(counts@.take(7) =~= counts@);
    }
    if version <= 15 {
        let last = counts[6];
        writer.write_u32(last);
        writer.write_u32(last);
        writer.write_u32(last);
        proof {
            let ghost ex = seq![counts@[6], counts@[6], counts@[6]];
            let ghost ex2 = ex.drop_last();
            let ghost ex1 = ex2.drop_last();
            let ghost ex0 = ex1.drop_last();
            assert(ex0 =~= Seq::<u32>::empty());
            assert(spec_u32s_bytes(ex0, big) == Seq::<u8>::empty());
            assert(spec_u32s_bytes(ex1, big) == spec_u32s_bytes(ex0, big) + spec_u32_bytes(
                big,
                ex1.last(),
            ));
            assert(spec_u32s_bytes(ex2, big) == spec_u32s_bytes(ex1, big) + spec_u32_bytes(
                big,
                ex2.last(),
            ));
            assert(spec_u32s_bytes(ex, big) == spec_u32s_bytes(ex2, big) + spec_u32_bytes(
                big,
                ex.last(),
            ));
            assert(ex.last() == counts@[6] && ex2.last() == counts@[6] && ex1.last() == counts@[6]);
            assert(writer.data@ =~= old(writer).data@ + spec_u32s_bytes(counts@, big)
                + spec_u32s_bytes(ex, big));
        }
    }
}

/// Writes a 32-bit float-bit list.
fn write_u32s(writer: &mut ByteWriter, vs: &Vec<u32>)
    ensures
        final(writer).endian == old(writer).endian,
        final(writer).data@ == old(writer).data@ + spec_u32s_bytes(vs@, old(writer).spec_big()),
{
    let ghost big = old(writer).spec_big();
    let mut f: usize = 0;
    proof {
        assert(spec_u32s_bytes(vs@.take(0), big) =~= Seq::<u8>::empty());
        assert(writer.data@ =~= old(writer).data@ + spec_u32s_bytes(vs@.take(0), big));
    }
    while f < vs.len()
        invariant
            f <= vs@.len(),
            writer.endian == old(writer).endian,
            big == old(writer).spec_big(),
            writer.data@ == old(writer).data@ + spec_u32s_bytes(vs@.take(f as int), big),
        decreases vs@.len() - f,
    {
        writer.write_u32(vs[f]);
        f = f + 1;
        proof {
            lemma_u32s_bytes_step(vs@, big, f as int);
            assert(writer.data@ =~= old(writer).data@ + spec_u32s_bytes(vs@.take(f as int), big));
        }
    }
    proof {
        assert(vs@.take(vs@.len() as int) =~= vs@);
    }
}

/// Writes a bank header.  The offset/count table written is the one derived
/// from the descriptor types, not the stored one; versions below 16 write
/// ten entries, the last three repeating entry 6.
#[verifier::rlimit(100)]
pub fn save_char_bones_samples_header(
    cbs: &CharBonesSamples,
    writer: &mut ByteWriter,
    version: u32,
)
    requires
        spec_syms_wf(cbs.bones@),
        cbs.bones@.len() <= u32::MAX,
        spec_sample_count(cbs) <= u32::MAX,
        cbs.frames@.len() <= u32::MAX,
    ensures
        final(writer).endian == old(writer).endian,
        final(writer).data@ == old(writer).data@ + spec_header_bytes(
            cbs.bones@,
            spec_counts_of(cbs.bones@),
            seq![
                spec_counts_of(cbs.bones@)[6],
                spec_counts_of(cbs.bones@)[6],
                spec_counts_of(cbs.bones@)[6],
            ],
            cbs.compression,
            spec_sample_count(cbs) as u32,
            cbs.frames@,
            version,
            old(writer).spec_big(),
        ),
{
    let ghost big = old(writer).spec_big();
    write_descs(writer, &cbs.bones, version);
    write_counts_table(writer, &cbs.bones, version);
    writer.write_u32(cbs.compression);
    let sample_count = cbs.get_sample_count();
    writer.write_u32(sample_count as u32);
    if version > 11 {
        writer.write_u32(cbs.frames.len() as u32);
        write_u32s(writer, &cbs.frames);
    }
    proof {
        assert(writer.data@ =~= old(writer).data@ + spec_header_bytes(
            cbs.bones@,
            spec_counts_of(cbs.bones@),
            seq![
                spec_counts_of(cbs.bones@)[6],
                spec_counts_of(cbs.bones@)[6],
                spec_counts_of(cbs.bones@)[6],
            ],
            cbs.compression,
            spec_sample_count(cbs) as u32,
            cbs.frames@,
            version,
            big,
        ));
    }
}

} // verus!

use crate::char_bones_samples::{CharBoneSample, QuatSample, RotSample, Vec3Sample};
use crate::stream::spec_u16_bytes;

verus! {

/// The bytes of one three-component sample, in its own precision.
pub open spec fn spec_vec3_bytes(v: Vec3Sample, big: bool) -> Seq<u8> {
    match v {
        Vec3Sample::Full(x, y, z) => spec_u32_bytes(big, x) + spec_u32_bytes(big, y)
            + spec_u32_bytes(big, z),
        Vec3Sample::Packed(a, b, c) => spec_u16_bytes(big, a as u16) + spec_u16_bytes(big, b as u16)
            + spec_u16_bytes(big, c as u16),
    }
}

/// The bytes of one quaternion sample, in its own precision.
pub open spec fn spec_quat_bytes(q: QuatSample, big: bool) -> Seq<u8> {
    match q {
        QuatSample::Full(x, y, z, w) => spec_u32_bytes(big, x) + spec_u32_bytes(big, y)
            + spec_u32_bytes(big, z) + spec_u32_bytes(big, w),
        QuatSample::Packed(a, b, c, d) => spec_u16_bytes(big, a as u16) + spec_u16_bytes(
            big,
            b as u16,
        ) + spec_u16_bytes(big, c as u16) + spec_u16_bytes(big, d as u16),
    }
}

/// The bytes of one single-axis rotation sample, in its own precision.
pub open spec fn spec_rot_bytes(r: RotSample, big: bool) -> Seq<u8> {
    match r {
        RotSample::Full(x) => spec_u32_bytes(big, x),
        RotSample::Packed(a) => spec_u16_bytes(big, a as u16),
    }
}

/// The three-component value written for frame `f`: the frame's own sample,
/// the last one when the array ends early, or zero when it is empty.
pub open spec fn spec_vec3_at(vals: Seq<Vec3Sample>, f: int, compression: u32) -> Vec3Sample {
    if vals.len() == 0 {
        if compression < 2 {
            Vec3Sample::Full(0, 0, 0)
        } else {
            Vec3Sample::Packed(0, 0, 0)
        }
    } else if f < vals.len() {
        vals[f]
    } else {
        vals.last()
    }
}

/// As [`spec_vec3_at`], for quaternion samples.
pub open spec fn spec_quat_at(vals: Seq<QuatSample>, f: int, compression: u32) -> QuatSample {
    if vals.len() == 0 {
        if compression == 0 {
            QuatSample::Full(0, 0, 0, 0)
        } else {
            QuatSample::Packed(0, 0, 0, 0)
        }
    } else if f < vals.len() {
        vals[f]
    } else {
        vals.last()
    }
}

/// As [`spec_vec3_at`], for single-axis rotation samples.
pub open spec fn spec_rot_at(vals: Seq<RotSample>, f: int, compression: u32) -> RotSample {
    if vals.len() == 0 {
        if compression == 0 {
            RotSample::Full(0)
        } else {
            RotSample::Packed(0)
        }
    } else if f < vals.len() {
        vals[f]
    } else {
        vals.last()
    }
}

/// The position segment of frame `f`: one field per bone with position
/// samples, in bone order.
pub open spec fn spec_frame_pos_bytes(
    ss: Seq<CharBoneSample>,
    f: int,
    compression: u32,
    big: bool,
) -> Seq<u8>
    decreases ss.len(),
{
    if ss.len() == 0 {
        Seq::empty()
    } else {
        spec_frame_pos_bytes(ss.drop_last(), f, compression, big) + (match ss.last().pos {
            Some((_, ref vals)) => spec_vec3_bytes(spec_vec3_at(vals@, f, compression), big),
            None => Seq::<u8>::empty(),
        })
    }
}

/// The quaternion segment of frame `f`.
pub open spec fn spec_frame_quat_bytes(
    ss: Seq<CharBoneSample>,
    f: int,
    compression: u32,
    big: bool,
) -> Seq<u8>
    decreases ss.len(),
{
    if ss.len() == 0 {
        Seq::empty()
    } else {
        spec_frame_quat_bytes(ss.drop_last(), f, compression, big) + (match ss.last().quat {
            Some((_, ref vals)) => spec_quat_bytes(spec_quat_at(vals@, f, compression), big),
            None => Seq::<u8>::empty(),
        })
    }
}

/// The z-rotation segment of frame `f`.
pub open spec fn spec_frame_rot_bytes(
    ss: Seq<CharBoneSample>,
    f: int,
    compression: u32,
    big: bool,
) -> Seq<u8>
    decreases ss.len(),
{
    if ss.len() == 0 {
        Seq::empty()
    } else {
        spec_frame_rot_bytes(ss.drop_last(), f, compression, big) + (match ss.last().rotz {
            Some((_, ref vals)) => spec_rot_bytes(spec_rot_at(vals@, f, compression), big),
            None => Seq::<u8>::empty(),
        })
    }
}

/// One frame record written from decoded samples: positions, then
/// quaternions, then z-rotations.  Scale samples are not serialized.
pub open spec fn spec_frame_bytes(
    ss: Seq<CharBoneSample>,
    f: int,
    compression: u32,
    big: bool,
) -> Seq<u8> {
    spec_frame_pos_bytes(ss, f, compression, big) + spec_frame_quat_bytes(ss, f, compression, big)
        + spec_frame_rot_bytes(ss, f, compression, big)
}

/// The first `n` frame records written from decoded samples.
pub open spec fn spec_unc_data_bytes(
    ss: Seq<CharBoneSample>,
    n: int,
    compression: u32,
    big: bool,
) -> Seq<u8>
    decreases n,
{
    if n <= 0 {
        Seq::empty()
    } else {
        spec_unc_data_bytes(ss, n - 1, compression, big) + spec_frame_bytes(
            ss,
            n - 1,
            compression,
            big,
        )
    }
}

/// The longest position, quaternion or z-rotation array over the samples:
/// how many frame records the data section holds.
pub open spec fn spec_unc_count(ss: Seq<CharBoneSample>) -> int
    decreases ss.len(),
{
    if ss.len() == 0 {
        0
    } else {
        let s = ss.last();
        let p: int = match s.pos {
            Some((_, ref v)) => v@.len() as int,
            None => 0,
        };
        let q: int = match s.quat {
            Some((_, ref v)) => v@.len() as int,
            None => 0,
        };
        let rz: int = match s.rotz {
            Some((_, ref v)) => v@.len() as int,
            None => 0,
        };
        vstd::math::max(
            spec_unc_count(ss.drop_last()),
            vstd::math::max(p, vstd::math::max(q, rz)),
        )
    }
}

/// Writes one three-component sample.
fn write_vec3(writer: &mut ByteWriter, v: &Vec3Sample)
    ensures
        final(writer).endian == old(writer).endian,
        final(writer).data@ == old(writer).data@ + spec_vec3_bytes(*v, old(writer).spec_big()),
{
    match v {
        Vec3Sample::Full(x, y, z) => {
            writer.write_f32_bits(*x);
            writer.write_f32_bits(*y);
            writer.write_f32_bits(*z);
        },
        Vec3Sample::Packed(a, b, c) => {
            writer.write_i16(*a);
            writer.write_i16(*b);
            writer.write_i16(*c);
        },
    }
    proof {
        assert(writer.data@ =~= old(writer).data@ + spec_vec3_bytes(*v, old(writer).spec_big()));
    }
}

/// Writes one quaternion sample.
fn write_quat(writer: &mut ByteWriter, q: &QuatSample)
    ensures
        final(writer).endian == old(writer).endian,
        final(writer).data@ == old(writer).data@ + spec_quat_bytes(*q, old(writer).spec_big()),
{
    match q {
        QuatSample::Full(x, y, z, w) => {
            writer.write_f32_bits(*x);
            writer.write_f32_bits(*y);
            writer.write_f32_bits(*z);
            writer.write_f32_bits(*w);
        },
        QuatSample::Packed(a, b, c, d) => {
            writer.write_i16(*a);
            writer.write_i16(*b);
            writer.write_i16(*c);
            writer.write_i16(*d);
        },
    }
    proof {
        assert(writer.data@ =~= old(writer).data@ + spec_quat_bytes(*q, old(writer).spec_big()));
    }
}

/// Writes one single-axis rotation sample.
fn write_rot(writer: &mut ByteWriter, r: &RotSample)
    ensures
        final(writer).endian == old(writer).endian,
        final(writer).data@ == old(writer).data@ + spec_rot_bytes(*r, old(writer).spec_big()),
{
    match r {
        RotSample::Full(x) => {
            writer.write_f32_bits(*x);
        },
        RotSample::Packed(a) => {
            writer.write_i16(*a);
        },
    }
    proof {
        assert(writer.data@ =~= old(writer).data@ + spec_rot_bytes(*r, old(writer).spec_big()));
    }
}

} // verus!

verus! {

/// Writes the data section.  An encoded bank's raw records go out verbatim;
/// a decoded bank writes, for each frame, the position fields of every bone
/// that has them, then the quaternion fields, then the z-rotation fields,
/// repeating a bone's last sample when its array ends early.  Every value
/// is written in its own precision: packing full-precision values into a
/// compression level's 16-bit form is front-end float work that must happen
/// before serialization.
pub fn save_char_bones_samples_data(cbs: &CharBonesSamples, writer: &mut ByteWriter)
    ensures
        final(writer).endian == old(writer).endian,
        match cbs.samples {
            EncodedSamples::Compressed(_, ref recs) => final(writer).data@ == old(writer).data@
                + spec_records_bytes(recs@),
            EncodedSamples::Uncompressed(ref ss) => final(writer).data@ == old(writer).data@
                + spec_unc_data_bytes(
                ss@,
                spec_unc_count(ss@),
                cbs.compression,
                old(writer).spec_big(),
            ),
        },
{
    let ghost big = old(writer).spec_big();
    let samples = match &cbs.samples {
        EncodedSamples::Compressed(_, raw_samples) => {
            let mut k: usize = 0;
            proof {
                assert(spec_records_bytes(raw_samples@.take(0)) =~= Seq::<u8>::empty());
                assert(writer.data@ =~= old(writer).data@ + spec_records_bytes(
                    raw_samples@.take(0),
                ));
            }
            while k < raw_samples.len()
                invariant
                    k <= raw_samples@.len(),
                    writer.endian == old(writer).endian,
                    writer.data@ == old(writer).data@ + spec_records_bytes(
                        raw_samples@.take(k as int),
                    ),
                decreases raw_samples@.len() - k,
            {
                writer.write_bytes(&raw_samples[k]);
                k = k + 1;
                proof {
                    lemma_records_bytes_step(raw_samples@, k as int);
                    assert(writer.data@ =~= old(writer).data@ + spec_records_bytes(
                        raw_samples@.take(k as int),
                    ));
                }
            }
            proof {
                assert(raw_samples@.take(raw_samples@.len() as int) =~= raw_samples@);
            }
            return ;
        },
        EncodedSamples::Uncompressed(samples) => samples,
    };
    let compression = cbs.compression;
    let mut sample_count: usize = 0;
    let mut i: usize = 0;
    proof {
        assert(samples@.take(0) =~= Seq::<CharBoneSample>::empty());
    }
    while i < samples.len()
        invariant
            i <= samples@.len(),
            sample_count == spec_unc_count(samples@.take(i as int)),
        decreases samples@.len() - i,
    {
        let s = &samples[i];
        if let Some((_, p)) = &s.pos {
            if p.len() > sample_count {
                sample_count = p.len();
            }
        }
        if let Some((_, q)) = &s.quat {
            if q.len() > sample_count {
                sample_count = q.len();
            }
        }
        if let Some((_, rz)) = &s.rotz {
            if rz.len() > sample_count {
                sample_count = rz.len();
            }
        }
        i = i + 1;
        proof {
            assert(samples@.take(i as int).drop_last() =~= samples@.take(i - 1));
        }
    }
    proof {
        assert(samples@.take(samples@.len() as int) =~= samples@);
    }
    let mut f: usize = 0;
    while f < sample_count
        invariant
            f <= sample_count,
            sample_count == spec_unc_count(samples@),
            cbs.samples matches EncodedSamples::Uncompressed(s2) && s2@ == samples@,
            compression == cbs.compression,
            writer.endian == old(writer).endian,
            big == old(writer).spec_big(),
            writer.data@ == old(writer).data@ + spec_unc_data_bytes(
                samples@,
                f as int,
                compression,
                big,
            ),
        decreases sample_count - f,
    {
        let ghost frame_start = writer.data@;
        let mut j: usize = 0;
        proof {
            assert(spec_frame_pos_bytes(samples@.take(0), f as int, compression, big) =~= Seq::<
                u8,
            >::empty());
            assert(writer.data@ =~= frame_start + spec_frame_pos_bytes(
                samples@.take(0),
                f as int,
                compression,
                big,
            ));
        }
        while j < samples.len()
            invariant
                j <= samples@.len(),
                compression == cbs.compression,
                writer.endian == old(writer).endian,
                big == old(writer).spec_big(),
                writer.data@ == frame_start + spec_frame_pos_bytes(
                    samples@.take(j as int),
                    f as int,
                    compression,
                    big,
                ),
            decreases samples@.len() - j,
        {
            if let Some((_, vals)) = &samples[j].pos {
                let v = if vals.len() == 0 {
                    if compression < 2 {
                        Vec3Sample::Full(0, 0, 0)
                    } else {
                        Vec3Sample::Packed(0, 0, 0)
                    }
                } else if f < vals.len() {
                    vals[f]
                } else {
                    vals[vals.len() - 1]
                };
                write_vec3(writer, &v);
            }
            j = j + 1;
            proof {
                assert(samples@.take(j as int).drop_last() =~= samples@.take(j - 1));
                assert(samples@.take(j as int).last() == samples@[j - 1]);
                assert(writer.data@ =~= frame_start + spec_frame_pos_bytes(
                    samples@.take(j as int),
                    f as int,
                    compression,
                    big,
                ));
            }
        }
        let ghost quat_start = writer.data@;
        let mut j: usize = 0;
        proof {
            assert(samples@.take(samples@.len() as int) =~= samples@);
            assert(spec_frame_quat_bytes(samples@.take(0), f as int, compression, big) =~= Seq::<
                u8,
            >::empty());
            assert(writer.data@ =~= quat_start + spec_frame_quat_bytes(
                samples@.take(0),
                f as int,
                compression,
                big,
            ));
        }
        while j < samples.len()
            invariant
                j <= samples@.len(),
                compression == cbs.compression,
                writer.endian == old(writer).endian,
                big == old(writer).spec_big(),
                writer.data@ == quat_start + spec_frame_quat_bytes(
                    samples@.take(j as int),
                    f as int,
                    compression,
                    big,
                ),
            decreases samples@.len() - j,
        {
            if let Some((_, vals)) = &samples[j].quat {
                let v = if vals.len() == 0 {
                    if compression == 0 {
                        QuatSample::Full(0, 0, 0, 0)
                    } else {
                        QuatSample::Packed(0, 0, 0, 0)
                    }
                } else if f < vals.len() {
                    vals[f]
                } else {
                    vals[vals.len() - 1]
                };
                write_quat(writer, &v);
            }
            j = j + 1;
            proof {
                assert(samples@.take(j as int).drop_last() =~= samples@.take(j - 1));
                assert(samples@.take(j as int).last() == samples@[j - 1]);
                assert(writer.data@ =~= quat_start + spec_frame_quat_bytes(
                    samples@.take(j as int),
                    f as int,
                    compression,
                    big,
                ));
            }
        }
        let ghost rot_start = writer.data@;
        let mut j: usize = 0;
        proof {
            assert(samples@.take(samples@.len() as int) =~= samples@);
            assert(spec_frame_rot_bytes(samples@.take(0), f as int, compression, big) =~= Seq::<
                u8,
            >::empty());
            assert(writer.data@ =~= rot_start + spec_frame_rot_bytes(
                samples@.take(0),
                f as int,
                compression,
                big,
            ));
        }
        while j < samples.len()
            invariant
                j <= samples@.len(),
                compression == cbs.compression,
                writer.endian == old(writer).endian,
                big == old(writer).spec_big(),
                writer.data@ == rot_start + spec_frame_rot_bytes(
                    samples@.take(j as int),
                    f as int,
                    compression,
                    big,
                ),
            decreases samples@.len() - j,
        {
            if let Some((_, vals)) = &samples[j].rotz {
                let v = if vals.len() == 0 {
                    if compression == 0 {
                        RotSample::Full(0)
                    } else {
                        RotSample::Packed(0)
                    }
                } else if f < vals.len() {
                    vals[f]
                } else {
                    vals[vals.len() - 1]
                };
                write_rot(writer, &v);
            }
            j = j + 1;
            proof {
                assert(samples@.take(j as int).drop_last() =~= samples@.take(j - 1));
                assert(samples@.take(j as int).last() == samples@[j - 1]);
                assert(writer.data@ =~= rot_start + spec_frame_rot_bytes(
                    samples@.take(j as int),
                    f as int,
                    compression,
                    big,
                ));
            }
        }
        f = f + 1;
        proof {
            assert(samples@.take(samples@.len() as int) =~= samples@);
            assert(writer.data@ =~= old(writer).data@ + spec_unc_data_bytes(
                samples@,
                f as int,
                compression,
                big,
            ));
        }
    }
}

/// Writes a whole self-contained bank: the version, the header, the data.
pub fn save_char_bones_samples(cbs: &CharBonesSamples, writer: &mut ByteWriter, version: u32)
    requires
        spec_syms_wf(cbs.bones@),
        cbs.bones@.len() <= u32::MAX,
        spec_sample_count(cbs) <= u32::MAX,
        cbs.frames@.len() <= u32::MAX,
    ensures
        final(writer).endian == old(writer).endian,
        final(writer).data@ == old(writer).data@ + spec_u32_bytes(old(writer).spec_big(), version)
            + spec_header_bytes(
            cbs.bones@,
            spec_counts_of(cbs.bones@),
            seq![
                spec_counts_of(cbs.bones@)[6],
                spec_counts_of(cbs.bones@)[6],
                spec_counts_of(cbs.bones@)[6],
            ],
            cbs.compression,
            spec_sample_count(cbs) as u32,
            cbs.frames@,
            version,
            old(writer).spec_big(),
        ) + (match cbs.samples {
            EncodedSamples::Compressed(_, ref recs) => spec_records_bytes(recs@),
            EncodedSamples::Uncompressed(ref ss) => spec_unc_data_bytes(
                ss@,
                spec_unc_count(ss@),
                cbs.compression,
                old(writer).spec_big(),
            ),
        }),
{
    writer.write_u32(version);
    save_char_bones_samples_header(cbs, writer, version);
    save_char_bones_samples_data(cbs, writer);
    proof {
        assert(final(writer).data@ =~= old(writer).data@ + spec_u32_bytes(
            old(writer).spec_big(),
            version,
        ) + spec_header_bytes(
            cbs.bones@,
            spec_counts_of(cbs.bones@),
            seq![
                spec_counts_of(cbs.bones@)[6],
                spec_counts_of(cbs.bones@)[6],
                spec_counts_of(cbs.bones@)[6],
            ],
            cbs.compression,
            spec_sample_count(cbs) as u32,
            cbs.frames@,
            version,
            old(writer).spec_big(),
        ) + (match cbs.samples {
            EncodedSamples::Compressed(_, ref recs) => spec_records_bytes(recs@),
            EncodedSamples::Uncompressed(ref ss) => spec_unc_data_bytes(
                ss@,
                spec_unc_count(ss@),
                cbs.compression,
                old(writer).spec_big(),
            ),
        }));
    }
}

} // verus!

verus! {

/// Splitting a 32-bit list splits its bytes.
pub proof fn lemma_u32s_bytes_concat(a: Seq<u32>, b: Seq<u32>, big: bool)
    ensures
        spec_u32s_bytes(a + b, big) == spec_u32s_bytes(a, big) + spec_u32s_bytes(b, big),
    decreases b.len(),
{
    if b.len() == 0 {
        assert(a + b =~= a);
        assert(spec_u32s_bytes(a, big) + spec_u32s_bytes(b, big) =~= spec_u32s_bytes(a, big));
    } else {
        lemma_u32s_bytes_concat(a, b.drop_last(), big);
        assert((a + b).drop_last() =~= a + b.drop_last());
        assert((a + b).last() == b.last());
        assert(spec_u32s_bytes(a + b, big) == spec_u32s_bytes(a + b.drop_last(), big)
            + spec_u32_bytes(big, b.last()));
        assert(spec_u32s_bytes(a, big) + spec_u32s_bytes(b.drop_last(), big) + spec_u32_bytes(
            big,
            b.last(),
        ) =~= spec_u32s_bytes(a, big) + (spec_u32s_bytes(b.drop_last(), big) + spec_u32_bytes(
            big,
            b.last(),
        )));
    }
}

/// Descriptor lists with the same symbols and weights serialize to the same
/// bytes.
pub proof fn lemma_descs_bytes_congruent(
    a: Seq<CharBone4Bone>,
    b: Seq<CharBone4Bone>,
    version: u32,
    big: bool,
)
    requires
        crate::char_bones_samples::spec_descs(a) == crate::char_bones_samples::spec_descs(b),
    ensures
        spec_descs_bytes(a, version, big) == spec_descs_bytes(b, version, big),
    decreases a.len(),
{
    assert(a.len() == b.len()) by {
        assert(crate::char_bones_samples::spec_descs(a).len() == a.len());
        assert(crate::char_bones_samples::spec_descs(b).len() == b.len());
    }
    if a.len() != 0 {
        assert(crate::char_bones_samples::spec_descs(a.drop_last())
            =~= crate::char_bones_samples::spec_descs(b.drop_last())) by {
            assert forall|i: int|
                0 <= i < a.len() - 1 implies crate::char_bones_samples::spec_descs(a.drop_last())[i]
                == crate::char_bones_samples::spec_descs(b.drop_last())[i] by {
                assert(crate::char_bones_samples::spec_descs(a)[i]
                    == crate::char_bones_samples::spec_descs(b)[i]);
            }
        }
        lemma_descs_bytes_congruent(a.drop_last(), b.drop_last(), version, big);
        assert(crate::char_bones_samples::spec_descs(a)[a.len() - 1]
            == crate::char_bones_samples::spec_descs(b)[a.len() - 1]);
        assert(a.last().symbol@ == b.last().symbol@ && a.last().weight == b.last().weight);
        assert(spec_desc_bytes(a.last(), version, big) == spec_desc_bytes(b.last(), version, big));
    }
}

/// A byte range split at two interior points is the three pieces joined.
pub proof fn lemma_subrange_split3(d: Seq<u8>, a: int, b: int, c: int, e: int)
    requires
        0 <= a <= b <= c <= e <= d.len(),
    ensures
        d.subrange(a, e) == d.subrange(a, b) + d.subrange(b, c) + d.subrange(c, e),
{
    assert(d.subrange(a, e) =~= d.subrange(a, b) + d.subrange(b, c) + d.subrange(c, e));
}

/// Same symbols and weights give the same header bytes.
pub proof fn lemma_header_bytes_congruent(
    a: Seq<CharBone4Bone>,
    b: Seq<CharBone4Bone>,
    counts: Seq<u32>,
    extras: Seq<u32>,
    compression: u32,
    sc: u32,
    frames: Seq<u32>,
    version: u32,
    big: bool,
)
    requires
        spec_descs(a) == spec_descs(b),
    ensures
        spec_header_bytes(a, counts, extras, compression, sc, frames, version, big)
            == spec_header_bytes(b, counts, extras, compression, sc, frames, version, big),
{
    assert(a.len() == b.len()) by {
        assert(spec_descs(a).len() == a.len());
        assert(spec_descs(b).len() == b.len());
    }
    lemma_descs_bytes_congruent(a, b, version, big);
}

/// Same symbols and weights give the same well-formedness.
pub proof fn lemma_syms_wf_congruent(a: Seq<CharBone4Bone>, b: Seq<CharBone4Bone>)
    requires
        spec_descs(a) == spec_descs(b),
        spec_syms_wf(b),
    ensures
        spec_syms_wf(a),
{
    assert(a.len() == b.len()) by {
        assert(spec_descs(a).len() == a.len());
        assert(spec_descs(b).len() == b.len());
    }
    assert forall|k: int|
        0 <= k < a.len() implies is_ascii_chars((#[trigger] a[k]).symbol@) && a[k].symbol@.len()
        <= u32::MAX by {
        assert(spec_descs(a)[k] == spec_descs(b)[k]);
        assert(a[k].symbol@ == b[k].symbol@);
    }
}

/// Same symbols and weights give the same derived offset/count table.
pub proof fn lemma_counts_congruent(a: Seq<CharBone4Bone>, b: Seq<CharBone4Bone>, i: int)
    requires
        crate::char_bones_samples::spec_descs(a) == crate::char_bones_samples::spec_descs(b),
    ensures
        spec_count_below(a, i) == spec_count_below(b, i),
    decreases a.len(),
{
    assert(a.len() == b.len()) by {
        assert(crate::char_bones_samples::spec_descs(a).len() == a.len());
        assert(crate::char_bones_samples::spec_descs(b).len() == b.len());
    }
    if a.len() != 0 {
        assert(crate::char_bones_samples::spec_descs(a.drop_last())
            =~= crate::char_bones_samples::spec_descs(b.drop_last())) by {
            assert forall|i2: int|
                0 <= i2 < a.len() - 1 implies crate::char_bones_samples::spec_descs(
                a.drop_last(),
            )[i2] == crate::char_bones_samples::spec_descs(b.drop_last())[i2] by {
                assert(crate::char_bones_samples::spec_descs(a)[i2]
                    == crate::char_bones_samples::spec_descs(b)[i2]);
            }
        }
        lemma_counts_congruent(a.drop_last(), b.drop_last(), i);
        assert(crate::char_bones_samples::spec_descs(a)[a.len() - 1]
            == crate::char_bones_samples::spec_descs(b)[a.len() - 1]);
        assert(a.last().symbol@ == b.last().symbol@);
    }
}

/// An ASCII byte's character sits in the ASCII range.
proof fn lemma_ascii_byte_char(b: u8)
    requires
        b < 0x80,
    ensures
        '\0' <= (b as char) <= '\u{7f}',
        (b as char) as u8 == b,
{
    assert(((b as char) as u32) == b as u32);
}

} // verus!

use crate::char_bones_samples::spec_descs;
use crate::stream::lemma_u32_bytes_of;

verus! {

/// Reads a bank header: the descriptor list, the offset/count table (first
/// seven of ten entries for versions below 16), the compression level, the
/// sample count, and (above version 11) the frame time list.  Returns the
/// descriptor list and the sample count; the bank keeps its own copy of the
/// descriptors.
#[verifier::rlimit(100)]
pub fn load_char_bones_samples_header(
    cbs: &mut CharBonesSamples,
    reader: &mut ByteReader,
    version: u32,
) -> (r: Result<(Vec<CharBone4Bone>, u32), CharBonesSamplesReadError>)
    requires
        old(reader).wf(),
    ensures
        final(reader).same_stream(old(reader)),
        final(reader).wf(),
        match r {
            Ok((bones, sc)) => {
                let big = old(reader).spec_big();
                let consumed = old(reader).data@.subrange(
                    old(reader).pos as int,
                    final(reader).pos as int,
                );
                &&& old(reader).pos <= final(reader).pos <= old(reader).data@.len()
                &&& spec_syms_wf(bones@)
                &&& bones@.len() <= u32::MAX
                &&& (version <= 10 ==> forall|j: int|
                    0 <= j < bones@.len() ==> (#[trigger] bones@[j]).weight == WEIGHT_ONE_BITS)
                &&& spec_syms_wf(final(cbs).bones@)
                &&& final(cbs).bones@.len() <= u32::MAX
                &&& spec_descs(final(cbs).bones@) == spec_descs(bones@)
                &&& final(cbs).counts@.len() == 7
                &&& final(cbs).frames@.len() <= u32::MAX
                &&& (version <= 11 ==> final(cbs).frames@.len() == 0)
                &&& final(cbs).samples == old(cbs).samples
                &&& final(cbs).computed_sizes@ == old(cbs).computed_sizes@
                &&& final(cbs).computed_flags == old(cbs).computed_flags
                &&& (version > 15 ==> consumed == spec_header_bytes(
                    bones@,
                    final(cbs).counts@,
                    seq![
                        final(cbs).counts@[6],
                        final(cbs).counts@[6],
                        final(cbs).counts@[6],
                    ],
                    final(cbs).compression,
                    sc,
                    final(cbs).frames@,
                    version,
                    big,
                ))
                &&& (version <= 15 ==> exists|extras: Seq<u32>|
                    extras.len() == 3 && consumed == spec_header_bytes(
                        bones@,
                        final(cbs).counts@,
                        extras,
                        final(cbs).compression,
                        sc,
                        final(cbs).frames@,
                        version,
                        big,
                    ))
            },
            Err(e) => *final(cbs) == *old(cbs) && e matches CharBonesSamplesReadError::Stream(_),
        },
{
    let ghost big = reader.spec_big();
    let ghost dat = reader.data@;
    let ghost start = reader.pos as int;
    let bone_count = match reader.read_u32() {
        Ok(v) => v,
        Err(e) => {
            return Err(CharBonesSamplesReadError::Stream(e));
        },
    };
    proof {
        lemma_u32_bytes_of(big, dat[start], dat[start + 1], dat[start + 2], dat[start + 3]);
        assert(dat.subrange(start, start + 4) =~= spec_u32_bytes(big, bone_count));
    }
    let mut bones: Vec<CharBone4Bone> = Vec::new();
    let mut held: Vec<CharBone4Bone> = Vec::new();
    let mut i: u32 = 0;
    proof {
        assert(spec_descs_bytes(bones@.take(0), version, big) =~= Seq::<u8>::empty());
        assert(dat.subrange(start + 4, reader.pos as int) =~= spec_descs_bytes(
            bones@,
            version,
            big,
        ));
        assert(spec_descs(held@) =~= spec_descs(bones@));
    }
    while i < bone_count
        invariant
            reader.same_stream(old(reader)),
            reader.wf(),
            dat == old(reader).data@,
            big == old(reader).spec_big(),
            start == old(reader).pos,
            *cbs == *old(cbs),
            i <= bone_count,
            bones@.len() == i,
            held@.len() == i,
            version <= 10 ==> forall|j: int|
                0 <= j < bones@.len() ==> (#[trigger] bones@[j]).weight == WEIGHT_ONE_BITS,
            spec_syms_wf(bones@),
            spec_syms_wf(held@),
            spec_descs(held@) == spec_descs(bones@),
            start + 4 <= reader.pos <= dat.len(),
            dat.subrange(start + 4, reader.pos as int) == spec_descs_bytes(bones@, version, big),
        decreases bone_count - i,
    {
        let ghost pre = reader.pos as int;
        let ghost bones_pre = bones@;
        let ghost held_pre = held@;
        let name = match reader.read_prefixed_string() {
            Ok(s) => s,
            Err(e) => {
                return Err(CharBonesSamplesReadError::Stream(e));
            },
        };
        let ghost mid = reader.pos as int;
        proof {
            let nlen = crate::stream::spec_u32_of(
                big,
                dat[pre],
                dat[pre + 1],
                dat[pre + 2],
                dat[pre + 3],
            );
            lemma_u32_bytes_of(big, dat[pre], dat[pre + 1], dat[pre + 2], dat[pre + 3]);
            assert(name@.len() == nlen);
            assert(dat.subrange(pre, mid) =~= spec_sym_bytes(name@, big));
            assert forall|ci: int| 0 <= ci < name@.len() implies '\0' <= #[trigger] name@[ci]
                <= '\u{7f}' by {
                lemma_ascii_byte_char(name@[ci] as u8);
                assert(((name@[ci] as u8) as char) == name@[ci]) by {
                    assert(name@[ci] == dat[pre + 4 + ci] as char);
                    assert(name@[ci] as u8 == dat[pre + 4 + ci]);
                }
            }
            assert(is_ascii_chars(name@));
        }
        let weight: u32 = if version <= 10 {
            WEIGHT_ONE_BITS
        } else {
            match reader.read_f32_bits() {
                Ok(v) => v,
                Err(e) => {
                    return Err(CharBonesSamplesReadError::Stream(e));
                },
            }
        };
        proof {
            if version > 10 {
                lemma_u32_bytes_of(big, dat[mid], dat[mid + 1], dat[mid + 2], dat[mid + 3]);
                assert(dat.subrange(mid, reader.pos as int) =~= spec_u32_bytes(big, weight));
            } else {
                assert(dat.subrange(mid, reader.pos as int) =~= Seq::<u8>::empty());
            }
        }
        held.push(CharBone4Bone { symbol: name.clone(), weight });
        bones.push(CharBone4Bone { symbol: name, weight });
        i = i + 1;
        proof {
            lemma_descs_bytes_step(bones@, version, big, i as int);
            assert(bones@.take(i as int) =~= bones@);
            assert(bones@.take(i - 1) =~= bones@.drop_last());
            assert(bones@.drop_last() =~= bones_pre);
            assert(spec_descs_bytes(bones@.drop_last(), version, big) == dat.subrange(
                start + 4,
                pre,
            ));
            assert(spec_desc_bytes(bones@[i - 1], version, big) =~= dat.subrange(
                pre,
                reader.pos as int,
            ));
            assert(dat.subrange(start + 4, reader.pos as int) =~= dat.subrange(start + 4, pre)
                + dat.subrange(pre, reader.pos as int));
            assert(dat.subrange(start + 4, reader.pos as int) =~= spec_descs_bytes(
                bones@,
                version,
                big,
            ));
            assert(held@.drop_last() =~= held_pre);
            assert(spec_descs(held@) =~~= spec_descs(bones@)) by {
                assert forall|j: int|
                    0 <= j < held@.len() implies spec_descs(held@)[j] =~~= spec_descs(
                    bones@,
                )[j] by {
                    if j < held@.len() - 1 {
                        assert(held@[j] == held_pre[j] && bones@[j] == bones_pre[j]);
                        assert(spec_descs(held_pre)[j] == spec_descs(bones_pre)[j]);
                    }
                }
            }
        }
    }
    let ghost after_descs = reader.pos as int;
    let count_size: usize = if version > 15 {
        7
    } else {
        10
    };
    let mut all_counts: Vec<u32> = Vec::new();
    let mut ci: usize = 0;
    proof {
        assert(spec_u32s_bytes(all_counts@.take(0), big) =~= Seq::<u8>::empty());
        assert(dat.subrange(after_descs, reader.pos as int) =~= spec_u32s_bytes(
            all_counts@,
            big,
        ));
    }
    while ci < count_size
        invariant
            reader.same_stream(old(reader)),
            reader.wf(),
            dat == old(reader).data@,
            big == old(reader).spec_big(),
            *cbs == *old(cbs),
            ci <= count_size,
            count_size <= 10,
            all_counts@.len() == ci,
            0 <= after_descs <= reader.pos <= dat.len(),
            dat.subrange(after_descs, reader.pos as int) == spec_u32s_bytes(all_counts@, big),
        decreases count_size - ci,
    {
        let ghost pre = reader.pos as int;
        let ghost ac_pre = all_counts@;
        let v = match reader.read_u32() {
            Ok(v) => v,
            Err(e) => {
                return Err(CharBonesSamplesReadError::Stream(e));
            },
        };
        all_counts.push(v);
        ci = ci + 1;
        proof {
            lemma_u32_bytes_of(big, dat[pre], dat[pre + 1], dat[pre + 2], dat[pre + 3]);
            lemma_u32s_bytes_step(all_counts@, big, ci as int);
            assert(all_counts@.take(ci as int) =~= all_counts@);
            assert(all_counts@.take(ci - 1) =~= all_counts@.drop_last());
            assert(all_counts@.drop_last() =~= ac_pre);
            assert(dat.subrange(pre, reader.pos as int) =~= spec_u32_bytes(big, v));
            assert(dat.subrange(after_descs, reader.pos as int) =~= dat.subrange(after_descs, pre)
                + dat.subrange(pre, reader.pos as int));
            assert(dat.subrange(after_descs, reader.pos as int) =~= spec_u32s_bytes(
                all_counts@,
                big,
            ));
        }
    }
    let mut counts: Vec<u32> = Vec::new();
    let mut ki: usize = 0;
    while ki < 7
        invariant
            ki <= 7,
            all_counts@.len() == count_size,
            count_size == (if version > 15 {
                7int
            } else {
                10int
            }),
            counts@.len() == ki,
            forall|j: int| 0 <= j < ki ==> counts@[j] == all_counts@[j],
        decreases 7 - ki,
    {
        counts.push(all_counts[ki]);
        ki = ki + 1;
    }
    proof {
        assert(counts@ =~= all_counts@.take(7));
        if version > 15 {
            assert(all_counts@.take(7) =~= all_counts@);
        } else {
            assert(all_counts@ =~= all_counts@.take(7) + all_counts@.skip(7));
            lemma_u32s_bytes_concat(all_counts@.take(7), all_counts@.skip(7), big);
        }
    }
    let ghost after_counts = reader.pos as int;
    let ghost extras = all_counts@.skip(7);
    let compression = match reader.read_u32() {
        Ok(v) => v,
        Err(e) => {
            return Err(CharBonesSamplesReadError::Stream(e));
        },
    };
    let ghost after_comp = reader.pos as int;
    let sample_count = match reader.read_u32() {
        Ok(v) => v,
        Err(e) => {
            return Err(CharBonesSamplesReadError::Stream(e));
        },
    };
    let ghost after_sc = reader.pos as int;
    proof {
        lemma_u32_bytes_of(
            big,
            dat[after_counts],
            dat[after_counts + 1],
            dat[after_counts + 2],
            dat[after_counts + 3],
        );
        lemma_u32_bytes_of(
            big,
            dat[after_comp],
            dat[after_comp + 1],
            dat[after_comp + 2],
            dat[after_comp + 3],
        );
        assert(dat.subrange(after_counts, after_comp) =~= spec_u32_bytes(big, compression));
        assert(dat.subrange(after_comp, after_sc) =~= spec_u32_bytes(big, sample_count));
    }
    let mut frames: Vec<u32> = Vec::new();
    if version > 11 {
        let ghost pre_fc = reader.pos as int;
        let frame_count = match reader.read_u32() {
            Ok(v) => v,
            Err(e) => {
                return Err(CharBonesSamplesReadError::Stream(e));
            },
        };
        proof {
            lemma_u32_bytes_of(big, dat[pre_fc], dat[pre_fc + 1], dat[pre_fc + 2], dat[pre_fc + 3]);
            assert(dat.subrange(pre_fc, reader.pos as int) =~= spec_u32_bytes(big, frame_count));
        }
        let ghost after_fc = reader.pos as int;
        let mut fi: u32 = 0;
        proof {
            assert(dat.subrange(after_fc, reader.pos as int) =~= spec_u32s_bytes(frames@, big));
        }
        while fi < frame_count
            invariant
                reader.same_stream(old(reader)),
                reader.wf(),
                dat == old(reader).data@,
                big == old(reader).spec_big(),
                *cbs == *old(cbs),
                fi <= frame_count,
                frames@.len() == fi,
                0 <= after_fc <= reader.pos <= dat.len(),
                dat.subrange(after_fc, reader.pos as int) == spec_u32s_bytes(frames@, big),
            decreases frame_count - fi,
        {
            let ghost pre = reader.pos as int;
            let ghost fr_pre = frames@;
            let v = match reader.read_f32_bits() {
                Ok(v) => v,
                Err(e) => {
                    return Err(CharBonesSamplesReadError::Stream(e));
                },
            };
            frames.push(v);
            fi = fi + 1;
            proof {
                lemma_u32_bytes_of(big, dat[pre], dat[pre + 1], dat[pre + 2], dat[pre + 3]);
                lemma_u32s_bytes_step(frames@, big, fi as int);
                assert(frames@.take(fi as int) =~= frames@);
                assert(frames@.take(fi - 1) =~= frames@.drop_last());
                assert(frames@.drop_last() =~= fr_pre);
                assert(dat.subrange(pre, reader.pos as int) =~= spec_u32_bytes(big, v));
                assert(dat.subrange(after_fc, reader.pos as int) =~= dat.subrange(after_fc, pre)
                    + dat.subrange(pre, reader.pos as int));
                assert(dat.subrange(after_fc, reader.pos as int) =~= spec_u32s_bytes(frames@, big));
            }
        }
    }
    cbs.bones = held;
    cbs.counts = counts;
    cbs.compression = compression;
    cbs.frames = frames;
    proof {
        let ghost consumed = dat.subrange(start, reader.pos as int);
        assert(consumed =~= dat.subrange(start, start + 4) + dat.subrange(start + 4, after_descs)
            + dat.subrange(after_descs, after_counts) + dat.subrange(after_counts, after_comp)
            + dat.subrange(after_comp, after_sc) + dat.subrange(after_sc, reader.pos as int));
        if version > 11 {
            assert(dat.subrange(after_sc, reader.pos as int) =~= spec_u32_bytes(
                big,
                cbs.frames@.len() as u32,
            ) + spec_u32s_bytes(cbs.frames@, big));
        } else {
            assert(dat.subrange(after_sc, reader.pos as int) =~= Seq::<u8>::empty());
        }
        if version > 15 {
            assert(consumed =~= spec_header_bytes(
                bones@,
                cbs.counts@,
                seq![cbs.counts@[6], cbs.counts@[6], cbs.counts@[6]],
                compression,
                sample_count,
                cbs.frames@,
                version,
                big,
            ));
        } else {
            assert(extras.len() == 3);
            assert(consumed =~= spec_header_bytes(
                bones@,
                cbs.counts@,
                extras,
                compression,
                sample_count,
                cbs.frames@,
                version,
                big,
            ));
        }
    }
    Ok((bones, sample_count))
}

} // verus!

verus! {

/// Reads the data section: `sample_count` records of the fixed per-frame
/// stride the descriptors dictate, rounded up to a multiple of four for
/// versions above 11.  On success the bank takes the encoded payload.
pub fn load_char_bones_samples_data(
    cbs: &mut CharBonesSamples,
    reader: &mut ByteReader,
    version: u32,
    bones: Vec<CharBone4Bone>,
    sample_count: u32,
) -> (r: Result<(), CharBonesSamplesReadError>)
    requires
        old(reader).wf(),
        bones@.len() <= u32::MAX,
    ensures
        final(reader).same_stream(old(reader)),
        final(reader).wf(),
        match r {
            Ok(()) => {
                let consumed = old(reader).data@.subrange(
                    old(reader).pos as int,
                    final(reader).pos as int,
                );
                let stride = if version > 11 {
                    spec_align4(spec_offset(bones@, old(cbs).compression, bones@.len() as int))
                } else {
                    spec_offset(bones@, old(cbs).compression, bones@.len() as int)
                };
                &&& old(reader).pos <= final(reader).pos <= old(reader).data@.len()
                &&& final(cbs).samples matches EncodedSamples::Compressed(b, recs) && b == bones
                    && recs@.len() == sample_count && (forall|f: int|
                    0 <= f < recs@.len() ==> (#[trigger] recs@[f])@.len() == stride) && consumed
                    == spec_records_bytes(recs@)
                &&& final(cbs).bones@ == old(cbs).bones@
                &&& final(cbs).counts@ == old(cbs).counts@
                &&& final(cbs).compression == old(cbs).compression
                &&& final(cbs).computed_sizes@ == old(cbs).computed_sizes@
                &&& final(cbs).computed_flags == old(cbs).computed_flags
                &&& final(cbs).frames@ == old(cbs).frames@
            },
            Err(e) => *final(cbs) == *old(cbs) && e matches CharBonesSamplesReadError::Stream(_),
        },
{
    let ghost dat = reader.data@;
    let ghost start = reader.pos as int;
    let compression = cbs.compression;
    let mut stride_wide: u64 = 0;
    let mut j: usize = 0;
    proof {
        crate::char_bones_samples::lemma_offset_nonneg(bones@, compression, bones@.len() as int);
    }
    while j < bones.len()
        invariant
            j <= bones@.len(),
            bones@.len() <= u32::MAX,
            compression == cbs.compression,
            stride_wide == spec_offset(bones@, compression, j as int),
            stride_wide <= 16 * (j as u64),
        decreases bones@.len() - j,
    {
        let t = CharBonesSamples::get_type_of(bones[j].symbol.as_str());
        let sz = cbs_field_size(compression, t);
        stride_wide = stride_wide + (sz as u64);
        j = j + 1;
    }
    let aligned_wide: u64 = if version > 11 {
        ((stride_wide + 3) / 4) * 4
    } else {
        stride_wide
    };
    proof {
        assert(aligned_wide == (if version > 11 {
            spec_align4(spec_offset(bones@, compression, bones@.len() as int))
        } else {
            spec_offset(bones@, compression, bones@.len() as int)
        }));
    }
    let mut records: Vec<Vec<u8>> = Vec::new();
    if sample_count == 0 {
        cbs.samples = EncodedSamples::Compressed(bones, records);
        proof {
            assert(dat.subrange(start, reader.pos as int) =~= spec_records_bytes(
                Seq::<Vec<u8>>::empty(),
            ));
        }
        return Ok(());
    }
    let remaining = reader.remaining();
    if aligned_wide > (remaining as u64) {
        return Err(
            CharBonesSamplesReadError::Stream(
                StreamError::ShortRead { offset: reader.pos, needed: remaining },
            ),
        );
    }
    let stride: usize = aligned_wide as usize;
    let mut f: u32 = 0;
    proof {
        assert(spec_records_bytes(records@.take(0)) =~= Seq::<u8>::empty());
        assert(dat.subrange(start, reader.pos as int) =~= spec_records_bytes(records@));
    }
    while f < sample_count
        invariant
            reader.same_stream(old(reader)),
            reader.wf(),
            dat == old(reader).data@,
            *cbs == *old(cbs),
            f <= sample_count,
            records@.len() == f,
            forall|g: int| 0 <= g < records@.len() ==> (#[trigger] records@[g])@.len() == stride,
            stride == (if version > 11 {
                spec_align4(spec_offset(bones@, compression, bones@.len() as int))
            } else {
                spec_offset(bones@, compression, bones@.len() as int)
            }),
            compression == cbs.compression,
            0 <= start <= reader.pos <= dat.len(),
            dat.subrange(start, reader.pos as int) == spec_records_bytes(records@),
        decreases sample_count - f,
    {
        let ghost pre = reader.pos as int;
        let ghost recs_pre = records@;
        let data = match reader.read_bytes(stride) {
            Ok(v) => v,
            Err(e) => {
                return Err(CharBonesSamplesReadError::Stream(e));
            },
        };
        records.push(data);
        f = f + 1;
        proof {
            lemma_records_bytes_step(records@, f as int);
            assert(records@.take(f as int) =~= records@);
            assert(records@.take(f - 1) =~= records@.drop_last());
            assert(records@.drop_last() =~= recs_pre);
            assert(dat.subrange(start, reader.pos as int) =~= dat.subrange(start, pre)
                + dat.subrange(pre, reader.pos as int));
            assert(dat.subrange(start, reader.pos as int) =~= spec_records_bytes(records@));
        }
    }
    cbs.samples = EncodedSamples::Compressed(bones, records);
    Ok(())
}

/// Per-frame field size of a descriptor type; see
/// [`crate::char_bones_samples::spec_field_size`].
fn cbs_field_size(compression: u32, t: u32) -> (r: usize)
    ensures
        r == spec_field_size(compression, t),
        r <= 16,
{
    if compression > 3 || t > 5 {
        0
    } else if t < 2 {
        if compression < 2 {
            12
        } else {
            6
        }
    } else if t == 2 {
        if compression == 0 {
            16
        } else if compression < 3 {
            8
        } else {
            4
        }
    } else {
        if compression == 0 {
            4
        } else {
            2
        }
    }
}

/// Loads a whole self-contained bank: the version (which must be
/// supported), the header, the data.
#[verifier::rlimit(100)]
pub fn load_char_bones_samples(cbs: &mut CharBonesSamples, reader: &mut ByteReader) -> (r: Result<
    (),
    CharBonesSamplesReadError,
>)
    requires
        old(reader).wf(),
    ensures
        final(reader).same_stream(old(reader)),
        final(reader).wf(),
        match r {
            Ok(()) => {
                let big = old(reader).spec_big();
                let consumed = old(reader).data@.subrange(
                    old(reader).pos as int,
                    final(reader).pos as int,
                );
                &&& old(reader).pos <= final(reader).pos <= old(reader).data@.len()
                &&& spec_syms_wf(final(cbs).bones@)
                &&& final(cbs).bones@.len() <= u32::MAX
                &&& final(cbs).counts@.len() == 7
                &&& final(cbs).frames@.len() <= u32::MAX
                &&& final(cbs).samples matches EncodedSamples::Compressed(b, recs) && spec_descs(
                    b@,
                ) == spec_descs(final(cbs).bones@) && spec_sample_count(final(cbs)) == recs@.len()
                    && recs@.len() <= u32::MAX && consumed == spec_u32_bytes(big, 16)
                    + spec_header_bytes(
                    b@,
                    final(cbs).counts@,
                    seq![final(cbs).counts@[6], final(cbs).counts@[6], final(cbs).counts@[6]],
                    final(cbs).compression,
                    recs@.len() as u32,
                    final(cbs).frames@,
                    16,
                    big,
                ) + spec_records_bytes(recs@)
            },
            Err(CharBonesSamplesReadError::CharBonesSamplesNotSupported { version }) => {
                &&& old(reader).pos + 4 <= old(reader).data@.len()
                &&& version == spec_u32_of(
                    old(reader).spec_big(),
                    old(reader).data@[old(reader).pos as int],
                    old(reader).data@[old(reader).pos + 1],
                    old(reader).data@[old(reader).pos + 2],
                    old(reader).data@[old(reader).pos + 3],
                )
                &&& version != 16
                &&& final(reader).pos == old(reader).pos + 4
                &&& *final(cbs) == *old(cbs)
            },
            Err(_) => true,
        },
        // The unsupported-version error comes on exactly the streams whose
        // leading word is readable and names another version.
        (old(reader).pos + 4 <= old(reader).data@.len() && spec_u32_of(
            old(reader).spec_big(),
            old(reader).data@[old(reader).pos as int],
            old(reader).data@[old(reader).pos + 1],
            old(reader).data@[old(reader).pos + 2],
            old(reader).data@[old(reader).pos + 3],
        ) != 16) ==> r matches Err(
            CharBonesSamplesReadError::CharBonesSamplesNotSupported { version },
        ),
{
    let ghost dat = reader.data@;
    let ghost start = reader.pos as int;
    let ghost big = reader.spec_big();
    let version = match reader.read_u32() {
        Ok(v) => v,
        Err(e) => {
            return Err(CharBonesSamplesReadError::Stream(e));
        },
    };
    if !is_version_supported(version) {
        return Err(CharBonesSamplesReadError::CharBonesSamplesNotSupported { version });
    }
    proof {
        lemma_u32_bytes_of(big, dat[start], dat[start + 1], dat[start + 2], dat[start + 3]);
        assert(dat.subrange(start, start + 4) =~= spec_u32_bytes(big, version));
    }
    let (bones, sample_count) = match load_char_bones_samples_header(cbs, reader, version) {
        Ok(v) => v,
        Err(e) => {
            return Err(e);
        },
    };
    let ghost after_header = reader.pos as int;
    let ghost hdr_cbs = *cbs;
    let ghost bones_view = bones@;
    match load_char_bones_samples_data(cbs, reader, version, bones, sample_count) {
        Ok(()) => {},
        Err(e) => {
            return Err(e);
        },
    };
    proof {
        assert(cbs.bones@.len() == bones_view.len()) by {
            assert(spec_descs(cbs.bones@).len() == cbs.bones@.len());
            assert(spec_descs(bones_view).len() == bones_view.len());
        }
        let fin = reader.pos as int;
        assert(dat.subrange(start, fin) =~= dat.subrange(start, start + 4) + dat.subrange(
            start + 4,
            after_header,
        ) + dat.subrange(after_header, fin));
    }
    Ok(())
}

} // verus!

use crate::system::IOEndian;

verus! {

/// Loads a whole bank from `data` and saves it again.  Whenever this
/// succeeds, the output equals the input byte for byte: on every
/// well-formed stream, encoding undoes decoding exactly, for any supported
/// version and compression level.  It fails on an unsupported version, a
/// malformed stream, trailing bytes, or a stored offset/count table that
/// does not match the descriptors (the saver always writes the derived
/// table).
#[verifier::rlimit(100)]
pub fn reencode_char_bones_samples(data: Vec<u8>, endian: IOEndian) -> (r: Result<
    Vec<u8>,
    CharBonesSamplesReadError,
>)
    ensures
        match r {
            Ok(out) => out@ == data@,
            Err(_) => true,
        },
{
    let ghost dat = data@;
    let mut reader = ByteReader::new(data, endian);
    let ghost big = reader.spec_big();
    let version = match reader.read_u32() {
        Ok(v) => v,
        Err(e) => {
            return Err(CharBonesSamplesReadError::Stream(e));
        },
    };
    if !is_version_supported(version) {
        return Err(CharBonesSamplesReadError::CharBonesSamplesNotSupported { version });
    }
    proof {
        lemma_u32_bytes_of(big, dat[0], dat[1], dat[2], dat[3]);
        assert(dat.subrange(0, 4) =~= spec_u32_bytes(big, version));
    }
    let mut cbs = CharBonesSamples::default();
    let (bones, sample_count) = match load_char_bones_samples_header(&mut cbs, &mut reader, version)
    {
        Ok(v) => v,
        Err(e) => {
            return Err(e);
        },
    };
    let ghost after_header = reader.pos as int;
    let ghost bones_view = bones@;
    match load_char_bones_samples_data(&mut cbs, &mut reader, version, bones, sample_count) {
        Ok(()) => {},
        Err(e) => {
            return Err(e);
        },
    };
    let ghost after_data = reader.pos as int;
    let trailing = reader.remaining();
    if trailing != 0 {
        return Err(CharBonesSamplesReadError::TrailingData { remaining: trailing });
    }
    let derived = compute_counts(&cbs.bones);
    let mut ci: usize = 0;
    while ci < 7
        invariant
            ci <= 7,
            derived@.len() == 7,
            cbs.counts@.len() == 7,
            forall|j: int| 0 <= j < ci ==> cbs.counts@[j] == derived@[j],
        decreases 7 - ci,
    {
        if cbs.counts[ci] != derived[ci] {
            return Err(CharBonesSamplesReadError::InconsistentCounts);
        }
        ci = ci + 1;
    }
    proof {
        assert(cbs.counts@ =~= spec_counts_of(cbs.bones@));
    }
    let mut writer = ByteWriter::new(endian);
    save_char_bones_samples(&cbs, &mut writer, 16);
    let out = writer.into_vec();
    proof {
        lemma_header_bytes_congruent(
            cbs.bones@,
            bones_view,
            cbs.counts@,
            seq![cbs.counts@[6], cbs.counts@[6], cbs.counts@[6]],
            cbs.compression,
            sample_count,
            cbs.frames@,
            16,
            big,
        );
        lemma_subrange_split3(dat, 0, 4, after_header, after_data);
        assert(dat.subrange(0, dat.len() as int) =~= dat);
        assert(out@ == dat);
    }
    Ok(out)
}

} // verus!
