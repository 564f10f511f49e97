//! The bone-sample model: per-bone compressed transform sample streams.
//!
//! A sample bank holds an ordered list of descriptors (bone symbol plus
//! weight) and either the encoded form — one fixed-stride byte record per
//! frame — or the decoded form — one structured sample set per bone.
//! Scalars are kept exactly as they sit in the stream: full-precision fields
//! as IEEE-754 bit patterns, packed fields as 16-bit signed integers.

use vstd::prelude::*;

use crate::symbols::{spec_first_dot, spec_lower_char};

verus! {

/// One descriptor: a bone symbol with its transform-property extension, and
/// the weight applied to all of that property's samples (an `f32` bit
/// pattern).
#[derive(Debug)]
pub struct CharBone4Bone {
    pub symbol: String,
    pub weight: u32,
}

/// One three-component sample, either full precision (three `f32` bit
/// patterns) or packed (three 16-bit signed integers).
#[derive(Clone, Copy, Debug, PartialEq, Eq, Structural)]
pub enum Vec3Sample {
    Full(u32, u32, u32),
    Packed(i16, i16, i16),
}

/// One quaternion sample, full precision or packed.
#[derive(Clone, Copy, Debug, PartialEq, Eq, Structural)]
pub enum QuatSample {
    Full(u32, u32, u32, u32),
    Packed(i16, i16, i16, i16),
}

/// One single-axis rotation sample (degrees), full precision or packed.
#[derive(Clone, Copy, Debug, PartialEq, Eq, Structural)]
pub enum RotSample {
    Full(u32),
    Packed(i16),
}

/// The decoded samples of one bone: optional per-property arrays, each with
/// the one weight (an `f32` bit pattern) that applies to all its samples.
#[derive(Debug)]
pub struct CharBoneSample {
    pub symbol: String,
    pub pos: Option<(u32, Vec<Vec3Sample>)>,
    pub scale: Option<(u32, Vec<Vec3Sample>)>,
    pub quat: Option<(u32, Vec<QuatSample>)>,
    pub rotz: Option<(u32, Vec<RotSample>)>,
}

/// A sample bank's payload: the encoded form (descriptors plus one raw byte
/// record per frame) or the decoded form (per-bone structured samples).
#[derive(Debug)]
pub enum EncodedSamples {
    Compressed(Vec<CharBone4Bone>, Vec<Vec<u8>>),
    Uncompressed(Vec<CharBoneSample>),
}

/// A sample bank: descriptors, compression level, the offset/count table,
/// derived sizes, the payload and the optional per-frame time list (`f32`
/// bit patterns).
#[derive(Debug)]
pub struct CharBonesSamples {
    pub bones: Vec<CharBone4Bone>,
    pub compression: u32,
    pub counts: Vec<u32>,
    pub computed_sizes: Vec<u32>,
    pub computed_flags: u32,
    pub samples: EncodedSamples,
    pub frames: Vec<u32>,
}

impl Default for CharBone4Bone {
    fn default() -> (r: CharBone4Bone)
        ensures
            r.symbol@ == Seq::<char>::empty(),
            r.weight == 0,
    {
        CharBone4Bone { symbol: String::new(), weight: 0 }
    }
}

impl Default for CharBoneSample {
    fn default() -> (r: CharBoneSample)
        ensures
            r.symbol@ == Seq::<char>::empty(),
            r.pos is None && r.scale is None && r.quat is None && r.rotz is None,
    {
        CharBoneSample { symbol: String::new(), pos: None, scale: None, quat: None, rotz: None }
    }
}

impl Default for EncodedSamples {
    fn default() -> (r: EncodedSamples)
        ensures
            r matches EncodedSamples::Uncompressed(v) && v@ =~= Seq::<CharBoneSample>::empty(),
    {
        EncodedSamples::Uncompressed(Vec::new())
    }
}

impl Default for CharBonesSamples {
    fn default() -> (r: CharBonesSamples)
        ensures
            r.bones@ =~= Seq::<CharBone4Bone>::empty(),
            r.compression == 0,
            r.counts@ =~= seq![0u32, 0u32, 0u32, 0u32, 0u32, 0u32, 0u32],
            r.computed_sizes@ =~= seq![0u32, 0u32, 0u32, 0u32, 0u32, 0u32, 0u32],
            r.computed_flags == 0,
            r.samples matches EncodedSamples::Uncompressed(v) && v@ =~= Seq::<
                CharBoneSample,
            >::empty(),
            r.frames@ =~= Seq::<u32>::empty(),
    {
        let mut counts: Vec<u32> = Vec::new();
        let mut computed_sizes: Vec<u32> = Vec::new();
        let mut i: usize = 0;
        while i < 7
            invariant
                i <= 7,
                counts@ =~= Seq::<u32>::new(i as nat, |j: int| 0u32),
                computed_sizes@ =~= Seq::<u32>::new(i as nat, |j: int| 0u32),
            decreases 7 - i,
        {
            counts.push(0);
            computed_sizes.push(0);
            i = i + 1;
        }
        proof {
            assert(counts@ =~= seq![0u32, 0u32, 0u32, 0u32, 0u32, 0u32, 0u32]);
            assert(computed_sizes@ =~= seq![0u32, 0u32, 0u32, 0u32, 0u32, 0u32, 0u32]);
        }
        CharBonesSamples {
            bones: Vec::new(),
            compression: 0,
            counts,
            computed_sizes,
            computed_flags: 0,
            samples: EncodedSamples::Uncompressed(Vec::new()),
            frames: Vec::new(),
        }
    }
}

/// Numeric code of the transform property a symbol's extension names:
/// position 0, scale 1, quaternion 2, x/y/z single-axis rotation 3/4/5,
/// anything else (including no extension) 7 ("other").
pub open spec fn spec_type_of(name: Seq<char>) -> u32 {
    let d = spec_first_dot(name);
    if d == name.len() {
        7
    } else {
        let ext = name.skip(d).map_values(|c: char| spec_lower_char(c));
        if ext == seq!['.', 'p', 'o', 's'] {
            0
        } else if ext == seq!['.', 's', 'c', 'a', 'l', 'e'] {
            1
        } else if ext == seq!['.', 'q', 'u', 'a', 't'] {
            2
        } else if ext == seq!['.', 'r', 'o', 't', 'x'] {
            3
        } else if ext == seq!['.', 'r', 'o', 't', 'y'] {
            4
        } else if ext == seq!['.', 'r', 'o', 't', 'z'] {
            5
        } else {
            7
        }
    }
}

/// Byte size of one offset-table slot of the given type under the given
/// compression level (position/scale 16 or 6; quaternion 16, 8 or 4;
/// single-axis rotation 4 or 2).
pub open spec fn spec_type_size(compression: u32, idx: u32) -> u32 {
    if idx < 2 {
        if compression < 2 {
            16
        } else {
            6
        }
    } else if idx != 2 {
        if compression == 0 {
            4
        } else {
            2
        }
    } else if compression > 2 {
        4
    } else if compression == 0 {
        16
    } else {
        8
    }
}

/// Byte size of one per-frame record field of the given type under the
/// given compression level; 0 for the "other" type and for compression
/// levels outside 0..=3.
pub open spec fn spec_field_size(compression: u32, idx: u32) -> usize {
    if compression > 3 || idx > 5 {
        0
    } else if idx < 2 {
        if compression < 2 {
            12
        } else {
            6
        }
    } else if idx == 2 {
        if compression == 0 {
            16
        } else if compression < 3 {
            8
        } else {
            4
        }
    } else {
        if compression == 0 {
            4
        } else {
            2
        }
    }
}

/// Every offset-table slot size is at most 16 bytes.
pub proof fn lemma_type_size_le_16(compression: u32, idx: u32)
    ensures
        spec_type_size(compression, idx) <= 16,
{
}

/// Cumulative byte size of the first `i` offset-table slots: slot `j`
/// contributes its per-type size times the number of bones of that type
/// (the difference of adjacent counts).
pub open spec fn spec_computed_size(counts: Seq<u32>, compression: u32, i: int) -> int
    decreases i,
{
    if i <= 0 {
        0
    } else {
        spec_computed_size(counts, compression, i - 1) + (counts[i] - counts[i - 1])
            * spec_type_size(compression, (i - 1) as u32)
    }
}

/// Rounds a byte size up to the next multiple of 16.
pub open spec fn spec_align16(n: int) -> int {
    ((n + 15) / 16) * 16
}

impl CharBonesSamples {
    /// Classifies a symbol by its extension; see [`spec_type_of`].
    pub fn get_type_of(name: &str) -> (r: u32)
        ensures
            r == spec_type_of(name@),
    {
        let d = match crate::symbols::first_dot_index(name) {
            Some(d) => d,
            None => {
                return 7;
            },
        };
        let len = name.unicode_len();
        let n = len - d;
        let ghost ext = name@.skip(d as int).map_values(|c: char| spec_lower_char(c));
        proof {
            assert(ext.len() == n);
        }
        if n == 4 {
            let c1 = lower_char(name.get_char(d + 1));
            let c2 = lower_char(name.get_char(d + 2));
            let c3 = lower_char(name.get_char(d + 3));
            proof {
                lemma_ext_chars(name@, d as int, 4);
            }
            if c1 == 'p' && c2 == 'o' && c3 == 's' {
                proof {
                    assert(ext =~= seq!['.', 'p', 'o', 's']);
                }
                0
            } else {
                proof {
                    assert(ext != seq!['.', 'p', 'o', 's']);
                }
                7
            }
        } else if n == 5 {
            let c1 = lower_char(name.get_char(d + 1));
            let c2 = lower_char(name.get_char(d + 2));
            let c3 = lower_char(name.get_char(d + 3));
            let c4 = lower_char(name.get_char(d + 4));
            proof {
                lemma_ext_chars(name@, d as int, 5);
            }
            if c1 == 'q' && c2 == 'u' && c3 == 'a' && c4 == 't' {
                proof {
                    assert(ext =~= seq!['.', 'q', 'u', 'a', 't']);
                }
                2
            } else if c1 == 'r' && c2 == 'o' && c3 == 't' && c4 == 'x' {
                proof {
                    assert(ext =~= seq!['.', 'r', 'o', 't', 'x']);
                }
                3
            } else if c1 == 'r' && c2 == 'o' && c3 == 't' && c4 == 'y' {
                proof {
                    assert(ext =~= seq!['.', 'r', 'o', 't', 'y']);
                }
                4
            } else if c1 == 'r' && c2 == 'o' && c3 == 't' && c4 == 'z' {
                proof {
                    assert(ext =~= seq!['.', 'r', 'o', 't', 'z']);
                }
                5
            } else {
                proof {
                    assert(ext != seq!['.', 'q', 'u', 'a', 't']);
                    assert(ext != seq!['.', 'r', 'o', 't', 'x']);
                    assert(ext != seq!['.', 'r', 'o', 't', 'y']);
                    assert(ext != seq!['.', 'r', 'o', 't', 'z']);
                }
                7
            }
        } else if n == 6 {
            let c1 = lower_char(name.get_char(d + 1));
            let c2 = lower_char(name.get_char(d + 2));
            let c3 = lower_char(name.get_char(d + 3));
            let c4 = lower_char(name.get_char(d + 4));
            let c5 = lower_char(name.get_char(d + 5));
            proof {
                lemma_ext_chars(name@, d as int, 6);
            }
            if c1 == 's' && c2 == 'c' && c3 == 'a' && c4 == 'l' && c5 == 'e' {
                proof {
                    assert(ext =~= seq!['.', 's', 'c', 'a', 'l', 'e']);
                }
                1
            } else {
                proof {
                    assert(ext != seq!['.', 's', 'c', 'a', 'l', 'e']);
                }
                7
            }
        } else {
            7
        }
    }

    /// Offset-table slot size for type `idx` under this bank's compression
    /// level; see [`spec_type_size`].
    pub fn get_type_size(&self, idx: u32) -> (r: u32)
        ensures
            r == spec_type_size(self.compression, idx),
    {
        if idx < 2 {
            return if self.compression < 2 {
                16
            } else {
                6
            };
        }
        if idx != 2 {
            return if self.compression == 0 {
                4
            } else {
                2
            };
        }
        if self.compression > 2 {
            return 4;
        }
        if self.compression == 0 {
            return 16;
        }
        8
    }

    /// Per-frame record field size for type `idx` under this bank's
    /// compression level; see [`spec_field_size`].
    pub fn get_type_size2(&self, idx: u32) -> (r: usize)
        ensures
            r == spec_field_size(self.compression, idx),
    {
        if self.compression > 3 || idx > 5 {
            0
        } else if idx < 2 {
            if self.compression < 2 {
                12
            } else {
                6
            }
        } else if idx == 2 {
            if self.compression == 0 {
                16
            } else if self.compression < 3 {
                8
            } else {
                4
            }
        } else {
            if self.compression == 0 {
                4
            } else {
                2
            }
        }
    }

    /// Recomputes the derived cumulative sizes from the offset/count table:
    /// slot 0 is 0, each following slot adds the byte size of the bones the
    /// corresponding type gained, and the flags field is the final size
    /// rounded up to a multiple of 16 (a validation value).
    pub fn recompute_sizes(&mut self)
        requires
            old(self).counts@.len() == 7,
            old(self).computed_sizes@.len() == 7,
            forall|i: int| 0 <= i < 6 ==> #[trigger] old(self).counts@[i] <= old(self).counts@[i + 1],
            old(self).counts@[6] <= 0x0FFF_FFFF,
        ensures
            final(self).bones@ == old(self).bones@,
            final(self).compression == old(self).compression,
            final(self).counts@ == old(self).counts@,
            final(self).samples == old(self).samples,
            final(self).frames@ == old(self).frames@,
            final(self).computed_sizes@.len() == 7,
            forall|i: int|
                0 <= i < 7 ==> final(self).computed_sizes@[i] == spec_computed_size(
                    old(self).counts@,
                    old(self).compression,
                    i,
                ),
            final(self).computed_flags == spec_align16(
                spec_computed_size(old(self).counts@, old(self).compression, 6),
            ),
    {
        proof {
            lemma_computed_size_bound(self.counts@, self.compression, 0);
        }
        self.computed_sizes[0] = 0;
        let mut i: usize = 0;
        while i < 6
            invariant
                i <= 6,
                self.counts@.len() == 7,
                self.computed_sizes@.len() == 7,
                self.bones@ == old(self).bones@,
                self.compression == old(self).compression,
                self.counts@ == old(self).counts@,
                self.samples == old(self).samples,
                self.frames@ == old(self).frames@,
                self.computed_flags == old(self).computed_flags,
                forall|j: int| 0 <= j < 6 ==> #[trigger] self.counts@[j] <= self.counts@[j + 1],
                self.counts@[6] <= 0x0FFF_FFFF,
                forall|j: int|
                    0 <= j <= i ==> self.computed_sizes@[j] == spec_computed_size(
                        self.counts@,
                        self.compression,
                        j,
                    ),
            decreases 6 - i,
        {
            let curr_count = self.counts[i];
            let next_count = self.counts[i + 1];
            let type_size = self.get_type_size(i as u32);
            proof {
                lemma_computed_size_bound(self.counts@, self.compression, i as int);
                lemma_computed_size_bound(self.counts@, self.compression, i + 1);
                lemma_type_size_le_16(self.compression, i as u32);
                assert((next_count - curr_count) * type_size <= (next_count - curr_count) * 16)
                    by (nonlinear_arith)
                    requires
                        type_size <= 16,
                        next_count >= curr_count,
                ;
            }
            let step = (next_count - curr_count) * type_size;
            let prev = self.computed_sizes[i];
            self.computed_sizes[i + 1] = prev + step;
            i = i + 1;
        }
        let last = self.computed_sizes[6];
        proof {
            lemma_computed_size_bound(self.counts@, self.compression, 6);
        }
        self.computed_flags = ((last + 0xF) / 16) * 16;
    }

    /// How many frames this bank covers: the raw record count in encoded
    /// form, the longest per-property sample array in decoded form.
    pub fn get_sample_count(&self) -> (r: usize)
        ensures
            r == spec_sample_count(self),
    {
        match &self.samples {
            EncodedSamples::Compressed(_, raw_samples) => raw_samples.len(),
            EncodedSamples::Uncompressed(samples) => {
                let mut acc: usize = 0;
                let mut i: usize = 0;
                while i < samples.len()
                    invariant
                        i <= samples@.len(),
                        acc == spec_max_sample_len(samples@.take(i as int)),
                    decreases samples@.len() - i,
                {
                    let s = &samples[i];
                    if let Some((_, p)) = &s.pos {
                        if p.len() > acc {
                            acc = p.len();
                        }
                    }
                    if let Some((_, sc)) = &s.scale {
                        if sc.len() > acc {
                            acc = sc.len();
                        }
                    }
                    if let Some((_, q)) = &s.quat {
                        if q.len() > acc {
                            acc = q.len();
                        }
                    }
                    if let Some((_, rz)) = &s.rotz {
                        if rz.len() > acc {
                            acc = rz.len();
                        }
                    }
                    i = i + 1;
                    proof {
                        assert(samples@.take(i as int).drop_last() =~= samples@.take(i - 1));
                    }
                }
                proof {
                    assert(samples@.take(samples@.len() as int) =~= samples@);
                }
                acc
            },
        }
    }
}

/// The longest property array of one decoded bone sample.
pub open spec fn spec_bone_sample_len(s: &CharBoneSample) -> int {
    let p: int = match s.pos {
        Some((_, ref v)) => v@.len() as int,
        None => 0,
    };
    let sc: int = match s.scale {
        Some((_, ref v)) => v@.len() as int,
        None => 0,
    };
    let q: int = match s.quat {
        Some((_, ref v)) => v@.len() as int,
        None => 0,
    };
    let rz: int = match s.rotz {
        Some((_, ref v)) => v@.len() as int,
        None => 0,
    };
    vstd::math::max(vstd::math::max(p, sc), vstd::math::max(q, rz))
}

/// The longest property array over a whole decoded sample list.
pub open spec fn spec_max_sample_len(ss: Seq<CharBoneSample>) -> int
    decreases ss.len(),
{
    if ss.len() == 0 {
        0
    } else {
        vstd::math::max(spec_max_sample_len(ss.drop_last()), spec_bone_sample_len(&ss.last()))
    }
}

/// The frame count of a bank; see [`CharBonesSamples::get_sample_count`].
pub open spec fn spec_sample_count(b: &CharBonesSamples) -> int {
    match b.samples {
        EncodedSamples::Compressed(_, ref raw) => raw@.len() as int,
        EncodedSamples::Uncompressed(ref ss) => spec_max_sample_len(ss@),
    }
}

/// Cumulative sizes stay below 16 bytes per counted bone.
proof fn lemma_computed_size_bound(counts: Seq<u32>, compression: u32, i: int)
    requires
        counts.len() == 7,
        forall|j: int| 0 <= j < 6 ==> #[trigger] counts[j] <= counts[j + 1],
        i <= 6,
    ensures
        i >= 0 ==> 0 <= spec_computed_size(counts, compression, i) <= counts[i] * 16,
    decreases (if i >= 0 { i } else { 0 }),
{
    if i > 0 {
        lemma_computed_size_bound(counts, compression, i - 1);
        lemma_type_size_le_16(compression, (i - 1) as u32);
        assert((counts[i] - counts[i - 1]) * spec_type_size(compression, (i - 1) as u32) <= (
        counts[i] - counts[i - 1]) * 16) by (nonlinear_arith)
            requires
                spec_type_size(compression, (i - 1) as u32) <= 16,
                counts[i] >= counts[i - 1],
        ;
        assert((counts[i] - counts[i - 1]) * spec_type_size(compression, (i - 1) as u32) >= 0)
            by (nonlinear_arith)
            requires
                spec_type_size(compression, (i - 1) as u32) >= 0,
                counts[i] >= counts[i - 1],
        ;
        assert(counts[i - 1] * 16 + (counts[i] - counts[i - 1]) * 16 == counts[i] * 16)
            by (nonlinear_arith);
    }
}

/// ASCII-lowercases one character.
fn lower_char(c: char) -> (r: char)
    ensures
        r == spec_lower_char(c),
{
    let code = c as u32;
    if code >= 65 && code <= 90 {
        ((c as u8) + 32) as char
    } else {
        c
    }
}

/// The lowered extension characters are the lowered name characters from
/// the first dot on; the first is the dot itself.
proof fn lemma_ext_chars(name: Seq<char>, d: int, n: int)
    requires
        d == spec_first_dot(name),
        d < name.len(),
        n == name.len() - d,
    ensures
        name.skip(d).map_values(|c: char| spec_lower_char(c)).len() == n,
        name[d] == '.',
        name.skip(d).map_values(|c: char| spec_lower_char(c))[0] == '.',
{
    crate::symbols::lemma_first_dot_bounds(name);
    assert(name.skip(d)[0] == name[d]);
    assert(spec_lower_char('.') == '.');
}

} // verus!

verus! {

/// The mathematical content of one descriptor: its symbol and weight.
#[verifier::ext_equal]
pub struct DescView {
    pub symbol: Seq<char>,
    pub weight: u32,
}

/// The (symbol, weight) pair a descriptor denotes.
pub open spec fn spec_desc_view(b: CharBone4Bone) -> DescView {
    DescView { symbol: b.symbol@, weight: b.weight }
}

/// The (symbol, weight) pairs of a descriptor list.
pub open spec fn spec_descs(bs: Seq<CharBone4Bone>) -> Seq<DescView> {
    bs.map_values(|b: CharBone4Bone| spec_desc_view(b))
}

/// Descriptors generated for the position property: one `<symbol>.pos`
/// descriptor per bone that has position samples, in bone order.
pub open spec fn spec_gen_pos(ss: Seq<CharBoneSample>) -> Seq<DescView>
    decreases ss.len(),
{
    if ss.len() == 0 {
        Seq::empty()
    } else {
        spec_gen_pos(ss.drop_last()) + (match ss.last().pos {
            Some((w, _)) => seq![DescView { symbol: ss.last().symbol@ + ".pos"@, weight: w }],
            None => Seq::empty(),
        })
    }
}

/// Descriptors generated for the scale property.
pub open spec fn spec_gen_scale(ss: Seq<CharBoneSample>) -> Seq<DescView>
    decreases ss.len(),
{
    if ss.len() == 0 {
        Seq::empty()
    } else {
        spec_gen_scale(ss.drop_last()) + (match ss.last().scale {
            Some((w, _)) => seq![DescView { symbol: ss.last().symbol@ + ".scale"@, weight: w }],
            None => Seq::empty(),
        })
    }
}

/// Descriptors generated for the quaternion property.
pub open spec fn spec_gen_quat(ss: Seq<CharBoneSample>) -> Seq<DescView>
    decreases ss.len(),
{
    if ss.len() == 0 {
        Seq::empty()
    } else {
        spec_gen_quat(ss.drop_last()) + (match ss.last().quat {
            Some((w, _)) => seq![DescView { symbol: ss.last().symbol@ + ".quat"@, weight: w }],
            None => Seq::empty(),
        })
    }
}

/// Descriptors generated for the z-rotation property.
pub open spec fn spec_gen_rotz(ss: Seq<CharBoneSample>) -> Seq<DescView>
    decreases ss.len(),
{
    if ss.len() == 0 {
        Seq::empty()
    } else {
        spec_gen_rotz(ss.drop_last()) + (match ss.last().rotz {
            Some((w, _)) => seq![DescView { symbol: ss.last().symbol@ + ".rotz"@, weight: w }],
            None => Seq::empty(),
        })
    }
}

impl CharBonesSamples {
    /// Rebuilds the descriptor list from the payload: in encoded form a copy
    /// of the stored descriptors; in decoded form one descriptor per present
    /// property per bone, grouped as all positions, then scales, then
    /// quaternions, then z-rotations.
    pub fn generate_bones_from_samples(&mut self)
        ensures
            final(self).compression == old(self).compression,
            final(self).counts@ == old(self).counts@,
            final(self).computed_sizes@ == old(self).computed_sizes@,
            final(self).computed_flags == old(self).computed_flags,
            final(self).samples == old(self).samples,
            final(self).frames@ == old(self).frames@,
            match old(self).samples {
                EncodedSamples::Compressed(ref bs, _) => spec_descs(final(self).bones@)
                    =~~= spec_descs(bs@),
                EncodedSamples::Uncompressed(ref ss) => spec_descs(final(self).bones@)
                    == spec_gen_pos(ss@) + spec_gen_scale(ss@) + spec_gen_quat(ss@)
                    + spec_gen_rotz(ss@),
            },
    {
        let new_bones: Vec<CharBone4Bone> = match &self.samples {
            EncodedSamples::Compressed(bs, _) => {
                let mut out: Vec<CharBone4Bone> = Vec::new();
                let mut i: usize = 0;
                while i < bs.len()
                    invariant
                        i <= bs@.len(),
                        out@.len() == i,
                        spec_descs(out@) =~~= spec_descs(bs@.take(i as int)),
                    decreases bs@.len() - i,
                {
                    out.push(CharBone4Bone { symbol: bs[i].symbol.clone(), weight: bs[i].weight });
                    i = i + 1;
                    proof {
                        assert(out@.len() == i);
                        assert(out@[i - 1].symbol == bs@[i - 1].symbol);
                        assert(spec_desc_view(out@[i - 1]) =~~= spec_desc_view(bs@[i - 1]));
                        assert(spec_descs(out@).len() == i);
                        assert(spec_descs(out@)[i - 1] =~~= spec_descs(bs@.take(i as int))[i - 1]);
                        assert(forall|j: int| 0 <= j < i - 1 ==> #[trigger] spec_descs(out@)[j] == spec_descs(bs@.take(i - 1))[j]);
                        assert(forall|j: int| 0 <= j < i - 1 ==> spec_descs(bs@.take(i - 1))[j] == spec_descs(bs@.take(i as int))[j]);
                        assert(spec_descs(out@) =~~= spec_descs(bs@.take(i as int)));
                    }
                }
                proof {
                    assert(bs@.take(bs@.len() as int) =~= bs@);
                }
                out
            },
            EncodedSamples::Uncompressed(ss) => {
                let ghost gp = spec_gen_pos(ss@);
                let ghost gs = spec_gen_scale(ss@);
                let ghost gq = spec_gen_quat(ss@);
                let ghost gr = spec_gen_rotz(ss@);
                let mut out: Vec<CharBone4Bone> = Vec::new();
                let mut i: usize = 0;
                while i < ss.len()
                    invariant
                        i <= ss@.len(),
                        out@.len() == spec_gen_pos(ss@.take(i as int)).len(),
                        forall|j: int|
                            0 <= j < out@.len() ==> #[trigger] spec_desc_view(out@[j])
                                =~~= spec_gen_pos(ss@.take(i as int))[j],
                    decreases ss@.len() - i,
                {
                    if let Some((w, _)) = &ss[i].pos {
                        let sym = ss[i].symbol.clone();
                        out.push(
                            CharBone4Bone {
                                symbol: vstd::string::StringExecFns::concat(sym, ".pos"),
                                weight: *w,
                            },
                        );
                    }
                    i = i + 1;
                    proof {
                        lemma_gen_pos_step(ss@, i as int);
                    }
                }
                proof {
                    assert(ss@.take(ss@.len() as int) =~= ss@);
                }
                let mut i: usize = 0;
                while i < ss.len()
                    invariant
                        i <= ss@.len(),
                        out@.len() == gp.len() + spec_gen_scale(ss@.take(i as int)).len(),
                        gp == spec_gen_pos(ss@),
                        forall|j: int|
                            0 <= j < gp.len() ==> #[trigger] spec_desc_view(out@[j]) =~~= gp[j],
                        forall|j: int|
                            gp.len() <= j < out@.len() ==> #[trigger] spec_desc_view(out@[j])
                                =~~= spec_gen_scale(ss@.take(i as int))[j - gp.len()],
                    decreases ss@.len() - i,
                {
                    if let Some((w, _)) = &ss[i].scale {
                        let sym = ss[i].symbol.clone();
                        out.push(
                            CharBone4Bone {
                                symbol: vstd::string::StringExecFns::concat(sym, ".scale"),
                                weight: *w,
                            },
                        );
                    }
                    i = i + 1;
                    proof {
                        lemma_gen_scale_step(ss@, i as int);
                    }
                }
                let mut i: usize = 0;
                while i < ss.len()
                    invariant
                        i <= ss@.len(),
                        out@.len() == gp.len() + gs.len() + spec_gen_quat(ss@.take(i as int)).len(),
                        gp == spec_gen_pos(ss@),
                        gs == spec_gen_scale(ss@),
                        forall|j: int|
                            0 <= j < gp.len() ==> #[trigger] spec_desc_view(out@[j]) =~~= gp[j],
                        forall|j: int|
                            gp.len() <= j < gp.len() + gs.len() ==> #[trigger] spec_desc_view(
                                out@[j],
                            ) =~~= gs[j - gp.len()],
                        forall|j: int|
                            gp.len() + gs.len() <= j < out@.len() ==> #[trigger] spec_desc_view(
                                out@[j],
                            ) =~~= spec_gen_quat(ss@.take(i as int))[j - gp.len() - gs.len()],
                    decreases ss@.len() - i,
                {
                    if let Some((w, _)) = &ss[i].quat {
                        let sym = ss[i].symbol.clone();
                        out.push(
                            CharBone4Bone {
                                symbol: vstd::string::StringExecFns::concat(sym, ".quat"),
                                weight: *w,
                            },
                        );
                    }
                    i = i + 1;
                    proof {
                        lemma_gen_quat_step(ss@, i as int);
                    }
                }
                let mut i: usize = 0;
                while i < ss.len()
                    invariant
                        i <= ss@.len(),
                        out@.len() == gp.len() + gs.len() + gq.len() + spec_gen_rotz(
                            ss@.take(i as int),
                        ).len(),
                        gp == spec_gen_pos(ss@),
                        gs == spec_gen_scale(ss@),
                        gq == spec_gen_quat(ss@),
                        forall|j: int|
                            0 <= j < gp.len() ==> #[trigger] spec_desc_view(out@[j]) =~~= gp[j],
                        forall|j: int|
                            gp.len() <= j < gp.len() + gs.len() ==> #[trigger] spec_desc_view(
                                out@[j],
                            ) =~~= gs[j - gp.len()],
                        forall|j: int|
                            gp.len() + gs.len() <= j < gp.len() + gs.len() + gq.len()
                                ==> #[trigger] spec_desc_view(out@[j]) =~~= gq[j - gp.len()
                                - gs.len()],
                        forall|j: int|
                            gp.len() + gs.len() + gq.len() <= j < out@.len()
                                ==> #[trigger] spec_desc_view(out@[j]) =~~= spec_gen_rotz(
                                ss@.take(i as int),
                            )[j - gp.len() - gs.len() - gq.len()],
                    decreases ss@.len() - i,
                {
                    if let Some((w, _)) = &ss[i].rotz {
                        let sym = ss[i].symbol.clone();
                        out.push(
                            CharBone4Bone {
                                symbol: vstd::string::StringExecFns::concat(sym, ".rotz"),
                                weight: *w,
                            },
                        );
                    }
                    i = i + 1;
                    proof {
                        lemma_gen_rotz_step(ss@, i as int);
                    }
                }
                proof {
                    let ghost rhs = gp + gs + gq + gr;
                    assert(rhs.len() == gp.len() + gs.len() + gq.len() + gr.len());
                    assert forall|j: int| 0 <= j < rhs.len() implies spec_descs(out@)[j]
                        =~~= rhs[j] by {
                        assert(spec_descs(out@)[j] == spec_desc_view(out@[j]));
                        if j < gp.len() {
                            assert(rhs[j] == gp[j]);
                        } else if j < gp.len() + gs.len() {
                            assert(rhs[j] == gs[j - gp.len()]);
                        } else if j < gp.len() + gs.len() + gq.len() {
                            assert(rhs[j] == gq[j - gp.len() - gs.len()]);
                        } else {
                            assert(rhs[j] == gr[j - gp.len() - gs.len() - gq.len()]);
                        }
                    };
                    assert(spec_descs(out@) =~~= rhs);
                }
                out
            },
        };
        self.bones = new_bones;
    }
}


/// One step of the position-descriptor generator over a growing prefix.
proof fn lemma_gen_pos_step(ss: Seq<CharBoneSample>, i: int)
    requires
        0 < i <= ss.len(),
    ensures
        spec_gen_pos(ss.take(i)) == spec_gen_pos(ss.take(i - 1)) + (match ss[i - 1].pos {
            Some((w, _)) => seq![DescView { symbol: ss[i - 1].symbol@ + ".pos"@, weight: w }],
            None => Seq::<DescView>::empty(),
        }),
{
    assert(ss.take(i).drop_last() =~= ss.take(i - 1));
    assert(ss.take(i).last() == ss[i - 1]);
}

/// One step of the scale-descriptor generator over a growing prefix.
proof fn lemma_gen_scale_step(ss: Seq<CharBoneSample>, i: int)
    requires
        0 < i <= ss.len(),
    ensures
        spec_gen_scale(ss.take(i)) == spec_gen_scale(ss.take(i - 1)) + (match ss[i - 1].scale {
            Some((w, _)) => seq![DescView { symbol: ss[i - 1].symbol@ + ".scale"@, weight: w }],
            None => Seq::<DescView>::empty(),
        }),
{
    assert(ss.take(i).drop_last() =~= ss.take(i - 1));
    assert(ss.take(i).last() == ss[i - 1]);
}

/// One step of the quaternion-descriptor generator over a growing prefix.
proof fn lemma_gen_quat_step(ss: Seq<CharBoneSample>, i: int)
    requires
        0 < i <= ss.len(),
    ensures
        spec_gen_quat(ss.take(i)) == spec_gen_quat(ss.take(i - 1)) + (match ss[i - 1].quat {
            Some((w, _)) => seq![DescView { symbol: ss[i - 1].symbol@ + ".quat"@, weight: w }],
            None => Seq::<DescView>::empty(),
        }),
{
    assert(ss.take(i).drop_last() =~= ss.take(i - 1));
    assert(ss.take(i).last() == ss[i - 1]);
}

/// One step of the z-rotation-descriptor generator over a growing prefix.
proof fn lemma_gen_rotz_step(ss: Seq<CharBoneSample>, i: int)
    requires
        0 < i <= ss.len(),
    ensures
        spec_gen_rotz(ss.take(i)) == spec_gen_rotz(ss.take(i - 1)) + (match ss[i - 1].rotz {
            Some((w, _)) => seq![DescView { symbol: ss[i - 1].symbol@ + ".rotz"@, weight: w }],
            None => Seq::<DescView>::empty(),
        }),
{
    assert(ss.take(i).drop_last() =~= ss.take(i - 1));
    assert(ss.take(i).last() == ss[i - 1]);
}

} // verus!

use crate::stream::{spec_u16_of, spec_u32_of};
use crate::symbols::{spec_base_symbol, spec_str_lt};
use crate::system::{IOEndian, SystemInfo};

verus! {

/// The `i16` denoted by two bytes under the given byte order.
pub open spec fn spec_i16_of(big: bool, b0: u8, b1: u8) -> i16 {
    spec_u16_of(big, b0, b1) as i16
}

/// Byte offset of descriptor `k`'s field inside one per-frame record: the
/// sum of the field sizes of all earlier descriptors.
pub open spec fn spec_offset(bs: Seq<CharBone4Bone>, compression: u32, k: int) -> int
    decreases k,
{
    if k <= 0 {
        0
    } else {
        spec_offset(bs, compression, k - 1) + spec_field_size(
            compression,
            spec_type_of(bs[k - 1].symbol@),
        )
    }
}

/// Field offsets grow with the descriptor index.
pub proof fn lemma_offset_monotone(bs: Seq<CharBone4Bone>, compression: u32, a: int, b: int)
    requires
        a <= b,
    ensures
        spec_offset(bs, compression, a) <= spec_offset(bs, compression, b),
    decreases b - a,
{
    if a < b {
        lemma_offset_monotone(bs, compression, a, b - 1);
    }
}

/// Field offsets are non-negative.
pub proof fn lemma_offset_nonneg(bs: Seq<CharBone4Bone>, compression: u32, k: int)
    ensures
        k >= 0 ==> spec_offset(bs, compression, k) >= 0,
    decreases (if k >= 0 { k } else { 0 }),
{
    if k > 0 {
        lemma_offset_nonneg(bs, compression, k - 1);
    }
}

/// Index of the first descriptor whose base symbol is `sym` and whose type
/// is `t`, or `bs.len()` if there is none.
pub open spec fn spec_find_desc(bs: Seq<CharBone4Bone>, sym: Seq<char>, t: u32) -> int
    decreases bs.len(),
{
    if bs.len() == 0 {
        0
    } else if spec_base_symbol(bs[0].symbol@) == sym && spec_type_of(bs[0].symbol@) == t {
        0
    } else {
        1 + spec_find_desc(bs.skip(1), sym, t)
    }
}

pub proof fn lemma_find_desc_bounds(bs: Seq<CharBone4Bone>, sym: Seq<char>, t: u32)
    ensures
        0 <= spec_find_desc(bs, sym, t) <= bs.len(),
        spec_find_desc(bs, sym, t) < bs.len() ==> {
            let k = spec_find_desc(bs, sym, t);
            spec_base_symbol(bs[k].symbol@) == sym && spec_type_of(bs[k].symbol@) == t
        },
        forall|j: int|
            0 <= j < spec_find_desc(bs, sym, t) ==> !(spec_base_symbol(
                #[trigger] bs[j].symbol@,
            ) == sym && spec_type_of(bs[j].symbol@) == t),
    decreases bs.len(),
{
    if bs.len() != 0 && !(spec_base_symbol(bs[0].symbol@) == sym && spec_type_of(bs[0].symbol@)
        == t) {
        lemma_find_desc_bounds(bs.skip(1), sym, t);
        let k = spec_find_desc(bs, sym, t);
        if k < bs.len() {
            assert(bs.skip(1)[k - 1] == bs[k]);
        }
        assert forall|j: int|
            0 <= j < k implies !(spec_base_symbol(#[trigger] bs[j].symbol@) == sym && spec_type_of(
            bs[j].symbol@,
        ) == t) by {
            if j > 0 {
                assert(bs.skip(1)[j - 1] == bs[j]);
            }
        }
    }
}

/// The three-component sample denoted by the bytes at `off` in a record.
pub open spec fn spec_dec_vec3(rec: Seq<u8>, off: int, compression: u32, big: bool) -> Vec3Sample {
    if compression < 2 {
        Vec3Sample::Full(
            spec_u32_of(big, rec[off], rec[off + 1], rec[off + 2], rec[off + 3]),
            spec_u32_of(big, rec[off + 4], rec[off + 5], rec[off + 6], rec[off + 7]),
            spec_u32_of(big, rec[off + 8], rec[off + 9], rec[off + 10], rec[off + 11]),
        )
    } else {
        Vec3Sample::Packed(
            spec_i16_of(big, rec[off], rec[off + 1]),
            spec_i16_of(big, rec[off + 2], rec[off + 3]),
            spec_i16_of(big, rec[off + 4], rec[off + 5]),
        )
    }
}

/// The quaternion sample denoted by the bytes at `off` in a record.
pub open spec fn spec_dec_quat(rec: Seq<u8>, off: int, compression: u32, big: bool) -> QuatSample {
    if compression == 0 {
        QuatSample::Full(
            spec_u32_of(big, rec[off], rec[off + 1], rec[off + 2], rec[off + 3]),
            spec_u32_of(big, rec[off + 4], rec[off + 5], rec[off + 6], rec[off + 7]),
            spec_u32_of(big, rec[off + 8], rec[off + 9], rec[off + 10], rec[off + 11]),
            spec_u32_of(big, rec[off + 12], rec[off + 13], rec[off + 14], rec[off + 15]),
        )
    } else {
        QuatSample::Packed(
            spec_i16_of(big, rec[off], rec[off + 1]),
            spec_i16_of(big, rec[off + 2], rec[off + 3]),
            spec_i16_of(big, rec[off + 4], rec[off + 5]),
            spec_i16_of(big, rec[off + 6], rec[off + 7]),
        )
    }
}

/// The single-axis rotation sample denoted by the bytes at `off` in a record.
pub open spec fn spec_dec_rot(rec: Seq<u8>, off: int, compression: u32, big: bool) -> RotSample {
    if compression == 0 {
        RotSample::Full(spec_u32_of(big, rec[off], rec[off + 1], rec[off + 2], rec[off + 3]))
    } else {
        RotSample::Packed(spec_i16_of(big, rec[off], rec[off + 1]))
    }
}

/// A descriptor type the decoder handles: position, scale, z-rotation, or a
/// quaternion below the strongest compression level.
pub open spec fn spec_desc_decodable(compression: u32, t: u32) -> bool {
    t == 0 || t == 1 || t == 5 || (t == 2 && compression <= 2)
}

/// What a decoded three-component property of base symbol `sym` and type `t`
/// must hold: nothing if no descriptor matches, else the matching
/// descriptor's weight and one decoded field per frame.
pub open spec fn spec_prop_vec3(
    bs: Seq<CharBone4Bone>,
    recs: Seq<Vec<u8>>,
    compression: u32,
    big: bool,
    sym: Seq<char>,
    t: u32,
    prop: Option<(u32, Vec<Vec3Sample>)>,
) -> bool {
    let k = spec_find_desc(bs, sym, t);
    if k == bs.len() {
        prop is None
    } else {
        let off = spec_offset(bs, compression, k);
        prop matches Some((w, vals)) && w == bs[k].weight && vals@ == Seq::new(
            recs.len(),
            |f: int| spec_dec_vec3(recs[f]@, off, compression, big),
        )
    }
}

/// As [`spec_prop_vec3`], for the quaternion property.
pub open spec fn spec_prop_quat(
    bs: Seq<CharBone4Bone>,
    recs: Seq<Vec<u8>>,
    compression: u32,
    big: bool,
    sym: Seq<char>,
    prop: Option<(u32, Vec<QuatSample>)>,
) -> bool {
    let k = spec_find_desc(bs, sym, 2);
    if k == bs.len() {
        prop is None
    } else {
        let off = spec_offset(bs, compression, k);
        prop matches Some((w, vals)) && w == bs[k].weight && vals@ == Seq::new(
            recs.len(),
            |f: int| spec_dec_quat(recs[f]@, off, compression, big),
        )
    }
}

/// As [`spec_prop_vec3`], for the z-rotation property.
pub open spec fn spec_prop_rot(
    bs: Seq<CharBone4Bone>,
    recs: Seq<Vec<u8>>,
    compression: u32,
    big: bool,
    sym: Seq<char>,
    prop: Option<(u32, Vec<RotSample>)>,
) -> bool {
    let k = spec_find_desc(bs, sym, 5);
    if k == bs.len() {
        prop is None
    } else {
        let off = spec_offset(bs, compression, k);
        prop matches Some((w, vals)) && w == bs[k].weight && vals@ == Seq::new(
            recs.len(),
            |f: int| spec_dec_rot(recs[f]@, off, compression, big),
        )
    }
}

/// One decoded bone entry is exactly what the descriptors and records of
/// the bank denote for its base symbol.
pub open spec fn spec_decoded_entry(
    bs: Seq<CharBone4Bone>,
    recs: Seq<Vec<u8>>,
    compression: u32,
    big: bool,
    e: CharBoneSample,
) -> bool {
    &&& spec_prop_vec3(bs, recs, compression, big, e.symbol@, 0, e.pos)
    &&& spec_prop_vec3(bs, recs, compression, big, e.symbol@, 1, e.scale)
    &&& spec_prop_quat(bs, recs, compression, big, e.symbol@, e.quat)
    &&& spec_prop_rot(bs, recs, compression, big, e.symbol@, e.rotz)
}

/// Some decoded entry carries the symbol `s`.
pub open spec fn spec_has_entry_sym(rs: Seq<CharBoneSample>, s: Seq<char>) -> bool {
    exists|i: int| 0 <= i < rs.len() && #[trigger] rs[i].symbol@ == s
}

/// Some descriptor's base symbol is `s`.
pub open spec fn spec_has_base(bs: Seq<CharBone4Bone>, s: Seq<char>) -> bool {
    exists|k: int| 0 <= k < bs.len() && spec_base_symbol(#[trigger] bs[k].symbol@) == s
}

/// Some name list entry's view is `s`.
pub open spec fn spec_has_name(v: Seq<String>, s: Seq<char>) -> bool {
    exists|i: int| 0 <= i < v.len() && #[trigger] v[i]@ == s
}

/// A strictly sorted name list (lexicographic, hence duplicate-free).
pub open spec fn spec_names_sorted(v: Seq<String>) -> bool {
    forall|a: int, b: int| 0 <= a < b < v.len() ==> #[trigger] spec_str_lt(v[a]@, v[b]@)
}

/// Reads a `u32` field out of a record at the given offset.
fn rec_u32_at(rec: &Vec<u8>, off: usize, big: bool) -> (r: u32)
    requires
        off + 4 <= rec@.len(),
    ensures
        r == spec_u32_of(big, rec@[off as int], rec@[off + 1], rec@[off + 2], rec@[off + 3]),
{
    let n = rec.len();
    proof {
        assert(off + 4 <= n);
    }
    let b0 = rec[off];
    let b1 = rec[off + 1];
    let b2 = rec[off + 2];
    let b3 = rec[off + 3];
    if big {
        (b0 as u32) * 0x1000000 + (b1 as u32) * 0x10000 + (b2 as u32) * 0x100 + (b3 as u32)
    } else {
        (b3 as u32) * 0x1000000 + (b2 as u32) * 0x10000 + (b1 as u32) * 0x100 + (b0 as u32)
    }
}

/// Reads a packed `i16` field out of a record at the given offset.
fn rec_i16_at(rec: &Vec<u8>, off: usize, big: bool) -> (r: i16)
    requires
        off + 2 <= rec@.len(),
    ensures
        r == spec_i16_of(big, rec@[off as int], rec@[off + 1]),
{
    let n = rec.len();
    proof {
        assert(off + 2 <= n);
    }
    let b0 = rec[off];
    let b1 = rec[off + 1];
    if big {
        ((b0 as u16) * 0x100 + (b1 as u16)) as i16
    } else {
        ((b1 as u16) * 0x100 + (b0 as u16)) as i16
    }
}

/// Byte offset of descriptor `k`'s field inside one record.
fn field_offset(bones: &Vec<CharBone4Bone>, compression: u32, k: usize) -> (r: usize)
    requires
        k <= bones@.len(),
        spec_offset(bones@, compression, bones@.len() as int) <= usize::MAX,
    ensures
        r == spec_offset(bones@, compression, k as int),
{
    let mut acc: usize = 0;
    let mut j: usize = 0;
    while j < k
        invariant
            j <= k <= bones@.len(),
            acc == spec_offset(bones@, compression, j as int),
            spec_offset(bones@, compression, bones@.len() as int) <= usize::MAX,
        decreases k - j,
    {
        let t = CharBonesSamples::get_type_of(bones[j].symbol.as_str());
        let sz = if compression > 3 || t > 5 {
            0
        } else if t < 2 {
            if compression < 2 {
                12
            } else {
                6
            }
        } else if t == 2 {
            if compression == 0 {
                16
            } else if compression < 3 {
                8
            } else {
                4
            }
        } else {
            if compression == 0 {
                4
            } else {
                2
            }
        };
        proof {
            assert(sz == spec_field_size(compression, spec_type_of(bones@[j as int].symbol@)));
            lemma_offset_monotone(bones@, compression, j + 1, bones@.len() as int);
            lemma_offset_monotone(bones@, compression, 0, j as int);
        }
        acc = acc + sz;
        j = j + 1;
    }
    acc
}

/// Finds the first descriptor with the given base symbol and type.
fn find_desc(bones: &Vec<CharBone4Bone>, sym: &String, t: u32) -> (r: usize)
    ensures
        r == spec_find_desc(bones@, sym@, t),
        r <= bones@.len(),
{
    proof {
        lemma_find_desc_bounds(bones@, sym@, t);
    }
    let mut j: usize = 0;
    while j < bones.len()
        invariant
            j <= bones@.len(),
            forall|m: int|
                0 <= m < j ==> !(spec_base_symbol(#[trigger] bones@[m].symbol@) == sym@
                    && spec_type_of(bones@[m].symbol@) == t),
        decreases bones@.len() - j,
    {
        let base = crate::symbols::get_basename(bones[j].symbol.as_str());
        let ty = CharBonesSamples::get_type_of(bones[j].symbol.as_str());
        if ty == t && base == *sym {
            proof {
                lemma_find_desc_first(bones@, sym@, t, j as int);
            }
            return j;
        }
        j = j + 1;
    }
    proof {
        lemma_find_desc_bounds(bones@, sym@, t);
        if spec_find_desc(bones@, sym@, t) < bones@.len() {
            let k = spec_find_desc(bones@, sym@, t);
            assert(!(spec_base_symbol(bones@[k].symbol@) == sym@ && spec_type_of(bones@[k].symbol@)
                == t));
        }
    }
    bones.len()
}

/// The first matching index is the index with no match before it.
proof fn lemma_find_desc_first(bs: Seq<CharBone4Bone>, sym: Seq<char>, t: u32, j: int)
    requires
        0 <= j < bs.len(),
        spec_base_symbol(bs[j].symbol@) == sym && spec_type_of(bs[j].symbol@) == t,
        forall|m: int|
            0 <= m < j ==> !(spec_base_symbol(#[trigger] bs[m].symbol@) == sym && spec_type_of(
                bs[m].symbol@,
            ) == t),
    ensures
        spec_find_desc(bs, sym, t) == j,
{
    lemma_find_desc_bounds(bs, sym, t);
    let k = spec_find_desc(bs, sym, t);
    if k < j {
        assert(spec_base_symbol(bs[k].symbol@) == sym && spec_type_of(bs[k].symbol@) == t);
    }
    if k > j {
        assert(!(spec_base_symbol(bs[j].symbol@) == sym && spec_type_of(bs[j].symbol@) == t));
    }
}

} // verus!

verus! {

/// Inserts a base symbol into a strictly sorted name list, keeping it sorted
/// and dropping a duplicate.
fn insert_base(order: &mut Vec<String>, base: String)
    requires
        spec_names_sorted(old(order)@),
    ensures
        spec_names_sorted(final(order)@),
        forall|s: Seq<char>|
            #[trigger] spec_has_name(final(order)@, s) <==> (spec_has_name(old(order)@, s) || s
                == base@),
{
    let mut p: usize = 0;
    while p < order.len() && crate::symbols::str_lt(order[p].as_str(), base.as_str())
        invariant
            p <= order@.len(),
            order@ == old(order)@,
            forall|j: int| 0 <= j < p ==> spec_str_lt(#[trigger] order@[j]@, base@),
        decreases order@.len() - p,
    {
        p = p + 1;
    }
    if p < order.len() {
        if order[p] == base {
            proof {
                assert(order@[p as int]@ == base@);
                assert(spec_has_name(order@, base@));
                assert forall|s: Seq<char>| #[trigger]
                    spec_has_name(order@, s) <==> (spec_has_name(old(order)@, s) || s
                    == base@) by {}
            }
            return ;
        }
    }
    proof {
        if p < order@.len() {
            crate::symbols::lemma_str_lt_connected(order@[p as int]@, base@);
            assert(spec_str_lt(base@, order@[p as int]@));
        }
    }
    let ghost pre = order@;
    order.insert(p, base);
    proof {
        assert forall|a: int, b: int|
            0 <= a < b < order@.len() implies #[trigger] spec_str_lt(
            order@[a]@,
            order@[b]@,
        ) by {
            if b < p {
                assert(order@[a] == pre[a] && order@[b] == pre[b]);
            } else if a < p && b == p {
                assert(order@[a] == pre[a] && order@[b]@ == base@);
            } else if a < p && b > p {
                assert(order@[a] == pre[a] && order@[b] == pre[b - 1]);
            } else if a == p && b > p {
                assert(order@[a]@ == base@ && order@[b] == pre[b - 1]);
                if b - 1 > p {
                    assert(spec_str_lt(pre[p as int]@, pre[b - 1]@));
                    crate::symbols::lemma_str_lt_trans(base@, pre[p as int]@, pre[b - 1]@);
                }
            } else {
                assert(order@[a] == pre[a - 1] && order@[b] == pre[b - 1]);
            }
        }
        assert forall|s: Seq<char>| #[trigger]
            spec_has_name(order@, s) <==> (spec_has_name(pre, s) || s == base@) by {
            if spec_has_name(order@, s) {
                let i = choose|i: int| 0 <= i < order@.len() && #[trigger] order@[i]@ == s;
                if i < p {
                    assert(pre[i]@ == s);
                } else if i == p {
                } else {
                    assert(pre[i - 1]@ == s);
                }
            }
            if spec_has_name(pre, s) {
                let i = choose|i: int| 0 <= i < pre.len() && #[trigger] pre[i]@ == s;
                if i < p {
                    assert(order@[i]@ == s);
                } else {
                    assert(order@[i + 1]@ == s);
                }
            }
            if s == base@ {
                assert(order@[p as int]@ == s);
            }
        }
    }
}

/// Decodes one three-component property (position or scale) for a base
/// symbol out of the raw records.
fn build_vec3_prop(
    bones: &Vec<CharBone4Bone>,
    records: &Vec<Vec<u8>>,
    compression: u32,
    big: bool,
    sym: &String,
    t: u32,
) -> (r: Option<(u32, Vec<Vec3Sample>)>)
    requires
        t == 0 || t == 1,
        compression <= 3,
        spec_offset(bones@, compression, bones@.len() as int) <= usize::MAX,
        forall|f: int|
            0 <= f < records@.len() ==> (#[trigger] records@[f])@.len() >= spec_offset(
                bones@,
                compression,
                bones@.len() as int,
            ),
    ensures
        spec_prop_vec3(bones@, records@, compression, big, sym@, t, r),
{
    let k = find_desc(bones, sym, t);
    proof {
        lemma_find_desc_bounds(bones@, sym@, t);
    }
    if k == bones.len() {
        return None;
    }
    let off = field_offset(bones, compression, k);
    proof {
        lemma_offset_monotone(bones@, compression, k + 1, bones@.len() as int);
        lemma_offset_nonneg(bones@, compression, k as int);
        assert(spec_type_of(bones@[k as int].symbol@) == t);
        assert(spec_offset(bones@, compression, k + 1) == off + spec_field_size(compression, t));
    }
    let mut vals: Vec<Vec3Sample> = Vec::new();
    let mut f: usize = 0;
    while f < records.len()
        invariant
            t == 0 || t == 1,
            compression <= 3,
            f <= records@.len(),
            vals@.len() == f,
            off == spec_offset(bones@, compression, k as int),
            off + spec_field_size(compression, t) <= usize::MAX,
            forall|g: int|
                0 <= g < records@.len() ==> (#[trigger] records@[g])@.len() >= off
                    + spec_field_size(compression, t),
            forall|g: int|
                0 <= g < f ==> #[trigger] vals@[g] == spec_dec_vec3(
                    records@[g]@,
                    off as int,
                    compression,
                    big,
                ),
        decreases records@.len() - f,
    {
        let rec = &records[f];
        proof {
            assert(records@[f as int]@.len() >= off + spec_field_size(compression, t));
            assert(compression < 2 ==> spec_field_size(compression, t) == 12);
            assert(compression >= 2 ==> spec_field_size(compression, t) == 6);
        }
        let v = if compression < 2 {
            Vec3Sample::Full(
                rec_u32_at(rec, off, big),
                rec_u32_at(rec, off + 4, big),
                rec_u32_at(rec, off + 8, big),
            )
        } else {
            Vec3Sample::Packed(
                rec_i16_at(rec, off, big),
                rec_i16_at(rec, off + 2, big),
                rec_i16_at(rec, off + 4, big),
            )
        };
        vals.push(v);
        f = f + 1;
    }
    proof {
        assert(vals@ =~= Seq::new(
            records@.len(),
            |g: int| spec_dec_vec3(records@[g]@, off as int, compression, big),
        ));
    }
    Some((bones[k].weight, vals))
}

/// Decodes the quaternion property for a base symbol out of the raw records.
fn build_quat_prop(
    bones: &Vec<CharBone4Bone>,
    records: &Vec<Vec<u8>>,
    compression: u32,
    big: bool,
    sym: &String,
) -> (r: Option<(u32, Vec<QuatSample>)>)
    requires
        compression <= 3,
        spec_offset(bones@, compression, bones@.len() as int) <= usize::MAX,
        forall|f: int|
            0 <= f < records@.len() ==> (#[trigger] records@[f])@.len() >= spec_offset(
                bones@,
                compression,
                bones@.len() as int,
            ),
        spec_find_desc(bones@, sym@, 2) < bones@.len() ==> compression <= 2,
    ensures
        spec_prop_quat(bones@, records@, compression, big, sym@, r),
{
    let k = find_desc(bones, sym, 2);
    proof {
        lemma_find_desc_bounds(bones@, sym@, 2);
    }
    if k == bones.len() {
        return None;
    }
    let off = field_offset(bones, compression, k);
    proof {
        lemma_offset_monotone(bones@, compression, k + 1, bones@.len() as int);
        lemma_offset_nonneg(bones@, compression, k as int);
        assert(spec_type_of(bones@[k as int].symbol@) == 2);
        assert(spec_offset(bones@, compression, k + 1) == off + spec_field_size(compression, 2));
    }
    let mut vals: Vec<QuatSample> = Vec::new();
    let mut f: usize = 0;
    while f < records.len()
        invariant
            f <= records@.len(),
            vals@.len() == f,
            compression <= 2,
            off == spec_offset(bones@, compression, k as int),
            off + spec_field_size(compression, 2) <= usize::MAX,
            forall|g: int|
                0 <= g < records@.len() ==> (#[trigger] records@[g])@.len() >= off
                    + spec_field_size(compression, 2),
            forall|g: int|
                0 <= g < f ==> #[trigger] vals@[g] == spec_dec_quat(
                    records@[g]@,
                    off as int,
                    compression,
                    big,
                ),
        decreases records@.len() - f,
    {
        let rec = &records[f];
        proof {
            assert(records@[f as int]@.len() >= off + spec_field_size(compression, 2));
        }
        let v = if compression == 0 {
            QuatSample::Full(
                rec_u32_at(rec, off, big),
                rec_u32_at(rec, off + 4, big),
                rec_u32_at(rec, off + 8, big),
                rec_u32_at(rec, off + 12, big),
            )
        } else {
            QuatSample::Packed(
                rec_i16_at(rec, off, big),
                rec_i16_at(rec, off + 2, big),
                rec_i16_at(rec, off + 4, big),
                rec_i16_at(rec, off + 6, big),
            )
        };
        vals.push(v);
        f = f + 1;
    }
    proof {
        assert(vals@ =~= Seq::new(
            records@.len(),
            |g: int| spec_dec_quat(records@[g]@, off as int, compression, big),
        ));
    }
    Some((bones[k].weight, vals))
}

/// Decodes the z-rotation property for a base symbol out of the raw records.
fn build_rot_prop(
    bones: &Vec<CharBone4Bone>,
    records: &Vec<Vec<u8>>,
    compression: u32,
    big: bool,
    sym: &String,
) -> (r: Option<(u32, Vec<RotSample>)>)
    requires
        compression <= 3,
        spec_offset(bones@, compression, bones@.len() as int) <= usize::MAX,
        forall|f: int|
            0 <= f < records@.len() ==> (#[trigger] records@[f])@.len() >= spec_offset(
                bones@,
                compression,
                bones@.len() as int,
            ),
    ensures
        spec_prop_rot(bones@, records@, compression, big, sym@, r),
{
    let k = find_desc(bones, sym, 5);
    proof {
        lemma_find_desc_bounds(bones@, sym@, 5);
    }
    if k == bones.len() {
        return None;
    }
    let off = field_offset(bones, compression, k);
    proof {
        lemma_offset_monotone(bones@, compression, k + 1, bones@.len() as int);
        lemma_offset_nonneg(bones@, compression, k as int);
        assert(spec_type_of(bones@[k as int].symbol@) == 5);
        assert(spec_offset(bones@, compression, k + 1) == off + spec_field_size(compression, 5));
    }
    let mut vals: Vec<RotSample> = Vec::new();
    let mut f: usize = 0;
    while f < records.len()
        invariant
            compression <= 3,
            f <= records@.len(),
            vals@.len() == f,
            off == spec_offset(bones@, compression, k as int),
            off + spec_field_size(compression, 5) <= usize::MAX,
            forall|g: int|
                0 <= g < records@.len() ==> (#[trigger] records@[g])@.len() >= off
                    + spec_field_size(compression, 5),
            forall|g: int|
                0 <= g < f ==> #[trigger] vals@[g] == spec_dec_rot(
                    records@[g]@,
                    off as int,
                    compression,
                    big,
                ),
        decreases records@.len() - f,
    {
        let rec = &records[f];
        proof {
            assert(records@[f as int]@.len() >= off + spec_field_size(compression, 5));
            assert(compression == 0 ==> spec_field_size(compression, 5) == 4);
            assert(compression != 0 ==> spec_field_size(compression, 5) == 2);
        }
        let v = if compression == 0 {
            RotSample::Full(rec_u32_at(rec, off, big))
        } else {
            RotSample::Packed(rec_i16_at(rec, off, big))
        };
        vals.push(v);
        f = f + 1;
    }
    proof {
        assert(vals@ =~= Seq::new(
            records@.len(),
            |g: int| spec_dec_rot(records@[g]@, off as int, compression, big),
        ));
    }
    Some((bones[k].weight, vals))
}

impl CharBonesSamples {
    /// Decodes the encoded payload into per-bone structured samples, one
    /// entry per distinct base symbol, sorted by symbol.  A bank already in
    /// decoded form yields no entries.
    pub fn decode_samples(&self, sys_info: &SystemInfo) -> (r: Vec<CharBoneSample>)
        requires
            match self.samples {
                EncodedSamples::Compressed(ref bs, ref recs) => {
                    &&& self.compression <= 3
                    &&& forall|k: int|
                        0 <= k < bs@.len() ==> spec_desc_decodable(
                            self.compression,
                            spec_type_of(#[trigger] bs@[k].symbol@),
                        )
                    &&& spec_offset(bs@, self.compression, bs@.len() as int) <= usize::MAX
                    &&& forall|f: int|
                        0 <= f < recs@.len() ==> (#[trigger] recs@[f])@.len() >= spec_offset(
                            bs@,
                            self.compression,
                            bs@.len() as int,
                        )
                },
                EncodedSamples::Uncompressed(_) => true,
            },
        ensures
            match self.samples {
                EncodedSamples::Compressed(ref bs, ref recs) => {
                    let big = self.spec_big_endian(sys_info);
                    &&& spec_names_sorted_entries(r@)
                    &&& forall|k: int|
                        0 <= k < bs@.len() ==> spec_has_entry_sym(
                            r@,
                            spec_base_symbol(#[trigger] bs@[k].symbol@),
                        )
                    &&& forall|i: int|
                        0 <= i < r@.len() ==> spec_has_base(bs@, (#[trigger] r@[i]).symbol@)
                    &&& forall|i: int|
                        0 <= i < r@.len() ==> spec_decoded_entry(
                            bs@,
                            recs@,
                            self.compression,
                            big,
                            #[trigger] r@[i],
                        )
                },
                EncodedSamples::Uncompressed(_) => r@.len() == 0,
            },
    {
        let (bones, records) = match &self.samples {
            EncodedSamples::Compressed(b, r) => (b, r),
            EncodedSamples::Uncompressed(_) => {
                return Vec::new();
            },
        };
        let big = matches!(sys_info.endian, IOEndian::Big);
        let mut order: Vec<String> = Vec::new();
        let mut k: usize = 0;
        while k < bones.len()
            invariant
                k <= bones@.len(),
                spec_names_sorted(order@),
                forall|m: int|
                    0 <= m < k ==> spec_has_name(
                        order@,
                        spec_base_symbol(#[trigger] bones@[m].symbol@),
                    ),
                forall|a: int|
                    0 <= a < order@.len() ==> spec_has_base(bones@, #[trigger] order@[a]@),
            decreases bones@.len() - k,
        {
            let base = crate::symbols::get_basename(bones[k].symbol.as_str());
            let ghost pre = order@;
            insert_base(&mut order, base);
            proof {
                assert forall|a: int|
                    0 <= a < order@.len() implies spec_has_base(
                    bones@,
                    #[trigger] order@[a]@,
                ) by {
                    assert(spec_has_name(order@, order@[a]@));
                    if !spec_has_name(pre, order@[a]@) {
                        assert(order@[a]@ == spec_base_symbol(bones@[k as int].symbol@));
                    } else {
                        let i = choose|i: int| 0 <= i < pre.len() && #[trigger] pre[i]@ == order@[a]@;
                    }
                }
            }
            k = k + 1;
        }
        let mut out: Vec<CharBoneSample> = Vec::new();
        let mut i: usize = 0;
        while i < order.len()
            invariant
                i <= order@.len(),
                out@.len() == i,
                self.samples matches EncodedSamples::Compressed(b, r) && b@ == bones@ && r@
                    == records@,
                self.compression <= 3,
                big == self.spec_big_endian(sys_info),
                forall|m: int|
                    0 <= m < bones@.len() ==> spec_desc_decodable(
                        self.compression,
                        spec_type_of(#[trigger] bones@[m].symbol@),
                    ),
                spec_offset(bones@, self.compression, bones@.len() as int) <= usize::MAX,
                forall|f: int|
                    0 <= f < records@.len() ==> (#[trigger] records@[f])@.len() >= spec_offset(
                        bones@,
                        self.compression,
                        bones@.len() as int,
                    ),
                forall|j: int| 0 <= j < i ==> (#[trigger] out@[j]).symbol@ == order@[j]@,
                forall|j: int|
                    0 <= j < i ==> spec_decoded_entry(
                        bones@,
                        records@,
                        self.compression,
                        big,
                        #[trigger] out@[j],
                    ),
            decreases order@.len() - i,
        {
            let sym = order[i].clone();
            proof {
                lemma_find_desc_bounds(bones@, sym@, 2);
                if spec_find_desc(bones@, sym@, 2) < bones@.len() {
                    let kq = spec_find_desc(bones@, sym@, 2);
                    assert(spec_desc_decodable(self.compression, spec_type_of(bones@[kq].symbol@)));
                }
            }
            let pos = build_vec3_prop(bones, records, self.compression, big, &sym, 0);
            let scale = build_vec3_prop(bones, records, self.compression, big, &sym, 1);
            let quat = build_quat_prop(bones, records, self.compression, big, &sym);
            let rotz = build_rot_prop(bones, records, self.compression, big, &sym);
            out.push(CharBoneSample { symbol: sym, pos, scale, quat, rotz });
            i = i + 1;
        }
        proof {
            assert forall|a: int, b: int|
                0 <= a < b < out@.len() implies #[trigger] spec_str_lt(
                out@[a].symbol@,
                out@[b].symbol@,
            ) by {
                assert(spec_str_lt(order@[a]@, order@[b]@));
            }
            assert forall|m: int|
                0 <= m < bones@.len() implies spec_has_entry_sym(
                out@,
                spec_base_symbol(#[trigger] bones@[m].symbol@),
            ) by {
                let s = spec_base_symbol(bones@[m].symbol@);
                assert(spec_has_name(order@, s));
                let a = choose|a: int| 0 <= a < order@.len() && #[trigger] order@[a]@ == s;
                assert(out@[a].symbol@ == s);
            }
            assert forall|j: int|
                0 <= j < out@.len() implies spec_has_base(bones@, (#[trigger] out@[j]).symbol@) by {
                assert(spec_has_base(bones@, order@[j]@));
            }
        }
        out
    }

    /// Whether the given profile selects big-endian fields.
    pub open spec fn spec_big_endian(&self, sys_info: &SystemInfo) -> bool {
        sys_info.endian is Big
    }
}

/// Decoded entries in strictly ascending symbol order.
pub open spec fn spec_names_sorted_entries(rs: Seq<CharBoneSample>) -> bool {
    forall|a: int, b: int|
        0 <= a < b < rs.len() ==> #[trigger] spec_str_lt(rs[a].symbol@, rs[b].symbol@)
}

} // verus!
