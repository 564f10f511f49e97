//! Model-level tests: type classification, sizes, offset tables, decoding.

use pikaxe::char_bone::{CharBone, RotationConstraint};
use pikaxe::char_bones_samples::{
    CharBone4Bone, CharBoneSample, CharBonesSamples, EncodedSamples, QuatSample, RotSample,
    Vec3Sample,
};
use pikaxe::char_clip_samples::{self, CharClipSamples};
use pikaxe::stream::ByteWriter;
use pikaxe::symbols::{get_basename, str_lt, u32_to_decimal};
use pikaxe::system::{IOEndian, Platform, SystemInfo};

#[test]
fn char_bones_get_type_of() {
    // A symbol's extension (case-insensitively) names its transform
    // property; anything else is "other".
    assert_eq!(CharBonesSamples::get_type_of(""), 7);
    assert_eq!(CharBonesSamples::get_type_of("bone"), 7);
    assert_eq!(CharBonesSamples::get_type_of("bone."), 7);
    assert_eq!(CharBonesSamples::get_type_of("bone.pdf"), 7);
    assert_eq!(CharBonesSamples::get_type_of("bone.pos"), 0);
    assert_eq!(CharBonesSamples::get_type_of("bone.scale"), 1);
    assert_eq!(CharBonesSamples::get_type_of("bone.quat"), 2);
    assert_eq!(CharBonesSamples::get_type_of("bone.rotx"), 3);
    assert_eq!(CharBonesSamples::get_type_of("bone.roty"), 4);
    assert_eq!(CharBonesSamples::get_type_of("bone.rotz"), 5);
    assert_eq!(CharBonesSamples::get_type_of("bone.POS"), 0);
}

fn bank_with_compression(c: u32) -> CharBonesSamples {
    let mut b = CharBonesSamples::default();
    b.compression = c;
    b
}

#[test]
fn char_bones_get_type_size() {
    // The offset-table slot sizes per compression level.
    let cases: &[(u32, u32, u32)] = &[
        (0, 0, 16),
        (0, 1, 16),
        (0, 2, 16),
        (0, 3, 4),
        (0, 4, 4),
        (0, 5, 4),
        (0, 6, 4),
        (1, 0, 16),
        (1, 1, 16),
        (1, 2, 8),
        (1, 3, 2),
        (1, 4, 2),
        (1, 5, 2),
        (1, 6, 2),
        (2, 0, 6),
        (2, 1, 6),
        (2, 2, 8),
        (2, 3, 2),
        (2, 4, 2),
        (2, 5, 2),
        (2, 6, 2),
    ];
    for (compression, idx, expected) in cases {
        let bank = bank_with_compression(*compression);
        assert_eq!(bank.get_type_size(*idx), *expected);
    }
}

#[test]
fn per_frame_field_sizes() {
    // Field sizes at level 0: position 12, quaternion 16, single-axis 4;
    // at level 3: position 6, quaternion 4, single-axis 2.
    let b0 = bank_with_compression(0);
    assert_eq!(b0.get_type_size2(0), 12);
    assert_eq!(b0.get_type_size2(2), 16);
    assert_eq!(b0.get_type_size2(5), 4);
    let b3 = bank_with_compression(3);
    assert_eq!(b3.get_type_size2(0), 6);
    assert_eq!(b3.get_type_size2(2), 4);
    assert_eq!(b3.get_type_size2(5), 2);
}

#[test]
fn recompute_sizes_offset_table() {
    // Counts [0,1,1,22,22,22,32] at level 1 give cumulative sizes
    // [0,16,16,184,184,184,204] and a padded total of 208.
    let mut bank = bank_with_compression(1);
    bank.counts = vec![0, 1, 1, 22, 22, 22, 32];
    bank.recompute_sizes();
    assert_eq!(bank.computed_sizes, vec![0, 16, 16, 184, 184, 184, 204]);
    assert_eq!(bank.computed_flags, 208);
}

#[test]
fn recompute_sizes_empty_and_level2() {
    let mut bank = bank_with_compression(2);
    bank.counts = vec![0, 0, 0, 0, 0, 0, 0];
    bank.recompute_sizes();
    assert_eq!(bank.computed_sizes, vec![0, 0, 0, 0, 0, 0, 0]);
    assert_eq!(bank.computed_flags, 0);

    let mut bank = bank_with_compression(2);
    bank.counts = vec![0, 36, 36, 53, 53, 53, 53];
    bank.recompute_sizes();
    assert_eq!(bank.computed_sizes, vec![0, 216, 216, 352, 352, 352, 352]);
    assert_eq!(bank.computed_flags, 352);
}

#[test]
fn generate_bones_groups_by_property() {
    // Descriptors come out grouped as positions, then scales, then
    // quaternions, then z-rotations, in bone order within each group.
    let mut bank = CharBonesSamples::default();
    let s1 = CharBoneSample {
        symbol: String::from("a"),
        pos: Some((1.0f32.to_bits(), vec![])),
        scale: None,
        quat: Some((1.0f32.to_bits(), vec![])),
        rotz: None,
    };
    let s2 = CharBoneSample {
        symbol: String::from("b"),
        pos: Some((0.5f32.to_bits(), vec![])),
        scale: None,
        quat: None,
        rotz: Some((1.0f32.to_bits(), vec![])),
    };
    bank.samples = EncodedSamples::Uncompressed(vec![s1, s2]);
    bank.generate_bones_from_samples();
    let names: Vec<&str> = bank.bones.iter().map(|b| b.symbol.as_str()).collect();
    assert_eq!(names, vec!["a.pos", "b.pos", "a.quat", "b.rotz"]);
    assert_eq!(bank.bones[1].weight, 0.5f32.to_bits());
}

#[test]
fn decode_samples_reads_fields_in_type_order() {
    // One bone with a packed position and a packed z-rotation at level 2:
    // the record holds six position bytes, then two rotation bytes.
    let mut bank = bank_with_compression(2);
    let bones = vec![
        CharBone4Bone {
            symbol: String::from("bone_a.pos"),
            weight: 1.0f32.to_bits(),
        },
        CharBone4Bone {
            symbol: String::from("bone_a.rotz"),
            weight: 1.0f32.to_bits(),
        },
    ];
    // Big-endian packed values 1, 2, 3 and 100.
    let rec = vec![0, 1, 0, 2, 0, 3, 0, 100];
    bank.samples = EncodedSamples::Compressed(bones, vec![rec]);
    let info = SystemInfo {
        version: 25,
        platform: Platform::X360,
        endian: IOEndian::Big,
    };
    let decoded = bank.decode_samples(&info);
    assert_eq!(decoded.len(), 1);
    assert_eq!(decoded[0].symbol, "bone_a");
    let (pw, pos) = decoded[0].pos.as_ref().unwrap();
    assert_eq!(*pw, 1.0f32.to_bits());
    assert_eq!(pos, &vec![Vec3Sample::Packed(1, 2, 3)]);
    let (_, rotz) = decoded[0].rotz.as_ref().unwrap();
    assert_eq!(rotz, &vec![RotSample::Packed(100)]);
    assert!(decoded[0].quat.is_none());
    assert!(decoded[0].scale.is_none());
}

#[test]
fn decode_samples_full_precision_and_sorting() {
    let mut bank = bank_with_compression(0);
    let bones = vec![
        CharBone4Bone {
            symbol: String::from("zeta.quat"),
            weight: 1.0f32.to_bits(),
        },
        CharBone4Bone {
            symbol: String::from("alpha.quat"),
            weight: 2.0f32.to_bits(),
        },
    ];
    let mut w = ByteWriter::new(IOEndian::Little);
    for v in [1.0f32, 2.0, 3.0, 4.0, 5.0, 6.0, 7.0, 8.0] {
        w.write_f32_bits(v.to_bits());
    }
    let rec = w.into_vec();
    bank.samples = EncodedSamples::Compressed(bones, vec![rec]);
    let info = SystemInfo {
        version: 25,
        platform: Platform::PS2,
        endian: IOEndian::Little,
    };
    let decoded = bank.decode_samples(&info);
    // Entries come out sorted by symbol.
    assert_eq!(decoded.len(), 2);
    assert_eq!(decoded[0].symbol, "alpha");
    assert_eq!(decoded[1].symbol, "zeta");
    let (w1, q1) = decoded[1].quat.as_ref().unwrap();
    assert_eq!(*w1, 1.0f32.to_bits());
    assert_eq!(
        q1,
        &vec![QuatSample::Full(
            1.0f32.to_bits(),
            2.0f32.to_bits(),
            3.0f32.to_bits(),
            4.0f32.to_bits()
        )]
    );
    let (w0, q0) = decoded[0].quat.as_ref().unwrap();
    assert_eq!(*w0, 2.0f32.to_bits());
    assert_eq!(
        q0,
        &vec![QuatSample::Full(
            5.0f32.to_bits(),
            6.0f32.to_bits(),
            7.0f32.to_bits(),
            8.0f32.to_bits()
        )]
    );
}

#[test]
fn clip_version_support() {
    assert!(char_clip_samples::is_version_supported(10));
    assert!(char_clip_samples::is_version_supported(11));
    assert!(char_clip_samples::is_version_supported(16));
    assert!(!char_clip_samples::is_version_supported(13));
    assert!(!char_clip_samples::is_version_supported(7));
}

#[test]
fn clip_save_picks_version_by_frames() {
    // A clip without frame times writes version 11; with them, 13.
    let clip = CharClipSamples::default();
    let mut w = ByteWriter::new(IOEndian::Big);
    clip.save(&mut w);
    let bytes = w.into_vec();
    assert_eq!(&bytes[0..4], &[0, 0, 0, 11]);

    let mut clip = CharClipSamples::default();
    clip.full.frames = vec![0];
    let mut w = ByteWriter::new(IOEndian::Big);
    clip.save(&mut w);
    let bytes = w.into_vec();
    assert_eq!(&bytes[0..4], &[0, 0, 0, 13]);
}

#[test]
fn char_bone_save_layout() {
    let mut bone = CharBone::default();
    bone.name = String::from("bone_x.trans");
    bone.parent = String::from("root.trans");
    bone.rotation = RotationConstraint::kRotZ;
    let mut w = ByteWriter::new(IOEndian::Big);
    bone.save(&mut w);
    let bytes = w.into_vec();
    // Version 3; then the name with its length prefix.
    assert_eq!(&bytes[0..4], &[0, 0, 0, 3]);
    assert_eq!(&bytes[4..8], &[0, 0, 0, 12]);
    assert_eq!(&bytes[8..20], b"bone_x.trans");
    // Matrices, parent, flags, constraint code 5, the duplicated "none"
    // slot 9, and the weight 1.0.
    let tail = &bytes[20..];
    assert_eq!(tail.len(), 64 + 64 + 4 + 10 + 1 + 1 + 4 + 4 + 4);
    assert_eq!(&tail[tail.len() - 12..tail.len() - 8], &[0, 0, 0, 5]);
    assert_eq!(&tail[tail.len() - 8..tail.len() - 4], &[0, 0, 0, 9]);
    assert_eq!(&tail[tail.len() - 4..], &1.0f32.to_bits().to_be_bytes());
}

#[test]
fn rotation_constraint_codes() {
    assert_eq!(RotationConstraint::from(9), RotationConstraint::kRotNone);
    assert_eq!(RotationConstraint::from(2), RotationConstraint::kRotFull);
    assert_eq!(RotationConstraint::from(3), RotationConstraint::kRotX);
    assert_eq!(RotationConstraint::from(4), RotationConstraint::kRotY);
    assert_eq!(RotationConstraint::from(5), RotationConstraint::kRotZ);
    assert_eq!(RotationConstraint::from(0), RotationConstraint::kRotNone);
    assert_eq!(RotationConstraint::kRotZ.to_code(), 5);
}

#[test]
fn basename_and_ordering() {
    assert_eq!(get_basename("bone_pelvis.pos"), "bone_pelvis");
    assert_eq!(get_basename("plain"), "plain");
    assert_eq!(get_basename(".pos"), "");
    assert!(str_lt("alpha", "beta"));
    assert!(!str_lt("beta", "alpha"));
    assert!(!str_lt("same", "same"));
    assert!(str_lt("ab", "abc"));
}

#[test]
fn decimal_rendering() {
    assert_eq!(u32_to_decimal(0), "0");
    assert_eq!(u32_to_decimal(7), "7");
    assert_eq!(u32_to_decimal(9042), "9042");
}

#[test]
fn beats_bits_match_hardware_floats() {
    for n in 1u32..3000 {
        let expected = ((n as f32) / 30.0 * 2.5).to_bits();
        assert_eq!(
            pikaxe::beats::beats_bits_for_frames(n),
            expected,
            "frame count {n}"
        );
    }
    for n in [60000u32, 1 << 20, (1 << 24) - 1, 1 << 24] {
        let expected = ((n as f32) / 30.0 * 2.5).to_bits();
        assert_eq!(pikaxe::beats::beats_bits_for_frames(n), expected);
    }
}

#[test]
fn clip_save_then_load_recovers_metadata() {
    // A frameless clip writes the split pre-13 layout (both headers, one
    // duplicated discarded header, then both data sections); loading it
    // back recovers the metadata and the encoded banks.
    let mut clip = CharClipSamples::default();
    clip.name = String::from("wave");
    clip.start_beat = 0;
    clip.end_beat = 2.5f32.to_bits();
    clip.beats_per_sec = 2.5f32.to_bits();
    clip.play_flags = 512;
    clip.blend_width = 1.0f32.to_bits();
    let mut w = ByteWriter::new(IOEndian::Big);
    clip.save(&mut w);
    let bytes = w.into_vec();

    let mut loaded = CharClipSamples::default();
    let mut r = pikaxe::stream::ByteReader::new(bytes, IOEndian::Big);
    loaded.load(&mut r).unwrap();
    assert_eq!(r.remaining(), 0);
    assert_eq!(loaded.end_beat, 2.5f32.to_bits());
    assert_eq!(loaded.beats_per_sec, 2.5f32.to_bits());
    assert_eq!(loaded.play_flags, 512);
    assert_eq!(loaded.blend_width, 1.0f32.to_bits());
    match &loaded.full.samples {
        EncodedSamples::Compressed(bones, recs) => {
            assert!(bones.is_empty());
            assert!(recs.is_empty());
        }
        _ => panic!("expected encoded payload"),
    }
}
