//! Byte-level codec tests: stream primitives, bank round trips, errors.

use pikaxe::char_bones_io::{
    compute_counts, is_version_supported, reencode_char_bones_samples, save_char_bones_samples,
    CharBonesSamplesReadError,
};
use pikaxe::char_bones_samples::{CharBone4Bone, CharBonesSamples, EncodedSamples};
use pikaxe::stream::{ByteReader, ByteWriter, StreamError};
use pikaxe::system::IOEndian;

fn desc(symbol: &str, weight: f32) -> CharBone4Bone {
    CharBone4Bone {
        symbol: String::from(symbol),
        weight: weight.to_bits(),
    }
}

#[test]
fn stream_u32_round_trip_both_orders() {
    for endian in [IOEndian::Little, IOEndian::Big] {
        let mut w = ByteWriter::new(endian);
        w.write_u32(0xDEAD_BEEF);
        w.write_u16(0x1234);
        w.write_i16(-2);
        w.write_bool(true);
        let bytes = w.into_vec();
        let mut r = ByteReader::new(bytes, endian);
        assert_eq!(r.read_u32(), Ok(0xDEAD_BEEF));
        assert_eq!(r.read_u16(), Ok(0x1234));
        assert_eq!(r.read_i16(), Ok(-2));
        assert_eq!(r.read_bool(), Ok(true));
        assert_eq!(r.remaining(), 0);
    }
}

#[test]
fn stream_big_endian_layout() {
    let mut w = ByteWriter::new(IOEndian::Big);
    w.write_u32(0x0102_0304);
    assert_eq!(w.into_vec(), vec![1, 2, 3, 4]);
    let mut w = ByteWriter::new(IOEndian::Little);
    w.write_u32(0x0102_0304);
    assert_eq!(w.into_vec(), vec![4, 3, 2, 1]);
}

#[test]
fn stream_short_read_reports_offset() {
    let mut r = ByteReader::new(vec![1, 2], IOEndian::Little);
    assert_eq!(
        r.read_u32(),
        Err(StreamError::ShortRead {
            offset: 0,
            needed: 4
        })
    );
}

#[test]
fn prefixed_string_round_trip() {
    let mut w = ByteWriter::new(IOEndian::Big);
    w.write_prefixed_string(&String::from("bone_pelvis.pos"));
    let bytes = w.into_vec();
    assert_eq!(bytes.len(), 4 + 15);
    let mut r = ByteReader::new(bytes, IOEndian::Big);
    assert_eq!(r.read_prefixed_string().unwrap(), "bone_pelvis.pos");
}

#[test]
fn prefixed_string_rejects_non_ascii() {
    // Length 1, then a byte outside the ASCII range.
    let mut r = ByteReader::new(vec![1, 0, 0, 0, 0xC3], IOEndian::Little);
    assert_eq!(
        r.read_prefixed_string(),
        Err(StreamError::NonAsciiString { offset: 0 })
    );
}

#[test]
fn bank_version_support() {
    assert!(is_version_supported(16));
    assert!(!is_version_supported(11));
    assert!(!is_version_supported(13));
}

fn sample_bank() -> CharBonesSamples {
    let mut bank = CharBonesSamples::default();
    bank.compression = 1;
    let bones = vec![desc("bone_a.pos", 1.0), desc("bone_a.quat", 1.0)];
    // Level 1: position 12 bytes, quaternion 8 bytes; stride 20 is already
    // a multiple of four.
    let rec0: Vec<u8> = (0u8..20).collect();
    let rec1: Vec<u8> = (100u8..120).collect();
    bank.samples = EncodedSamples::Compressed(bones, vec![rec0, rec1]);
    // The descriptor field mirrors the encoded payload's descriptor list.
    bank.generate_bones_from_samples();
    bank
}

#[test]
fn bank_save_then_reencode_is_identity() {
    // The round-trip property: parsing a well-formed bank and serializing
    // it again reproduces the bytes exactly, on either byte order.
    for endian in [IOEndian::Little, IOEndian::Big] {
        let bank = sample_bank();
        let mut w = ByteWriter::new(endian);
        save_char_bones_samples(&bank, &mut w, 16);
        let bytes = w.into_vec();
        let round = reencode_char_bones_samples(bytes.clone(), endian).unwrap();
        assert_eq!(round, bytes);
    }
}

#[test]
fn bank_reencode_per_compression_level() {
    for level in 0u32..4 {
        let mut bank = sample_bank();
        bank.compression = level;
        // Keep the records consistent with the level's stride, rounded up
        // to a multiple of four as this version requires.
        let stride = match level {
            0 => 12 + 16,
            1 => 12 + 8,
            2 => 16,
            _ => 12,
        };
        let rec: Vec<u8> = (0..stride).map(|i| i as u8).collect();
        if let EncodedSamples::Compressed(_, recs) = &mut bank.samples {
            *recs = vec![rec];
        }
        bank.generate_bones_from_samples();
        let mut w = ByteWriter::new(IOEndian::Big);
        save_char_bones_samples(&bank, &mut w, 16);
        let bytes = w.into_vec();
        assert_eq!(
            reencode_char_bones_samples(bytes.clone(), IOEndian::Big).unwrap(),
            bytes
        );
    }
}

#[test]
fn reencode_rejects_unsupported_version() {
    let mut w = ByteWriter::new(IOEndian::Big);
    w.write_u32(11);
    let r = reencode_char_bones_samples(w.into_vec(), IOEndian::Big);
    assert_eq!(
        r,
        Err(CharBonesSamplesReadError::CharBonesSamplesNotSupported { version: 11 })
    );
}

#[test]
fn reencode_rejects_trailing_bytes() {
    let bank = sample_bank();
    let mut w = ByteWriter::new(IOEndian::Little);
    save_char_bones_samples(&bank, &mut w, 16);
    let mut bytes = w.into_vec();
    bytes.push(0);
    let r = reencode_char_bones_samples(bytes, IOEndian::Little);
    assert_eq!(
        r,
        Err(CharBonesSamplesReadError::TrailingData { remaining: 1 })
    );
}

#[test]
fn compute_counts_cumulative_by_type() {
    let bones = vec![
        desc("a.pos", 1.0),
        desc("b.quat", 1.0),
        desc("c.quat", 1.0),
        desc("d.rotz", 1.0),
    ];
    let counts = compute_counts(&bones);
    // Entry i counts the descriptors of type below i: one position, no
    // scales, two quaternions, no x/y rotations, one z-rotation.
    assert_eq!(counts, vec![0, 1, 1, 3, 3, 3, 4]);
}

#[test]
fn packed_rotation_round_trip_error_bound() {
    // Packing a single-axis rotation stores round(d / 1080 * 32767) as a
    // 16-bit integer; unpacking reads it back as max(i / 32767, -1) * 1080.
    // Over three full turns either way the recovered angle stays within
    // one quantization step.
    let mut d = -1080.0f32;
    while d <= 1080.0 {
        let packed = ((d / 1080.0) * 32767.0).round() as i16;
        let mut w = ByteWriter::new(IOEndian::Big);
        w.write_i16(packed);
        let mut r = ByteReader::new(w.into_vec(), IOEndian::Big);
        let read = r.read_i16().unwrap();
        assert_eq!(read, packed);
        let unpacked = ((read as f32) / 32767.0).max(-1.0) * 1080.0;
        assert!((unpacked - d).abs() <= 1080.0 / 32767.0, "d = {d}");
        d += 0.37;
    }
}

