use std::io::Write;

use bspatch::{copy_exact, ones_complement_i64, Bsdiff4, Error};

fn bz(data: &[u8]) -> Vec<u8> {
    let mut enc = bzip2::write::BzEncoder::new(Vec::new(), bzip2::Compression::new(9));
    enc.write_all(data).unwrap();
    enc.finish().unwrap()
}

fn le(v: u64) -> [u8; 8] {
    v.to_le_bytes()
}

fn sm(v: i64) -> [u8; 8] {
    if v < 0 {
        (((-v) as u64) | 0x8000_0000_0000_0000).to_le_bytes()
    } else {
        (v as u64).to_le_bytes()
    }
}

fn control_block(recs: &[(u64, u64, i64)]) -> Vec<u8> {
    let mut b = Vec::new();
    for &(copy, insert, seek) in recs {
        b.extend_from_slice(&le(copy));
        b.extend_from_slice(&le(insert));
        b.extend_from_slice(&sm(seek));
    }
    b
}

fn container(recs: &[(u64, u64, i64)], diff: &[u8], extra: &[u8], new_size: u64) -> Vec<u8> {
    let cb = bz(&control_block(recs));
    let db = bz(diff);
    let eb = bz(extra);
    let mut out = Vec::new();
    out.extend_from_slice(b"BSDIFF40");
    out.extend_from_slice(&le(cb.len() as u64));
    out.extend_from_slice(&le(db.len() as u64));
    out.extend_from_slice(&le(new_size));
    out.extend_from_slice(&cb);
    out.extend_from_slice(&db);
    out.extend_from_slice(&eb);
    out
}

#[test]
fn end_to_end_identity() {
    let orig = b"hello world";
    let data = container(&[(11, 0, 0)], &[0u8; 11], &[], 11);
    let patch = Bsdiff4::read(&data).unwrap();
    let out = patch.apply_to_slice(orig).unwrap();
    assert_eq!(out, b"hello world");
}

#[test]
fn wrap_around_addition() {
    let data = container(&[(1, 0, 0)], &[0x02], &[], 1);
    let patch = Bsdiff4::read(&data).unwrap();
    let out = patch.apply_to_slice(&[0xFF]).unwrap();
    assert_eq!(out, vec![0x01]);
}

#[test]
fn round_trip_copy_and_insert() {
    let orig = b"The quick brown fox";
    let target = b"The quick red fox jumps";
    let data = container(&[(10, 13, 0)], &[0u8; 10], b"red fox jumps", 23);
    let patch = Bsdiff4::read(&data).unwrap();
    let out = patch.apply_to_slice(orig).unwrap();
    assert_eq!(out, target);
}

#[test]
fn round_trip_diff_bytes() {
    let orig = [1u8, 2, 3];
    let target = [2u8, 4, 6];
    let data = container(&[(3, 0, 0)], &[1, 2, 3], &[], 3);
    let patch = Bsdiff4::read(&data).unwrap();
    let out = patch.apply_to_slice(&orig).unwrap();
    assert_eq!(out, target);
}

#[test]
fn parse_is_idempotent() {
    let orig = b"some original bytes";
    let data = container(&[(4, 3, 2), (5, 0, -1), (2, 2, 0)], &[1, 0, 2, 0, 0, 0, 0, 3, 0, 0, 1], b"abcde", 16);
    let p1 = Bsdiff4::read(&data).unwrap();
    let p2 = Bsdiff4::read(&data).unwrap();
    let out1 = p1.apply_to_slice(orig).unwrap();
    let out2 = p2.apply_to_slice(orig).unwrap();
    assert_eq!(out1, out2);
}

#[test]
fn bad_magic_always_fails() {
    let mut data = container(&[(1, 0, 0)], &[0], &[], 1);
    data[0] = b'X';
    assert_eq!(Bsdiff4::read(&data).err(), Some(Error::BadMagic));
    let garbage = b"NOTDIFF4 anything at all after the tag";
    assert_eq!(Bsdiff4::read(garbage).err(), Some(Error::BadMagic));
}

#[test]
fn truncated_header() {
    assert_eq!(Bsdiff4::read(b"BSDIFF40").err(), Some(Error::ShortRead));
    assert_eq!(Bsdiff4::read(&[]).err(), Some(Error::ShortRead));
}

#[test]
fn negative_target_length_rejected() {
    let mut data = container(&[(1, 0, 0)], &[0], &[], 1);
    data[24..32].copy_from_slice(&sm(-11));
    assert_eq!(Bsdiff4::read(&data).err(), Some(Error::InvalidLength));
}

#[test]
fn negative_control_length_rejected() {
    let mut data = container(&[(1, 0, 0)], &[0], &[], 1);
    data[8..16].copy_from_slice(&sm(-1));
    assert_eq!(Bsdiff4::read(&data).err(), Some(Error::InvalidLength));
}

#[test]
fn control_block_size_must_be_multiple_of_24() {
    let cb = bz(&[0u8; 23]);
    let db = bz(&[]);
    let eb = bz(&[]);
    let mut data = Vec::new();
    data.extend_from_slice(b"BSDIFF40");
    data.extend_from_slice(&le(cb.len() as u64));
    data.extend_from_slice(&le(db.len() as u64));
    data.extend_from_slice(&le(0));
    data.extend_from_slice(&cb);
    data.extend_from_slice(&db);
    data.extend_from_slice(&eb);
    assert_eq!(Bsdiff4::read(&data).err(), Some(Error::MalformedControlBlock));
}

#[test]
fn corrupt_control_block() {
    let mut data = Vec::new();
    data.extend_from_slice(b"BSDIFF40");
    data.extend_from_slice(&le(3));
    data.extend_from_slice(&le(0));
    data.extend_from_slice(&le(0));
    data.extend_from_slice(&[1, 2, 3]);
    assert_eq!(Bsdiff4::read(&data).err(), Some(Error::CorruptBlock));
}

#[test]
fn truncated_control_block() {
    let mut data = Vec::new();
    data.extend_from_slice(b"BSDIFF40");
    data.extend_from_slice(&le(100));
    data.extend_from_slice(&le(0));
    data.extend_from_slice(&le(0));
    data.extend_from_slice(&[1, 2, 3]);
    assert_eq!(Bsdiff4::read(&data).err(), Some(Error::CorruptBlock));
}

#[test]
fn negative_copy_length_in_record_rejected() {
    let mut rec = Vec::new();
    rec.extend_from_slice(&sm(-5));
    rec.extend_from_slice(&le(0));
    rec.extend_from_slice(&le(0));
    let cb = bz(&rec);
    let db = bz(&[]);
    let eb = bz(&[]);
    let mut data = Vec::new();
    data.extend_from_slice(b"BSDIFF40");
    data.extend_from_slice(&le(cb.len() as u64));
    data.extend_from_slice(&le(db.len() as u64));
    data.extend_from_slice(&le(0));
    data.extend_from_slice(&cb);
    data.extend_from_slice(&db);
    data.extend_from_slice(&eb);
    assert_eq!(Bsdiff4::read(&data).err(), Some(Error::InvalidLength));
}

#[test]
fn insert_past_extra_stream_exhausts() {
    let data = container(&[(0, 5, 0)], &[], &[1, 2], 5);
    let patch = Bsdiff4::read(&data).unwrap();
    assert_eq!(patch.apply_to_slice(&[]).err(), Some(Error::StreamExhausted));
}

#[test]
fn copy_past_diff_stream_exhausts() {
    let data = container(&[(3, 0, 0)], &[0], &[], 3);
    let patch = Bsdiff4::read(&data).unwrap();
    assert_eq!(patch.apply_to_slice(&[9, 9, 9]).err(), Some(Error::StreamExhausted));
}

#[test]
fn copy_past_original_is_short_read() {
    let data = container(&[(5, 0, 0)], &[0u8; 5], &[], 5);
    let patch = Bsdiff4::read(&data).unwrap();
    assert_eq!(patch.apply_to_slice(&[1, 2, 3]).err(), Some(Error::ShortRead));
}

#[test]
fn leftover_diff_bytes_exhaust() {
    let data = container(&[], &[7], &[], 0);
    let patch = Bsdiff4::read(&data).unwrap();
    assert_eq!(patch.apply_to_slice(&[]).err(), Some(Error::StreamExhausted));
}

#[test]
fn empty_patch_empty_output() {
    let data = container(&[], &[], &[], 0);
    let patch = Bsdiff4::read(&data).unwrap();
    let out = patch.apply_to_slice(&[1, 2, 3]).unwrap();
    assert_eq!(out, Vec::<u8>::new());
}

#[test]
fn seek_deltas_accumulate_in_order() {
    let orig = b"abcdefghij";
    let data = container(&[(0, 0, 5), (0, 0, -3), (0, 0, 0), (1, 0, 0)], &[0], &[], 1);
    let patch = Bsdiff4::read(&data).unwrap();
    let out = patch.apply_to_slice(orig).unwrap();
    assert_eq!(out, b"c");
}

#[test]
fn seek_between_copies() {
    let orig = b"abcdefghijklmnop";
    let data = container(&[(1, 0, 5), (1, 0, -3), (1, 0, 0)], &[0, 0, 0], &[], 3);
    let patch = Bsdiff4::read(&data).unwrap();
    let out = patch.apply_to_slice(orig).unwrap();
    assert_eq!(out, b"age");
}

#[test]
fn seek_past_end_without_copy_is_fine() {
    let data = container(&[(1, 0, 100)], &[0], &[], 1);
    let patch = Bsdiff4::read(&data).unwrap();
    let out = patch.apply_to_slice(&[0x41]).unwrap();
    assert_eq!(out, b"A");
}

#[test]
fn apply_appends_to_output() {
    let data = container(&[(2, 0, 0)], &[0, 0], &[], 2);
    let patch = Bsdiff4::read(&data).unwrap();
    let mut out = vec![9u8];
    patch.apply(&[7, 8], &mut out).unwrap();
    assert_eq!(out, vec![9, 7, 8]);
}

#[test]
fn copy_exact_copies_the_range() {
    let mut out = Vec::new();
    copy_exact(&[1, 2, 3, 4], 1, 2, &mut out).unwrap();
    assert_eq!(out, vec![2, 3]);
}

#[test]
fn copy_exact_short_source() {
    let mut out = vec![5u8];
    assert_eq!(copy_exact(&[1, 2, 3], 2, 2, &mut out).err(), Some(Error::ShortRead));
    assert_eq!(out, vec![5]);
}

#[test]
fn interleaved_copy_insert_and_seek() {
    let orig = b"abcdef";
    let data = container(&[(2, 1, 1), (2, 2, 0)], &[1, 1, 0, 0], b"XYZ", 7);
    let patch = Bsdiff4::read(&data).unwrap();
    let out = patch.apply_to_slice(orig).unwrap();
    assert_eq!(out, b"bcXdeYZ");
}

#[test]
fn container_is_reusable_across_applies() {
    let data = container(&[(3, 1, 0)], &[0, 1, 0], b"!", 4);
    let patch = Bsdiff4::read(&data).unwrap();
    let first = patch.apply_to_slice(b"cat").unwrap();
    let second = patch.apply_to_slice(b"cat").unwrap();
    assert_eq!(first, b"cbt!");
    assert_eq!(first, second);
    let other = patch.apply_to_slice(b"dog").unwrap();
    assert_eq!(other, b"dpg!");
}

#[test]
fn ones_complement_decoding() {
    assert_eq!(ones_complement_i64(5), 5);
    assert_eq!(ones_complement_i64(0), 0);
    assert_eq!(ones_complement_i64(i64::MIN), 0);
    let raw_minus_3 = i64::from_le_bytes(sm(-3));
    assert_eq!(ones_complement_i64(raw_minus_3), -3);
    let raw_minus_1 = i64::from_le_bytes(sm(-1));
    assert_eq!(ones_complement_i64(raw_minus_1), -1);
    assert_eq!(ones_complement_i64(i64::MAX), i64::MAX);
}
