use rom_patcher::io_util::ByteReader;
use rom_patcher::io_util::Target;
use rom_patcher::ips::IPSHunk;
use rom_patcher::ips::IPSPatch;
use rom_patcher::ips::IPSRLEHunkData;
use rom_patcher::ips::IPSRegularHunkData;
use rom_patcher::ips::apply_ips_patch;
use rom_patcher::test_util::BuildVec;

fn empty_patch() -> IPSPatch {
    IPSPatch::new()
}

fn empty_patch_data() -> Vec<u8> {
    Vec::new()
        .build_with_slice("PATCH".as_bytes())
        .build_with_slice("EOF".as_bytes())
}

fn patch_with_regular_hunk() -> IPSPatch {
    IPSPatch::new().with_hunk(IPSHunk::Regular(IPSRegularHunkData {
        offset: 258,
        length: 2,
        payload: vec![0xAA, 0xBB],
    }))
}

fn patch_with_regular_hunk_data() -> Vec<u8> {
    Vec::new()
        .build_with_slice("PATCH".as_bytes())
        .build_with_slice(&[0x0, 0x1, 0x2]) // offset
        .build_with_slice(&[0x0, 0x2]) // length
        .build_with_slice(&[0xAA, 0xBB]) // payload
        .build_with_slice("EOF".as_bytes())
}

fn patch_with_rle_hunk() -> IPSPatch {
    IPSPatch::new().with_hunk(IPSHunk::RLE(IPSRLEHunkData {
        offset: 258,
        run_length: 43707,
        payload: 0xCC,
    }))
}

fn patch_with_rle_hunk_data() -> Vec<u8> {
    Vec::new()
        .build_with_slice("PATCH".as_bytes())
        .build_with_slice(&[0x0, 0x1, 0x2]) // offset
        .build_with_slice(&[0x0, 0x0]) // length
        .build_with_slice(&[0xAA, 0xBB]) // run_length
        .build_with_slice(&[0xCC]) // payload
        .build_with_slice("EOF".as_bytes())
}

fn patch_with_multiple_hunks() -> IPSPatch {
    IPSPatch::new()
        .with_hunk(IPSHunk::Regular(IPSRegularHunkData {
            offset: 258,
            length: 2,
            payload: vec![0xAA, 0xBB],
        }))
        .with_hunk(IPSHunk::RLE(IPSRLEHunkData {
            offset: 258,
            run_length: 43707,
            payload: 0xCC,
        }))
        .with_truncate(32)
}

fn patch_with_multiple_hunks_data() -> Vec<u8> {
    Vec::new()
        .build_with_slice("PATCH".as_bytes())
        // regular hunk
        .build_with_slice(&[0x0, 0x1, 0x2]) // offset
        .build_with_slice(&[0x0, 0x2]) // length
        .build_with_slice(&[0xAA, 0xBB]) // payload
        // rle hunk
        .build_with_slice(&[0x0, 0x1, 0x2]) // offset
        .build_with_slice(&[0x0, 0x0]) // length
        .build_with_slice(&[0xAA, 0xBB]) // run_length
        .build_with_slice(&[0xCC]) // payload
        .build_with_slice("EOF".as_bytes())
        .build_with_slice(&[0x0, 0x0, 0x20])
}

fn patch_with_truncate() -> IPSPatch {
    IPSPatch::new().with_truncate(32)
}

fn patch_with_truncate_data() -> Vec<u8> {
    empty_patch_data().build_with_slice(&[0x0, 0x0, 0x20])
}

#[test]
fn writing_an_empty_patch_writes_just_header_and_eof() {
    let mut actual = Vec::new();
    empty_patch().write(&mut actual).unwrap();
    assert_eq!(actual, empty_patch_data());
}

#[test]
fn write_regular_hunk() {
    let mut actual = Vec::new();
    patch_with_regular_hunk().write(&mut actual).unwrap();
    assert_eq!(actual, patch_with_regular_hunk_data());
}

#[test]
fn write_rle_hunk() {
    let mut actual = Vec::new();
    patch_with_rle_hunk().write(&mut actual).unwrap();
    assert_eq!(actual, patch_with_rle_hunk_data());
}

#[test]
fn write_truncate() {
    let mut actual = Vec::new();
    patch_with_truncate().write(&mut actual).unwrap();
    assert_eq!(actual, patch_with_truncate_data());
}

#[test]
fn write_multiple_hunks() {
    let mut actual = Vec::new();
    patch_with_multiple_hunks().write(&mut actual).unwrap();
    assert_eq!(actual, patch_with_multiple_hunks_data());
}

#[test]
fn reading_an_empty_patch_reads_just_header_and_eof() {
    let actual = IPSPatch::read_from(&mut ByteReader::new(empty_patch_data())).unwrap();
    assert_eq!(actual, empty_patch());
}

#[test]
fn invalid_header() {
    let patch_data = Vec::new()
        .build_with_slice("PATTH".as_bytes()) // corrupted header
        .build_with_slice("EOF".as_bytes());
    let patch = IPSPatch::read_from(&mut ByteReader::new(patch_data));
    let error = patch.unwrap_err();
    assert_eq!(error.message(), "ParsingError: Invalid header.".to_string());
}

#[test]
fn unable_to_read_header() {
    let patch_data = Vec::new().build_with_slice("PA".as_bytes());
    let patch = IPSPatch::read_from(&mut ByteReader::new(patch_data));
    let err = patch.unwrap_err();
    assert_eq!(err.message(), "ParsingError: Unable to parse header.".to_string());
}

#[test]
fn read_regular_hunk() {
    let actual = IPSPatch::read_from(&mut ByteReader::new(patch_with_regular_hunk_data()))
        .unwrap();
    assert_eq!(actual, patch_with_regular_hunk());
}

#[test]
fn read_rle_hunk() {
    let actual = IPSPatch::read_from(&mut ByteReader::new(patch_with_rle_hunk_data())).unwrap();
    assert_eq!(actual, patch_with_rle_hunk());
}

#[test]
fn read_truncate() {
    let actual = IPSPatch::read_from(&mut ByteReader::new(patch_with_truncate_data())).unwrap();
    assert_eq!(actual, patch_with_truncate());
}

#[test]
fn read_multiple_hunks() {
    let actual = IPSPatch::read_from(&mut ByteReader::new(patch_with_multiple_hunks_data()))
        .unwrap();
    assert_eq!(actual, patch_with_multiple_hunks());
}

#[test]
fn apply_empty_patch_does_nothing_to_input() {
    let base: Vec<u8> = (0..16).collect();
    let mut target = Target::new(base.clone());
    let patch = empty_patch();

    assert!(patch.apply(&mut target).is_ok());
    assert_eq!(target.data, base);
}

#[test]
fn apply_regular_hunk() {
    let mut target = Target::new((0..16).collect());
    let patch = IPSPatch::new().with_hunk(IPSHunk::Regular(IPSRegularHunkData {
        offset: 1,
        length: 3,
        payload: vec![0xa, 0xb, 0xc],
    }));
    let expected = vec![
        0x0, 0xa, 0xb, 0xc, 0x4, 0x5, 0x6, 0x7, 0x8, 0x9, 0xA, 0xB, 0xC, 0xD, 0xE, 0xF,
    ];

    assert!(patch.apply(&mut target).is_ok());
    assert_eq!(target.data, expected);
}

#[test]
fn apply_rle_hunk() {
    let mut target = Target::new((0..16).collect());
    let patch = IPSPatch::new().with_hunk(IPSHunk::RLE(IPSRLEHunkData {
        offset: 1,
        run_length: 3,
        payload: 0xa,
    }));
    let expected = vec![
        0x0, 0xa, 0xa, 0xa, 0x4, 0x5, 0x6, 0x7, 0x8, 0x9, 0xA, 0xB, 0xC, 0xD, 0xE, 0xF,
    ];

    assert!(patch.apply(&mut target).is_ok());
    assert_eq!(target.data, expected);
}

#[test]
fn apply_truncate() {
    let mut target = Target::new((0..16).collect());
    let patch = IPSPatch::new()
        .with_hunk(IPSHunk::RLE(IPSRLEHunkData {
            offset: 1,
            run_length: 3,
            payload: 0xa,
        }))
        .with_truncate(8);
    let expected = vec![0x0, 0xa, 0xa, 0xa, 0x4, 0x5, 0x6, 0x7];

    assert!(patch.apply(&mut target).is_ok());
    assert_eq!(target.data, expected);
}

#[test]
fn applying_an_empty_patch_does_nothing() {
    let base: Vec<u8> = (0..15).collect();
    let mut target_cur = Target::new(base.clone());
    assert!(apply_ips_patch(&mut ByteReader::new(empty_patch_data()), &mut target_cur).is_ok());
    assert_eq!(target_cur.data, base);
}

#[test]
fn ips_invalid_header() {
    let base: Vec<u8> = (0..15).collect();
    let mut target_cur = Target::new(base.clone());
    let patch_data = Vec::new()
        .build_with_slice("PATTH".as_bytes()) // corrupted header
        .build_with_slice("EOF".as_bytes());
    let result = apply_ips_patch(&mut ByteReader::new(patch_data), &mut target_cur);
    let error = result.unwrap_err();
    assert_eq!(error.message(), "ParsingError: Invalid header.".to_string());
}

#[test]
fn ips_unable_to_read_header() {
    let base: Vec<u8> = (0..15).collect();
    let mut target_cur = Target::new(base.clone());
    let patch_data = Vec::new().build_with_slice("PA".as_bytes());
    let result = apply_ips_patch(&mut ByteReader::new(patch_data), &mut target_cur);
    let err = result.unwrap_err();
    assert_eq!(err.message(), "ParsingError: Unable to parse header.".to_string());
}

#[test]
fn read_and_apply_regular_hunk() {
    let mut target = Target::new((0..16).collect::<Vec<u8>>());
    let patch = IPSPatch::new().with_hunk(IPSHunk::Regular(IPSRegularHunkData {
        offset: 1,
        length: 3,
        payload: vec![0xa, 0xb, 0xc],
    }));
    let mut patch_data = Vec::new();
    patch.write(&mut patch_data).unwrap();
    apply_ips_patch(&mut ByteReader::new(patch_data), &mut target).unwrap();

    assert_eq!(
        target.data,
        vec![0, 0xa, 0xb, 0xc, 4, 5, 6, 7, 8, 9, 10, 11, 12, 13, 14, 15]
    );
}

#[test]
fn read_and_apply_rle_hunk() {
    let mut target = Target::new((0..16).collect::<Vec<u8>>());
    let patch = IPSPatch::new().with_hunk(IPSHunk::RLE(IPSRLEHunkData {
        offset: 1,
        run_length: 3,
        payload: 0xa,
    }));
    let mut patch_data = Vec::new();
    patch.write(&mut patch_data).unwrap();
    apply_ips_patch(&mut ByteReader::new(patch_data), &mut target).unwrap();

    assert_eq!(
        target.data,
        vec![0, 0xa, 0xa, 0xa, 4, 5, 6, 7, 8, 9, 10, 11, 12, 13, 14, 15]
    );
}

#[test]
fn read_and_apply_truncate() {
    let mut target = Target::new((0..16).collect::<Vec<u8>>());
    let patch = IPSPatch::new()
        .with_hunk(IPSHunk::RLE(IPSRLEHunkData {
            offset: 1,
            run_length: 3,
            payload: 0xa,
        }))
        .with_truncate(8);
    let mut patch_data = Vec::new();
    patch.write(&mut patch_data).unwrap();
    apply_ips_patch(&mut ByteReader::new(patch_data), &mut target).unwrap();

    assert_eq!(target.data, vec![0, 0xa, 0xa, 0xa, 4, 5, 6, 7]);
}

#[test]
fn ips_read_multiple_hunks() {
    let mut target = Target::new((0..16).collect::<Vec<u8>>());
    let patch = IPSPatch::new()
        .with_hunk(IPSHunk::RLE(IPSRLEHunkData {
            offset: 1,
            run_length: 3,
            payload: 0xa,
        }))
        .with_hunk(IPSHunk::Regular(IPSRegularHunkData {
            offset: 4,
            length: 3,
            payload: vec![0xb, 0xc, 0xd],
        }));
    let mut patch_data = Vec::new();
    patch.write(&mut patch_data).unwrap();
    apply_ips_patch(&mut ByteReader::new(patch_data), &mut target).unwrap();

    assert_eq!(
        target.data,
        vec![0, 0xa, 0xa, 0xa, 0xb, 0xc, 0xd, 7, 8, 9, 10, 11, 12, 13, 14, 15]
    );
}
