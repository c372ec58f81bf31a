use rom_patcher::Error;
use rom_patcher::ErrorKind;
use rom_patcher::io_util::ByteReader;
use rom_patcher::io_util::Target;
use rom_patcher::io_util::from_u24_be_bytes;
use rom_patcher::io_util::to_u24_be_bytes;
use rom_patcher::ips::IPSHunk;
use rom_patcher::ips::IPSPatch;
use rom_patcher::ips::IPSRLEHunkData;
use rom_patcher::ips::IPSRegularHunkData;
use rom_patcher::ips::apply_ips_patch;
use rom_patcher::test_util::BuildVec;

fn parse_message_of(patch_data: Vec<u8>) -> String {
    IPSPatch::read_from(&mut ByteReader::new(patch_data))
        .unwrap_err()
        .message()
}

#[test]
fn u24_encodes_big_endian() {
    assert_eq!(to_u24_be_bytes(258), [0x0, 0x1, 0x2]);
    assert_eq!(to_u24_be_bytes(0xABCDEF), [0xAB, 0xCD, 0xEF]);
}

#[test]
fn u24_encode_truncates_silently_above_24_bits() {
    assert_eq!(to_u24_be_bytes(0x01FF_FFFF), [0xFF, 0xFF, 0xFF]);
}

#[test]
fn u24_decodes_big_endian() {
    assert_eq!(from_u24_be_bytes(&[0x0, 0x1, 0x2]), 258);
    assert_eq!(from_u24_be_bytes(&[0xAB, 0xCD, 0xEF]), 0xABCDEF);
}

#[test]
fn u24_round_trips() {
    assert_eq!(from_u24_be_bytes(&to_u24_be_bytes(0xE0F46)), 0xE0F46);
}

#[test]
fn error_message_without_description_is_just_the_kind() {
    assert_eq!(Error::new(ErrorKind::ParsingError).message(), "ParsingError".to_string());
}

#[test]
fn patching_error_message_carries_its_description() {
    let error = Error::new(ErrorKind::PatchingError)
        .with_description("Unable to truncate target.".to_string());
    assert_eq!(error.message(), "PatchingError: Unable to truncate target.".to_string());
}

#[test]
fn error_source_does_not_change_the_message() {
    let error = Error::new(ErrorKind::ParsingError)
        .with_description("Unable to read payload.".to_string())
        .with_source("unexpected end of file".to_string());
    assert_eq!(error.message(), "ParsingError: Unable to read payload.".to_string());
}

#[test]
fn parse_of_empty_input_reports_short_header() {
    assert_eq!(parse_message_of(Vec::new()), "ParsingError: Unable to parse header.");
}

#[test]
fn parse_reports_short_offset() {
    let data = Vec::new()
        .build_with_slice("PATCH".as_bytes())
        .build_with_slice(&[0x0, 0x1]);
    assert_eq!(parse_message_of(data), "ParsingError: Unable to parse offset.");
}

#[test]
fn parse_reports_short_length() {
    let data = Vec::new()
        .build_with_slice("PATCH".as_bytes())
        .build_with_slice(&[0x0, 0x0, 0x1])
        .build_with_slice(&[0x0]);
    assert_eq!(parse_message_of(data), "ParsingError: Unable to read length.");
}

#[test]
fn parse_reports_short_rle_run_length() {
    let data = Vec::new()
        .build_with_slice("PATCH".as_bytes())
        .build_with_slice(&[0x0, 0x0, 0x1])
        .build_with_slice(&[0x0, 0x0])
        .build_with_slice(&[0x0]);
    assert_eq!(parse_message_of(data), "ParsingError: Unable to read RLE run length.");
}

#[test]
fn parse_reports_short_rle_payload() {
    let data = Vec::new()
        .build_with_slice("PATCH".as_bytes())
        .build_with_slice(&[0x0, 0x0, 0x1])
        .build_with_slice(&[0x0, 0x0])
        .build_with_slice(&[0x0, 0x3]);
    assert_eq!(parse_message_of(data), "ParsingError: Unable to read RLE payload.");
}

#[test]
fn parse_reports_short_payload() {
    let data = Vec::new()
        .build_with_slice("PATCH".as_bytes())
        .build_with_slice(&[0x0, 0x0, 0x1])
        .build_with_slice(&[0x0, 0x5])
        .build_with_slice(&[0x1, 0x2]);
    assert_eq!(parse_message_of(data), "ParsingError: Unable to read payload.");
}

#[test]
fn parse_reports_short_truncate() {
    let data = Vec::new()
        .build_with_slice("PATCH".as_bytes())
        .build_with_slice("EOF".as_bytes())
        .build_with_slice(&[0x0]);
    assert_eq!(parse_message_of(data), "ParsingError: Unable to read truncate.");
}

#[test]
fn serialize_then_parse_returns_the_same_patch() {
    let patch = IPSPatch::new()
        .with_hunk(IPSHunk::Regular(IPSRegularHunkData {
            offset: 7,
            length: 3,
            payload: vec![0x10, 0x20, 0x30],
        }))
        .with_hunk(IPSHunk::RLE(IPSRLEHunkData {
            offset: 0,
            run_length: 2,
            payload: 0x44,
        }))
        .with_truncate(12);
    let mut data = Vec::new();
    patch.write(&mut data).unwrap();
    let parsed = IPSPatch::read_from(&mut ByteReader::new(data)).unwrap();
    assert_eq!(parsed, patch);
}

#[test]
fn streaming_apply_matches_parse_then_apply() {
    let patch = IPSPatch::new()
        .with_hunk(IPSHunk::RLE(IPSRLEHunkData {
            offset: 2,
            run_length: 5,
            payload: 0x77,
        }))
        .with_hunk(IPSHunk::Regular(IPSRegularHunkData {
            offset: 4,
            length: 2,
            payload: vec![0x88, 0x99],
        }))
        .with_truncate(10);
    let mut data = Vec::new();
    patch.write(&mut data).unwrap();
    let base: Vec<u8> = (0..16).collect();

    let mut streamed = Target::new(base.clone());
    apply_ips_patch(&mut ByteReader::new(data.clone()), &mut streamed).unwrap();

    let mut materialized = Target::new(base);
    let parsed = IPSPatch::read_from(&mut ByteReader::new(data)).unwrap();
    parsed.apply(&mut materialized).unwrap();

    assert_eq!(streamed.data, materialized.data);
}

#[test]
fn later_hunk_overwrites_earlier_one() {
    let mut target = Target::new((0..16).collect());
    let patch = IPSPatch::new()
        .with_hunk(IPSHunk::Regular(IPSRegularHunkData {
            offset: 1,
            length: 3,
            payload: vec![0x1, 0x1, 0x1],
        }))
        .with_hunk(IPSHunk::Regular(IPSRegularHunkData {
            offset: 2,
            length: 1,
            payload: vec![0x9],
        }));
    patch.apply(&mut target).unwrap();
    assert_eq!(
        target.data,
        vec![0, 0x1, 0x9, 0x1, 4, 5, 6, 7, 8, 9, 10, 11, 12, 13, 14, 15]
    );
}

#[test]
fn truncate_beyond_current_length_does_not_grow() {
    let mut target = Target::new((0..16).collect());
    let patch = IPSPatch::new().with_truncate(32);
    patch.apply(&mut target).unwrap();
    assert_eq!(target.data, (0..16).collect::<Vec<u8>>());
}

#[test]
fn zero_length_rle_run_is_a_no_op() {
    let mut target = Target::new(vec![1, 2, 3]);
    let patch = IPSPatch::new().with_hunk(IPSHunk::RLE(IPSRLEHunkData {
        offset: 9,
        run_length: 0,
        payload: 0xEE,
    }));
    patch.apply(&mut target).unwrap();
    assert_eq!(target.data, vec![1, 2, 3]);
}

#[test]
fn writing_past_the_end_fills_the_gap_with_zeroes() {
    let mut target = Target::new(vec![1, 2, 3]);
    let patch = IPSPatch::new().with_hunk(IPSHunk::Regular(IPSRegularHunkData {
        offset: 5,
        length: 1,
        payload: vec![0x9],
    }));
    patch.apply(&mut target).unwrap();
    assert_eq!(target.data, vec![1, 2, 3, 0, 0, 0x9]);
}

#[test]
fn add_hunk_appends_in_order() {
    let mut patch = IPSPatch::new();
    patch.add_hunk(IPSHunk::RLE(IPSRLEHunkData { offset: 0, run_length: 1, payload: 0x1 }));
    patch.add_hunk(IPSHunk::RLE(IPSRLEHunkData { offset: 1, run_length: 1, payload: 0x2 }));
    let mut target = Target::new(Vec::new());
    patch.apply(&mut target).unwrap();
    assert_eq!(target.data, vec![0x1, 0x2]);
}

#[test]
fn build_with_appends_both_vectors() {
    let built = vec![1u8, 2].build_with(&vec![3u8, 4]);
    assert_eq!(built, vec![1, 2, 3, 4]);
}
