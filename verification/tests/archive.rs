use std::io::Write;

use mechdata::error::DataError;
use mechdata::pak_archive::read_index;
use mechdata::pak_archive::PakArchive;
use mechdata::pak_archive::Reader2;

fn deflate(payload: &[u8]) -> Vec<u8> {
    let mut encoder = libflate::deflate::Encoder::new(Vec::new());
    encoder.write_all(payload).unwrap();
    encoder.finish().into_result().unwrap()
}

fn record_with(name: &[u8], extra: &[u8], method: u16, compressed: &[u8], size: u32) -> Vec<u8> {
    let mut out = Vec::new();
    out.extend_from_slice(b"PK\x03\x04");
    out.extend_from_slice(&20u16.to_le_bytes());
    out.extend_from_slice(&0u16.to_le_bytes());
    out.extend_from_slice(&method.to_le_bytes());
    out.extend_from_slice(&0x6000u16.to_le_bytes());
    out.extend_from_slice(&0x5000u16.to_le_bytes());
    out.extend_from_slice(&0xdead_beefu32.to_le_bytes());
    out.extend_from_slice(&(compressed.len() as u32).to_le_bytes());
    out.extend_from_slice(&size.to_le_bytes());
    out.extend_from_slice(&(name.len() as u16).to_le_bytes());
    out.extend_from_slice(&(extra.len() as u16).to_le_bytes());
    out.extend_from_slice(name);
    out.extend_from_slice(extra);
    out.extend_from_slice(compressed);
    out
}

fn archive_of(files: &[(&str, &[u8])]) -> Vec<u8> {
    let mut out = Vec::new();
    for (name, payload) in files {
        let compressed = deflate(payload);
        out.extend(record_with(name.as_bytes(), b"", 8, &compressed, payload.len() as u32));
    }
    out.extend_from_slice(b"PK\x01\x02");
    out.extend_from_slice(&[0u8; 42]);
    out
}

#[test]
fn lists_every_record_in_file_order() {
    let files: Vec<(&str, &[u8])> = vec![
        ("b/second.xml", b"<second/>"),
        ("a/first.xml", b"<first/>"),
        ("third.mdf", b""),
    ];
    let archive = PakArchive::new(archive_of(&files)).unwrap();
    assert_eq!(archive.file_list(), vec!["b/second.xml", "a/first.xml", "third.mdf"]);
}

#[test]
fn unpacks_each_file_to_its_declared_size() {
    let long = vec![7u8; 100_000];
    let files: Vec<(&str, &[u8])> =
        vec![("one", b"Hello World!"), ("two", &long), ("three", b"")];
    let archive = PakArchive::new(archive_of(&files)).unwrap();
    for (name, payload) in &files {
        let unpacked = archive.unpack(name).unwrap();
        assert_eq!(unpacked.len(), payload.len());
        assert_eq!(&unpacked, payload);
    }
}

#[test]
fn empty_archive_has_no_files() {
    let archive = PakArchive::new(b"PK\x01\x02".to_vec()).unwrap();
    assert_eq!(archive.file_list(), Vec::<String>::new());
    assert_eq!(archive.unpack("anything"), Err(DataError::EntryNotFound));
}

#[test]
fn inflate_undoes_deflate() {
    let mut noise = Vec::new();
    let mut state: u32 = 12345;
    for _ in 0..5000 {
        state = state.wrapping_mul(1_103_515_245).wrapping_add(12345);
        noise.push((state >> 16) as u8);
    }
    let payloads: Vec<Vec<u8>> = vec![
        Vec::new(),
        vec![0],
        b"abcabcabcabcabcabc".to_vec(),
        (0..=255u8).collect(),
        noise,
    ];
    for payload in &payloads {
        let archive = PakArchive::new(archive_of(&[("x", payload.as_slice())])).unwrap();
        assert_eq!(&archive.unpack("x").unwrap(), payload);
    }
}

#[test]
fn unpack_does_not_hand_back_the_compressed_bytes() {
    let payload = vec![b'a'; 1000];
    let compressed = deflate(&payload);
    assert_ne!(compressed, payload);
    let archive = PakArchive::new(archive_of(&[("x", payload.as_slice())])).unwrap();
    assert_eq!(archive.unpack("x").unwrap(), payload);
}

#[test]
fn unknown_signature_is_corrupt() {
    let mut bytes = archive_of(&[("x", b"payload")]);
    bytes[2] = 9;
    assert!(matches!(PakArchive::new(bytes), Err(DataError::CorruptArchive)));
    assert!(matches!(read_index(b"PK\x05\x06"), Err(DataError::CorruptArchive)));
}

#[test]
fn signature_after_a_record_is_checked_too() {
    let mut bytes = record_with(b"x", b"", 8, &deflate(b"abc"), 3);
    bytes.extend_from_slice(b"JUNK");
    assert!(matches!(PakArchive::new(bytes), Err(DataError::CorruptArchive)));
}

#[test]
fn other_methods_than_deflate_are_refused() {
    let mut bytes = record_with(b"stored.txt", b"", 0, b"plain", 5);
    bytes.extend_from_slice(b"PK\x01\x02");
    assert!(matches!(PakArchive::new(bytes), Err(DataError::UnsupportedCompression)));
}

#[test]
fn name_that_is_not_utf8_is_corrupt() {
    let mut bytes = record_with(&[0xff, 0xfe], b"", 8, &deflate(b"abc"), 3);
    bytes.extend_from_slice(b"PK\x01\x02");
    assert!(matches!(PakArchive::new(bytes), Err(DataError::CorruptArchive)));
}

#[test]
fn names_may_hold_any_utf8() {
    let name = "mechs/\u{e4}tlas-\u{1f916}.mdf";
    let archive = PakArchive::new(archive_of(&[(name, b"<x/>")])).unwrap();
    assert_eq!(archive.file_list(), vec![name.to_string()]);
    assert_eq!(archive.unpack(name).unwrap(), b"<x/>");
}

#[test]
fn truncated_archives_end_unexpectedly() {
    let whole = archive_of(&[("x", b"payload"), ("y", b"more")]);
    let directory = whole.len() - 46;
    for cut in 0..directory + 4 {
        let r = PakArchive::new(whole[..cut].to_vec());
        assert!(matches!(r, Err(DataError::UnexpectedEof)), "cut at {}", cut);
    }
    assert!(PakArchive::new(whole[..directory + 4].to_vec()).is_ok());
    assert!(matches!(PakArchive::new(Vec::new()), Err(DataError::UnexpectedEof)));
}

#[test]
fn missing_file_is_not_found() {
    let archive = PakArchive::new(archive_of(&[("x", b"payload")])).unwrap();
    assert_eq!(archive.unpack("X"), Err(DataError::EntryNotFound));
    assert_eq!(archive.locate("y"), Err(DataError::EntryNotFound));
}

#[test]
fn bytes_that_are_no_deflate_stream_fail_to_decode() {
    let mut bytes = record_with(b"bad", b"", 8, &[0xff, 0xff, 0xff, 0xff], 4);
    bytes.extend_from_slice(b"PK\x01\x02");
    let archive = PakArchive::new(bytes).unwrap();
    assert_eq!(archive.file_list(), vec!["bad"]);
    assert_eq!(archive.unpack("bad"), Err(DataError::DecodeError));
}

#[test]
fn stored_sizes_are_not_checked() {
    let compressed = deflate(b"twelve bytes");
    let mut bytes = record_with(b"x", b"", 8, &compressed, 999);
    bytes.extend_from_slice(b"PK\x01\x02");
    let archive = PakArchive::new(bytes).unwrap();
    assert_eq!(archive.unpack("x").unwrap(), b"twelve bytes");
}

#[test]
fn extra_field_is_skipped() {
    let compressed = deflate(b"data");
    let mut bytes = record_with(b"x", b"EXTRA-FIELD", 8, &compressed, 4);
    bytes.extend_from_slice(b"PK\x01\x02");
    let archive = PakArchive::new(bytes).unwrap();
    assert_eq!(archive.locate("x"), Ok((30 + 1 + 11, 30 + 1 + 11 + compressed.len())));
    assert_eq!(archive.unpack("x").unwrap(), b"data");
}

#[test]
fn first_of_two_files_with_one_name_is_unpacked() {
    let archive =
        PakArchive::new(archive_of(&[("same", b"first"), ("same", b"second")])).unwrap();
    assert_eq!(archive.file_list(), vec!["same", "same"]);
    assert_eq!(archive.unpack("same").unwrap(), b"first");
}

#[test]
fn index_records_offsets_and_lengths() {
    let compressed = deflate(b"abc");
    let mut bytes = record_with(b"name", b"", 8, &compressed, 3);
    bytes.extend_from_slice(b"PK\x01\x02");
    let index = read_index(&bytes).unwrap();
    assert_eq!(index.len(), 1);
    assert_eq!(index[0].filename, "name");
    assert_eq!(index[0].data_offset, 34);
    assert_eq!(index[0].data_len, compressed.len() as u64);
}

#[test]
fn reader_reads_little_endian_numbers() {
    let source = [0x01u8, 0x02, 0x03, 0x04, 0x05, 0x06, 0x07];
    let mut pos: u64 = 0;
    assert_eq!(Reader2::read_u16(&source, &mut pos), Ok(0x0201));
    assert_eq!(pos, 2);
    assert_eq!(Reader2::read_u32(&source, &mut pos), Ok(0x0605_0403));
    assert_eq!(pos, 6);
    assert_eq!(Reader2::read_u16(&source, &mut pos), Err(DataError::UnexpectedEof));
    assert_eq!(pos, 6);
    assert_eq!(Reader2::read_bytes(&source, &mut pos, 1), Ok(vec![0x07]));
    assert_eq!(Reader2::read_bytes(&source, &mut pos, 0), Ok(vec![]));
    assert_eq!(Reader2::read_bytes(&source, &mut pos, 1), Err(DataError::UnexpectedEof));
    let mut beyond: u64 = 100;
    assert_eq!(Reader2::read_bytes(&source, &mut beyond, 0), Err(DataError::UnexpectedEof));
}
