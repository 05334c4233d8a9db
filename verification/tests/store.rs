use objstore::cli::Kind;
use objstore::codec::decode_object;
use objstore::codec::frame;
use objstore::codec::parse_header;
use objstore::error::ObjectError;
use objstore::store::cat_file_payload;
use objstore::store::ls_tree_payload;
use objstore::store::path_for;
use objstore::store::store_read;
use objstore::store::store_write;

use std::io::Read;
use std::io::Write;

/// Compress bytes exactly as the store does at rest, for building fixtures.
fn compress_raw(data: &[u8]) -> Vec<u8> {
    let mut encoder = flate2::write::ZlibEncoder::new(Vec::new(), flate2::Compression::default());
    encoder.write_all(data).unwrap();
    encoder.finish().unwrap()
}

/// Decompress bytes with the compression crate directly, bypassing the store.
fn decompress_raw(data: &[u8]) -> Vec<u8> {
    let mut decoder = flate2::read::ZlibDecoder::new(data);
    let mut out = Vec::new();
    decoder.read_to_end(&mut out).unwrap();
    out
}

#[test]
fn round_trip_blob() {
    let payload = b"hello world".to_vec();
    let stored = store_write(Kind::Blob, &payload, true).unwrap();
    let read = store_read(Some(&stored.compressed)).unwrap();
    assert_eq!(read.0, Kind::Blob);
    assert_eq!(read.1, payload);
}

#[test]
fn round_trip_tree() {
    let payload = vec![0u8, 1, 2, 255, 254, 10, 32, 0];
    let stored = store_write(Kind::Tree, &payload, true).unwrap();
    let read = store_read(Some(&stored.compressed)).unwrap();
    assert_eq!(read.0, Kind::Tree);
    assert_eq!(read.1, payload);
}

#[test]
fn round_trip_empty_payload() {
    let payload = Vec::new();
    let stored = store_write(Kind::Blob, &payload, true).unwrap();
    let read = store_read(Some(&stored.compressed)).unwrap();
    assert_eq!(read.0, Kind::Blob);
    assert_eq!(read.1, payload);
}

#[test]
fn write_twice_is_deterministic() {
    let payload = b"same content".to_vec();
    let first = store_write(Kind::Blob, &payload, true).unwrap();
    let second = store_write(Kind::Blob, &payload, true).unwrap();
    assert_eq!(first.identity, second.identity);
    assert_eq!(first.compressed, second.compressed);
    assert_eq!(first.path, second.path);
}

#[test]
fn path_derivation_known_identity() {
    let identity = b"e69de29bb2d1d6434b8b29ae775ad8c2e48c5391".to_vec();
    let path = path_for(&identity);
    assert_eq!(path, b"objects/e6/9de29bb2d1d6434b8b29ae775ad8c2e48c5391".to_vec());
}

#[test]
fn known_vector_empty_blob() {
    let stored = store_write(Kind::Blob, &Vec::new(), true).unwrap();
    assert_eq!(stored.identity, b"e69de29bb2d1d6434b8b29ae775ad8c2e48c5391".to_vec());
    assert_eq!(stored.path, b"objects/e6/9de29bb2d1d6434b8b29ae775ad8c2e48c5391".to_vec());
}

#[test]
fn frame_is_header_then_payload() {
    let framed = frame(Kind::Blob, &b"hello".to_vec());
    assert_eq!(framed, b"blob 5\0hello".to_vec());
    let framed = frame(Kind::Tree, &Vec::new());
    assert_eq!(framed, b"tree 0\0".to_vec());
}

#[test]
fn stored_bytes_decompress_to_frame() {
    let payload = b"abc".to_vec();
    let stored = store_write(Kind::Blob, &payload, true).unwrap();
    assert_eq!(decompress_raw(&stored.compressed), b"blob 3\0abc".to_vec());
}

#[test]
fn truncation_detected() {
    let compressed = compress_raw(b"blob 10\0hello");
    let read = store_read(Some(&compressed));
    assert_eq!(read, Err(ObjectError::TruncatedObject));
}

#[test]
fn trailing_data_detected() {
    let compressed = compress_raw(b"blob 5\0hello!!");
    let read = store_read(Some(&compressed));
    assert_eq!(read, Err(ObjectError::TrailingData));
}

#[test]
fn unknown_identity_is_not_found() {
    let read = store_read(None);
    assert_eq!(read, Err(ObjectError::ObjectNotFound));
}

#[test]
fn undecompressable_bytes_are_corrupt() {
    let read = store_read(Some(&b"not a zlib stream".to_vec()));
    assert_eq!(read, Err(ObjectError::CorruptObject));
}

#[test]
fn unknown_kind_rejected() {
    let decoded = decode_object(&b"commit 4\0body".to_vec());
    assert_eq!(decoded, Err(ObjectError::UnknownKind));
}

#[test]
fn header_without_nul_is_malformed() {
    let decoded = decode_object(&b"blob 4".to_vec());
    assert_eq!(decoded, Err(ObjectError::MalformedHeader));
}

#[test]
fn header_without_space_is_malformed() {
    let decoded = decode_object(&b"blob\0".to_vec());
    assert_eq!(decoded, Err(ObjectError::MalformedHeader));
}

#[test]
fn header_with_bad_length_is_malformed() {
    let decoded = decode_object(&b"blob x\0".to_vec());
    assert_eq!(decoded, Err(ObjectError::MalformedHeader));
    let decoded = decode_object(&b"blob \0".to_vec());
    assert_eq!(decoded, Err(ObjectError::MalformedHeader));
    let decoded = decode_object(&b"blob 18446744073709551616\0".to_vec());
    assert_eq!(decoded, Err(ObjectError::MalformedHeader));
}

#[test]
fn parse_header_reports_fields() {
    let header = parse_header(&b"tree 38\0".to_vec()).unwrap();
    assert_eq!(header.kind, Kind::Tree);
    assert_eq!(header.declared_len, 38);
    assert_eq!(header.header_len, 8);
}

#[test]
fn cat_file_returns_blob_payload() {
    let payload = b"file content\n".to_vec();
    let stored = store_write(Kind::Blob, &payload, true).unwrap();
    let shown = cat_file_payload(true, Some(&stored.compressed)).unwrap();
    assert_eq!(shown, payload);
}

#[test]
fn cat_file_requires_pretty_print() {
    let stored = store_write(Kind::Blob, &b"x".to_vec(), true).unwrap();
    let shown = cat_file_payload(false, Some(&stored.compressed));
    assert_eq!(shown, Err(ObjectError::UnsupportedOperation));
}

#[test]
fn cat_file_refuses_tree() {
    let stored = store_write(Kind::Tree, &b"raw entries".to_vec(), true).unwrap();
    let shown = cat_file_payload(true, Some(&stored.compressed));
    assert_eq!(shown, Err(ObjectError::UnsupportedOperation));
}

#[test]
fn ls_tree_returns_tree_payload() {
    let payload = b"raw listing bytes".to_vec();
    let stored = store_write(Kind::Tree, &payload, true).unwrap();
    let shown = ls_tree_payload(Some(&stored.compressed)).unwrap();
    assert_eq!(shown, payload);
}

#[test]
fn ls_tree_refuses_blob() {
    let stored = store_write(Kind::Blob, &b"plain".to_vec(), true).unwrap();
    let shown = ls_tree_payload(Some(&stored.compressed));
    assert_eq!(shown, Err(ObjectError::UnsupportedOperation));
}

#[test]
fn write_requires_write_flag() {
    let refused = store_write(Kind::Blob, &b"x".to_vec(), false);
    assert!(matches!(refused, Err(ObjectError::UnsupportedOperation)));
}

#[test]
fn large_declared_length_round_trips() {
    let payload = vec![7u8; 100000];
    let stored = store_write(Kind::Blob, &payload, true).unwrap();
    let read = store_read(Some(&stored.compressed)).unwrap();
    assert_eq!(read.0, Kind::Blob);
    assert_eq!(read.1, payload);
}
