//! Tests for the write path: framing, the capacity estimate, and round
//! trips through a real JSON serializer.

use cache_entry_file::cache_file::serialize_cache_file;
use cache_entry_file::cache_file::split_content_metadata;
use cache_entry_file::metadata::estimate_metadata_capacity;
use cache_entry_file::metadata::SerializedCachedUrlMetadata;

const MARKER: &[u8] = b"\n// denoCacheMetadata=";

fn metadata_value(
    url: &str,
    headers: &[(&str, &str)],
    time: Option<u64>,
) -> serde_json::Value {
    let mut header_map = serde_json::Map::new();
    for (name, value) in headers {
        header_map.insert(
            (*name).to_string(),
            serde_json::Value::String((*value).to_string()),
        );
    }
    let mut object = serde_json::Map::new();
    object.insert("headers".to_string(), serde_json::Value::Object(header_map));
    object.insert("url".to_string(), serde_json::Value::String(url.to_string()));
    if let Some(t) = time {
        object.insert(
            "time".to_string(),
            serde_json::Value::Number(serde_json::Number::from(t)),
        );
    }
    serde_json::Value::Object(object)
}

fn core_metadata(
    url: &str,
    headers: &[(&str, &str)],
    time: Option<u64>,
) -> SerializedCachedUrlMetadata {
    SerializedCachedUrlMetadata {
        headers: headers
            .iter()
            .map(|(name, value)| (name.as_bytes().to_vec(), value.as_bytes().to_vec()))
            .collect(),
        url: url.as_bytes().to_vec(),
        time,
    }
}

fn write_file(content: &[u8], url: &str, headers: &[(&str, &str)], time: Option<u64>) -> Vec<u8> {
    let metadata_json = serde_json::to_vec(&metadata_value(url, headers, time)).unwrap();
    let capacity = estimate_metadata_capacity(&core_metadata(url, headers, time));
    assert!(metadata_json.len() < capacity);
    serialize_cache_file(content, &metadata_json, capacity)
}

#[test]
fn hello_file_has_marker_after_last_newline_and_reads_back() {
    let value = metadata_value("https://x/y", &[], None);
    let metadata_json = serde_json::to_vec(&value).unwrap();
    let capacity = estimate_metadata_capacity(&core_metadata("https://x/y", &[], None));
    let file = serialize_cache_file(b"hello", &metadata_json, capacity);

    let last_newline = file.iter().rposition(|&b| b == b'\n').unwrap();
    assert_eq!(last_newline, 5);
    assert_eq!(&file[..5], b"hello");
    assert_eq!(&file[last_newline..last_newline + MARKER.len()], MARKER);

    let (content, metadata) = split_content_metadata(&file).unwrap();
    assert_eq!(content, b"hello");
    let parsed: serde_json::Value = serde_json::from_slice(metadata).unwrap();
    assert_eq!(parsed, value);
}

#[test]
fn round_trip_with_newlines_and_decoy_marker_in_content() {
    let content: &[u8] = b"a\n// denoCacheMetadata={\"decoy\":true}\nb";
    let value = metadata_value("https://example.com/a?b=1", &[("etag", "\"abc\""), ("x", "y")], Some(1700000000));
    let metadata_json = serde_json::to_vec(&value).unwrap();
    let file = serialize_cache_file(content, &metadata_json, 0);

    let (read_content, read_metadata) = split_content_metadata(&file).unwrap();
    assert_eq!(read_content, content);
    assert_eq!(read_metadata, metadata_json.as_slice());
    let parsed: serde_json::Value = serde_json::from_slice(read_metadata).unwrap();
    assert_eq!(parsed, value);
}

#[test]
fn writing_twice_gives_identical_files_and_reads() {
    let first = write_file(b"payload", "https://x/y", &[("a", "b")], Some(7));
    let second = write_file(b"payload", "https://x/y", &[("a", "b")], Some(7));
    assert_eq!(first, second);
    let split_first = split_content_metadata(&first).unwrap();
    let split_second = split_content_metadata(&second).unwrap();
    assert_eq!(split_first, split_second);
}

#[test]
fn estimate_has_exact_documented_value() {
    let metadata = core_metadata("u", &[("a", "bc")], Some(5));
    // (1 + 2 + 6) + 1 + 14 + 128
    assert_eq!(estimate_metadata_capacity(&metadata), 152);
    let metadata = core_metadata("https://x/y", &[], None);
    // 11 + 128
    assert_eq!(estimate_metadata_capacity(&metadata), 139);
}

#[test]
fn estimate_is_never_exceeded_by_serialized_metadata() {
    let cases: Vec<(&str, Vec<(&str, &str)>, Option<u64>)> = vec![
        ("https://x/y", vec![], None),
        ("https://x/y", vec![], Some(u64::MAX)),
        ("", vec![("", "")], Some(0)),
        (
            "https://example.com/long/path/with/segments",
            vec![
                ("content-type", "text/plain; charset=utf-8"),
                ("etag", "W/\"123\""),
                ("x-unicode", "naïve — ünïcödé"),
            ],
            Some(1700000000),
        ),
    ];
    for (url, headers, time) in cases {
        let metadata_json = serde_json::to_vec(&metadata_value(url, &headers, time)).unwrap();
        let capacity = estimate_metadata_capacity(&core_metadata(url, &headers, time));
        assert!(
            metadata_json.len() < capacity,
            "{} < {}",
            metadata_json.len(),
            capacity
        );
    }
}

#[test]
fn metadata_only_file_round_trips_empty_content() {
    let file = write_file(b"", "https://x/y", &[("k", "v")], None);
    let (content, metadata) = split_content_metadata(&file).unwrap();
    assert_eq!(content, b"");
    let parsed: serde_json::Value = serde_json::from_slice(metadata).unwrap();
    assert_eq!(parsed, metadata_value("https://x/y", &[("k", "v")], None));
}
