use hdfs_gui_lib::chunk::clamped_length;
use hdfs_gui_lib::chunk::RandomAccessChunkAdapter;
use hdfs_gui_lib::files::classify_preview;
use hdfs_gui_lib::files::file_content_of;
use hdfs_gui_lib::files::HdfsFile;
use hdfs_gui_lib::source::ByteSource;
use hdfs_gui_lib::stream::SequentialStreamShim;

fn sample_bytes() -> Vec<u8> {
    (0u16..=255).map(|b| b as u8).collect()
}

#[test]
fn fetch_bytes_in_bounds_returns_exact_slice() {
    let data = sample_bytes();
    let adapter = RandomAccessChunkAdapter::new(ByteSource::InMemory(data.clone()));
    let got = adapter.fetch_bytes(10, 17).unwrap();
    assert_eq!(got, data[10..27].to_vec());
    assert_eq!(got.len(), 17);
    // fetches are independent and repeatable
    let again = adapter.fetch_bytes(10, 17).unwrap();
    assert_eq!(again, got);
}

#[test]
fn fetch_bytes_over_ask_is_clamped_not_refused() {
    let data = sample_bytes();
    let adapter = RandomAccessChunkAdapter::new(ByteSource::InMemory(data.clone()));
    // offset inside the file, length running past the end
    let got = adapter.fetch_bytes(200, 1000).unwrap();
    assert_eq!(got.len(), 56);
    assert_eq!(got, data[200..256].to_vec());
    // offset at the end: empty, still no error
    assert_eq!(adapter.fetch_bytes(256, 10).unwrap(), Vec::<u8>::new());
    // offset past the end: empty, still no error
    assert_eq!(adapter.fetch_bytes(300, 10).unwrap(), Vec::<u8>::new());
}

#[test]
fn clamped_length_arithmetic() {
    assert_eq!(clamped_length(0, 10, 100), 10);
    assert_eq!(clamped_length(95, 10, 100), 5);
    assert_eq!(clamped_length(100, 10, 100), 0);
    assert_eq!(clamped_length(200, 10, 100), 0);
    assert_eq!(clamped_length(0, 0, 100), 0);
}

#[test]
fn sequential_fills_concatenated_reproduce_the_file() {
    let data = sample_bytes();
    let mut shim = SequentialStreamShim::new(ByteSource::InMemory(data.clone()));
    let mut collected: Vec<u8> = Vec::new();
    loop {
        let chunk = shim.fill(33).unwrap();
        if chunk.is_empty() {
            break;
        }
        collected.extend_from_slice(&chunk);
    }
    assert_eq!(collected, data);
}

#[test]
fn fill_at_end_of_stream_is_zero_and_idempotent() {
    let data = vec![1u8, 2, 3];
    let mut shim = SequentialStreamShim::new(ByteSource::InMemory(data.clone()));
    assert_eq!(shim.fill(10).unwrap(), data);
    for _ in 0..5 {
        assert_eq!(shim.fill(10).unwrap(), Vec::<u8>::new());
    }
}

#[test]
fn fill_partial_chunks_advance_in_order() {
    let data = vec![10u8, 20, 30, 40, 50];
    let mut shim = SequentialStreamShim::new(ByteSource::InMemory(data));
    assert_eq!(shim.fill(2).unwrap(), vec![10, 20]);
    assert_eq!(shim.fill(2).unwrap(), vec![30, 40]);
    assert_eq!(shim.fill(2).unwrap(), vec![50]);
    assert_eq!(shim.fill(2).unwrap(), Vec::<u8>::new());
}

#[test]
fn preview_recognizes_orc_magic() {
    let buf = b"ORC\x01rest of file".to_vec();
    let p = classify_preview(&buf, "/data/part-0", 1000);
    assert!(p.isorc);
    assert!(!p.isparquet);
    assert!(!p.isavro);
    assert_eq!(p.length, 1000);
    assert_eq!(p.content, "ORC\x01rest of file");
}

#[test]
fn preview_recognizes_parquet_magic_and_avro_suffix() {
    let buf = b"PAR1....".to_vec();
    let p = classify_preview(&buf, "/data/file.avro", 8);
    assert!(p.isparquet);
    assert!(!p.isorc);
    assert!(p.isavro);
}

#[test]
fn preview_decodes_invalid_bytes_lossily() {
    let buf = vec![0xFFu8, b'a', b'b'];
    let p = classify_preview(&buf, "/x", 3);
    assert_eq!(p.content, "\u{FFFD}ab");
    assert!(!p.isorc);
}

#[test]
fn file_content_keeps_total_length() {
    let buf = b"hello".to_vec();
    let c = file_content_of(&buf, 12345);
    assert_eq!(c.content, "hello");
    assert_eq!(c.length, 12345);
}

#[test]
fn hdfs_file_from_status_derives_name_and_parent() {
    let f = HdfsFile::from_status("/a/b/c.txt", "o".to_string(), "g".to_string(), false, 0o644, 1, 2, 9);
    assert_eq!(f.name, "c.txt");
    assert_eq!(f.path, "/a/b/c.txt");
    assert_eq!(f.parent_path, "/a/b");
    assert_eq!(f.length, 9);
    assert!(f.file_count.is_none());
}

#[test]
fn hdfs_file_normalizes_backslashes_and_takes_summary() {
    let f = HdfsFile::from_status("\\a\\b", "o".to_string(), "g".to_string(), true, 0o755, 0, 0, 0);
    assert_eq!(f.path, "/a/b");
    let f = f.with_content_summary(100, 3, 2, 10, 200, 20);
    assert_eq!(f.length, 100);
    assert_eq!(f.file_count, Some(3));
    assert_eq!(f.directory_count, Some(2));
    let f = f.with_parent("/other".to_string());
    assert_eq!(f.parent_path, "/other");
}
