use server_poller::bytes::{push_be32, push_be64, read_be32};
use server_poller::json::{json_text, parse_json};
use server_poller::wal::{
    encode_item, read_segment, sorted_segments, BatchWriter, SegmentFile, WalBuffer, WritePhase,
    WriteStep,
};

fn record(text: &str) -> Vec<u8> {
    encode_item(&parse_json(text).unwrap())
}

fn texts(bytes: &Vec<u8>, max: usize) -> Vec<String> {
    read_segment(bytes, max).iter().map(json_text).collect()
}

fn file(name: &str, size: u64) -> SegmentFile {
    SegmentFile { name: name.to_string(), size }
}

fn names(list: &Vec<SegmentFile>) -> Vec<&str> {
    list.iter().map(|f| f.name.as_str()).collect()
}

#[test]
fn numbers_in_big_endian() {
    let mut out = Vec::new();
    push_be32(&mut out, 0x01020304);
    push_be64(&mut out, -1);
    assert_eq!(out, vec![1, 2, 3, 4, 255, 255, 255, 255, 255, 255, 255, 255]);
    assert_eq!(read_be32(&out, 0), 0x01020304);
    assert_eq!(read_be32(&out, 2), 0x0304ffff);
}

#[test]
fn records_have_a_length_a_payload_and_a_sentinel() {
    assert_eq!(record("[1,2]"), b"\0\0\0\x05[1,2]\n".to_vec());
}

#[test]
fn what_was_written_is_read_back() {
    let written = ["{\"a\":1}", "[null]", "\"x\\ny\""];
    let mut bytes = Vec::new();
    for text in written {
        bytes.extend_from_slice(&record(text));
    }
    assert_eq!(texts(&bytes, 10), written);
    assert_eq!(texts(&bytes, 2), written[..2]);
    assert_eq!(texts(&bytes, 0), Vec::<String>::new());
    assert_eq!(texts(&Vec::new(), 10), Vec::<String>::new());
}

#[test]
fn a_torn_record_is_discarded() {
    let first = record("{\"a\":1}");
    let second = record("{\"b\":2}");
    for cut in 0..second.len() {
        let mut bytes = first.clone();
        bytes.extend_from_slice(&second[..cut]);
        assert_eq!(texts(&bytes, 10), vec!["{\"a\":1}"], "{cut}");
    }
}

#[test]
fn corrupt_records_are_skipped() {
    let mut bytes = record("1");
    *bytes.last_mut().unwrap() = b'x';
    bytes.extend_from_slice(b"\0\0\0\x02{]\n");
    bytes.extend_from_slice(&record("2"));
    assert_eq!(texts(&bytes, 1), vec!["2"]);
}

#[test]
fn an_absurd_length_ends_the_segment() {
    let mut bytes = record("1");
    bytes.extend_from_slice(&[1, 0, 0, 1]);
    bytes.extend_from_slice(&record("2"));
    assert_eq!(texts(&bytes, 10), vec!["1"]);
}

#[test]
fn segments_are_listed_by_name() {
    let list = sorted_segments(vec![
        file("buffer-20.wal", 1),
        file(".wal", 2),
        file("buffer-10.wal", 3),
        file("notes.txt", 4),
        file("buffer-100.wal", 5),
        file("xwal", 6),
    ]);
    assert_eq!(names(&list), vec!["buffer-10.wal", "buffer-100.wal", "buffer-20.wal"]);
    assert_eq!(list[0].size, 3);
}

#[test]
fn the_buffer_counts_what_is_there() {
    let wal = WalBuffer::open(&vec![file("a.wal", 5), file("b.wal", 7)], 100, 50);
    assert_eq!(wal.total_bytes, 12);
    assert!(wal.current_segment.is_none());
}

fn batch(texts: &[&str]) -> BatchWriter {
    BatchWriter::new(&texts.iter().map(|t| parse_json(t).unwrap()).collect())
}

#[test]
fn a_batch_is_written_record_by_record() {
    let mut wal = WalBuffer::open(&Vec::new(), 100, 20);
    let mut batch = batch(&["\"0123456\"", "1", "\"a long text beyond any segment\""]);
    assert_eq!(batch.records[1], record("1"));
    let mut disk: Vec<SegmentFile> = Vec::new();
    assert_eq!(wal.write_batch(&batch, &disk), WriteStep::Rotate);
    let name = wal.close_segment(1234);
    assert_eq!(name, "buffer-1234.wal");
    assert!(wal.current_segment.is_none());
    wal.begin_segment(name, &mut batch);
    disk.push(file("buffer-1234.wal", 0));
    assert_eq!(wal.write_batch(&batch, &disk), WriteStep::Append);
    wal.append_record(&mut batch);
    assert_eq!((wal.total_bytes, wal.current_segment.as_ref().unwrap().size), (14, 14));
    assert_eq!(wal.write_batch(&batch, &disk), WriteStep::Append);
    wal.append_record(&mut batch);
    assert_eq!(wal.total_bytes, 20);
    assert!(!wal.has_pending(&disk));
    assert_eq!(wal.oldest_completed(&disk), None);
    // The segment is full; a record goes to a new one, however long it is.
    assert_eq!(wal.write_batch(&batch, &disk), WriteStep::Rotate);
    let name = wal.close_segment(1235);
    wal.begin_segment(name, &mut batch);
    disk.push(file("buffer-1235.wal", 0));
    assert_eq!(wal.write_batch(&batch, &disk), WriteStep::Append);
    wal.append_record(&mut batch);
    assert_eq!(wal.write_batch(&batch, &disk), WriteStep::Done);
    assert!(wal.has_pending(&disk));
    assert_eq!(wal.oldest_completed(&disk), Some(0));
}

#[test]
fn an_empty_batch_is_done() {
    let wal = WalBuffer::open(&Vec::new(), 100, 20);
    assert_eq!(wal.write_batch(&batch(&[]), &Vec::new()), WriteStep::Done);
}

#[test]
fn the_oldest_completed_segments_leave_a_full_buffer() {
    let mut disk = vec![file("a.wal", 30), file("b.wal", 30), file("c.wal", 30)];
    let mut wal = WalBuffer::open(&disk, 100, 50);
    let mut batch = batch(&["1"]);
    wal.begin_segment("a.wal".to_string(), &mut batch);
    batch.phase = WritePhase::MakeRoom;
    assert!(wal.has_pending(&disk));
    assert_eq!(wal.write_batch(&batch, &disk), WriteStep::Append);
    wal.max_bytes = 40;
    assert_eq!(wal.write_batch(&batch, &disk), WriteStep::Evict(1));
    let gone = disk.remove(1);
    wal.delete_segment(gone.size);
    assert_eq!(wal.total_bytes, 60);
    assert_eq!(wal.write_batch(&batch, &disk), WriteStep::Evict(1));
    let gone = disk.remove(1);
    wal.delete_segment(gone.size);
    assert_eq!(wal.write_batch(&batch, &disk), WriteStep::Append);
    // Nothing is left to evict: the record is written over the budget.
    wal.max_bytes = 1;
    wal.segment_max_bytes = 1;
    assert_eq!(wal.write_batch(&batch, &disk), WriteStep::Rotate);
    wal.delete_segment(1000);
    assert_eq!(wal.total_bytes, 0);
}
