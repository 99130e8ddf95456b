use csvparser::codec::{parse_rows, serialize};
use csvparser::config::Config;
use csvparser::error::CsvError;
use csvparser::processor::CsvProcessor;
use csvparser::projection::{project, to_zero_based};
use csvparser::stats::{rate_per_second, ProcessingStats};
use csvparser::stream::{
    consumer_outcome, producer_step, MemoryMappedReader, ProducerStep, StreamingCsvReader,
};

fn config_with(fields: Option<Vec<usize>>) -> Config {
    Config {
        input: None,
        output: None,
        fields,
        buffer_size: 65536,
        threads: None,
        stats: false,
    }
}

fn strings(items: &[&str]) -> Vec<String> {
    items.iter().map(|s| s.to_string()).collect()
}

fn run(fields: Option<Vec<usize>>, data: &[u8]) -> Result<(String, u64), CsvError> {
    let processor = CsvProcessor::new(config_with(fields)).unwrap();
    processor.process_data(data)
}

#[test]
fn selects_first_and_third_columns() {
    let (out, count) = run(Some(vec![1, 3]), b"a,b,c\n1,2,3\n4,5,6\n").unwrap();
    assert_eq!(out, "a,c\n1,3\n4,6\n");
    assert_eq!(count, 2);
}

#[test]
fn short_row_passes_through_unprojected() {
    let (out, count) = run(None, b"a,b,c\n1,2\n4,5,6\n").unwrap();
    assert_eq!(out, "a,b,c\n1,2\n4,5,6\n");
    assert_eq!(count, 2);
}

#[test]
fn offset_past_every_row_gives_empty_lines() {
    let (out, count) = run(Some(vec![5]), b"a,b,c\n1,2,3\n4,5,6\n").unwrap();
    assert_eq!(out, "\n\n\n");
    assert_eq!(count, 2);
}

#[test]
fn empty_input_has_no_header() {
    let result = run(None, b"");
    assert!(matches!(result, Err(CsvError::MissingHeader)));
}

#[test]
fn malformed_row_is_skipped_and_later_rows_kept() {
    let (out, count) = run(None, b"a,b\n1,2\n\xff,3\n4,5\n").unwrap();
    assert_eq!(out, "a,b\n1,2\n4,5\n");
    assert_eq!(count, 2);
}

#[test]
fn malformed_header_is_fatal() {
    let result = run(None, b"\xff,b\n1,2\n");
    assert!(matches!(result, Err(CsvError::Csv(_))));
}

#[test]
fn header_is_projected_in_selection_order() {
    let (out, _) = run(Some(vec![3, 1, 3]), b"a,b,c\n").unwrap();
    assert_eq!(out, "c,a,c\n");
}

#[test]
fn quoted_field_loses_its_quotes_on_output() {
    let (out, _) = run(None, b"a,b\n\"x,y\",z\n").unwrap();
    assert_eq!(out, "a,b\nx,y,z\n");
}

#[test]
fn serialized_line_parses_back_to_its_fields() {
    let fields = strings(&["x", "y z", "", "1"]);
    let line = serialize(&fields);
    assert_eq!(line, "x,y z,,1\n");
    let rows = parse_rows(line.as_bytes());
    assert_eq!(rows.len(), 1);
    assert_eq!(rows[0].as_ref().unwrap(), &fields);
}

#[test]
fn parse_rows_splits_rows_and_fields() {
    let rows = parse_rows(b"a,b\n\"q,r\",s,t\n");
    assert_eq!(rows.len(), 2);
    assert_eq!(rows[0].as_ref().unwrap(), &strings(&["a", "b"]));
    assert_eq!(rows[1].as_ref().unwrap(), &strings(&["q,r", "s", "t"]));
}

#[test]
fn serialize_empty_record_is_a_newline() {
    assert_eq!(serialize(&Vec::new()), "\n");
}

#[test]
fn project_repeats_duplicate_offsets() {
    let row = strings(&["a", "b", "c"]);
    assert_eq!(project(&row, &vec![2, 0, 2]), strings(&["c", "a", "c"]));
}

#[test]
fn project_omits_offsets_past_row_end() {
    let row = strings(&["a", "b", "c"]);
    assert_eq!(project(&row, &vec![0, 5, 1]), strings(&["a", "b"]));
}

#[test]
fn zero_based_clamps_at_zero() {
    assert_eq!(to_zero_based(&vec![1, 0, 3]), vec![0, 0, 2]);
}

#[test]
fn config_field_indices() {
    let config = config_with(Some(vec![2, 1]));
    assert!(config.should_select_fields());
    assert_eq!(config.field_indices(), Some(vec![1, 0]));
    let plain = config_with(None);
    assert!(!plain.should_select_fields());
    assert_eq!(plain.field_indices(), None);
    assert!(plain.input_path().is_none());
    let mut named = config_with(None);
    named.input = Some("in.csv".to_string());
    assert_eq!(named.input_path().unwrap(), std::path::PathBuf::from("in.csv"));
}

#[test]
fn rate_is_zero_without_elapsed_time() {
    assert_eq!(rate_per_second(10, 0), 0);
    assert_eq!(rate_per_second(0, 0), 0);
}

#[test]
fn rate_over_two_seconds() {
    assert_eq!(rate_per_second(10, 2_000_000_000), 5);
    assert_eq!(rate_per_second(u64::MAX, 1), u64::MAX as u128 * 1_000_000_000);
}

#[test]
fn stats_counters() {
    let stats = ProcessingStats::new();
    assert_eq!(stats.records_processed(), 0);
    assert_eq!(stats.records_per_second(), 0);
    stats.update_records_processed(7);
    stats.add_records_processed(3);
    assert_eq!(stats.records_processed(), 10);
    stats.update_bytes_processed(100);
    stats.add_bytes_processed(28);
    assert_eq!(stats.bytes_processed(), 128);
}

#[test]
fn handle_record_counts_parsed_rows_only() {
    let processor = CsvProcessor::new(config_with(Some(vec![2]))).unwrap();
    let (line, count) = processor.handle_record(&Ok(strings(&["p", "q"])), 4);
    assert_eq!(line, Some("q\n".to_string()));
    assert_eq!(count, 5);
    assert_eq!(processor.stats().records_processed(), 5);
    let bad = Err(CsvError::Processing("bad row".to_string()));
    let (line, count) = processor.handle_record(&bad, 5);
    assert_eq!(line, None);
    assert_eq!(count, 5);
}

#[test]
fn producer_delivers_read_prefix() {
    let buffer = vec![1u8, 2, 3];
    assert!(matches!(producer_step(Ok(0), &buffer), ProducerStep::Finish));
    match producer_step(Ok(2), &buffer) {
        ProducerStep::Deliver(chunk) => assert_eq!(chunk, vec![1u8, 2]),
        _ => panic!("expected a chunk"),
    }
    let failed = producer_step(Err(std::io::Error::new(std::io::ErrorKind::Other, "x")), &buffer);
    assert!(matches!(failed, ProducerStep::Fail(CsvError::Io(_))));
}

#[test]
fn consumer_crash_is_a_threading_error() {
    assert!(matches!(consumer_outcome(None), Err(CsvError::Threading(_))));
    assert!(matches!(consumer_outcome(Some(Ok(()))), Ok(())));
    let failed = consumer_outcome(Some(Err(CsvError::Processing("h".to_string()))));
    assert!(matches!(failed, Err(CsvError::Processing(_))));
}

#[test]
fn streaming_reader_keeps_buffer_size() {
    let mut reader = StreamingCsvReader::new(vec![1u8], 16);
    assert_eq!(reader.buffer_size(), 16);
    assert_eq!(reader.reader_mut().len(), 1);
}

fn anonymous_map(bytes: &[u8]) -> memmap2::Mmap {
    let mut map = memmap2::MmapMut::map_anon(bytes.len()).unwrap();
    map.copy_from_slice(bytes);
    map.make_read_only().unwrap()
}

#[test]
fn mapped_reader_hands_out_chunks_in_order() {
    let mut reader = MemoryMappedReader::from_map(anonymous_map(b"0123456789"));
    assert_eq!(reader.read_chunk(4), Some(&b"0123"[..]));
    assert_eq!(reader.read_chunk(4), Some(&b"4567"[..]));
    assert_eq!(reader.read_chunk(4), Some(&b"89"[..]));
    assert_eq!(reader.read_chunk(4), None);
}

#[test]
fn mapped_reader_large_request_reads_to_end() {
    let mut reader = MemoryMappedReader::from_map(anonymous_map(b"abc"));
    assert_eq!(reader.read_chunk(usize::MAX), Some(&b"abc"[..]));
    assert_eq!(reader.read_chunk(1), None);
}

#[test]
fn validate_rejects_zero_buffer_and_empty_selection() {
    assert!(config_with(Some(vec![1])).validate().is_ok());
    assert!(config_with(None).validate().is_ok());
    let mut zero = config_with(None);
    zero.buffer_size = 0;
    assert!(matches!(zero.validate(), Err(CsvError::Config(_))));
    assert!(matches!(config_with(Some(vec![])).validate(), Err(CsvError::FieldSelection(_))));
}

#[test]
fn header_line_requires_a_field() {
    let processor = CsvProcessor::new(config_with(Some(vec![2, 1]))).unwrap();
    assert!(matches!(processor.header_line(&Vec::new()), Err(CsvError::MissingHeader)));
    assert_eq!(processor.header_line(&strings(&["a", "b"])).unwrap(), "b,a\n");
}

#[test]
fn byte_order_mark_inside_a_field_round_trips() {
    let fields = strings(&["a", "\u{feff}b"]);
    let line = serialize(&fields);
    let rows = parse_rows(line.as_bytes());
    assert_eq!(rows.len(), 1);
    assert_eq!(rows[0].as_ref().unwrap(), &fields);
}
