use glove_host::frame::parse_frame;
use glove_host::reader::{FrameReader, ReadOutcome, ReaderState};
use glove_host::sample::RawSample;

fn frame(line: &str, host_ms: i64) -> Option<RawSample> {
    let chars: Vec<char> = line.chars().collect();
    parse_frame(&chars, host_ms)
}

#[test]
fn five_fields_take_the_host_timestamp() {
    assert_eq!(
        frame("440,612,618,548,528", 77),
        Some(RawSample { timestamp: 77, channels: [440, 612, 618, 548, 528] })
    );
    assert_eq!(
        frame("  -1,+2,003,0,2147483647\r", -5),
        Some(RawSample { timestamp: -5, channels: [-1, 2, 3, 0, i32::MAX] })
    );
}

#[test]
fn six_fields_bring_their_timestamp() {
    assert_eq!(
        frame("1700000000123,1,2,3,4,5", 77),
        Some(RawSample { timestamp: 1_700_000_000_123, channels: [1, 2, 3, 4, 5] })
    );
    assert_eq!(
        frame("-9223372036854775808,-2147483648,0,0,0,0", 0),
        Some(RawSample { timestamp: i64::MIN, channels: [i32::MIN, 0, 0, 0, 0] })
    );
}

#[test]
fn wrong_field_counts_are_rejected() {
    for line in ["", "   ", "1", "1,2,3,4", "1,2,3,4,5,6,7", "1,2,3,4,5,", ",1,2,3,4,5,6", ",,,,,,"] {
        assert_eq!(frame(line, 0), None, "{:?}", line);
    }
}

#[test]
fn non_integer_fields_are_rejected() {
    for line in [
        "1,2,x,4,5",
        "1,2,,4,5",
        "1,2, 3,4,5",
        "1,2,3.5,4,5",
        "1,2,3,4,2147483648",
        "t,1,2,3,4,5",
        "9223372036854775808,1,2,3,4,5",
        "1,2,3,4,5,-2147483649",
        ",,,,",
        ",,,,,",
        "1,2,3,4,\u{FFFD}",
    ] {
        assert_eq!(frame(line, 0), None, "{:?}", line);
    }
}

#[test]
fn malformed_lines_are_skipped_without_stopping() {
    let mut reader = FrameReader::new();
    let samples = reader.ingest(b"garbage\n1,2,3\n\n1,2,3,4,5\nx,y,z,1,2\n9,8,7,6,5,4\n", 10);
    assert_eq!(
        samples,
        vec![
            RawSample { timestamp: 10, channels: [1, 2, 3, 4, 5] },
            RawSample { timestamp: 9, channels: [8, 7, 6, 5, 4] },
        ]
    );
    assert_eq!(reader.state(), ReaderState::Running);
    assert_eq!(reader.pending_len(), 0);
}

#[test]
fn invalid_bytes_are_replaced_not_fatal() {
    let mut reader = FrameReader::new();
    let samples = reader.ingest(b"1,2,\xFF3,4,5\n1,2,3,4,5\n\xC3", 3);
    assert_eq!(samples, vec![RawSample { timestamp: 3, channels: [1, 2, 3, 4, 5] }]);
    assert_eq!(reader.pending_len(), 1);
    assert_eq!(reader.state(), ReaderState::Running);
}

#[test]
fn several_frames_and_a_tail_in_one_read() {
    let mut reader = FrameReader::new();
    let samples = reader.ingest(b"1,1,1,1,1\r\n2,2,2,2,2\n3,3,3", 0);
    assert_eq!(samples.len(), 2);
    assert_eq!(samples[1].channels, [2; 5]);
    assert_eq!(reader.pending_len(), 5);
    let rest = reader.ingest(b",3,3\n", 1);
    assert_eq!(rest, vec![RawSample { timestamp: 1, channels: [3; 5] }]);
}

#[test]
fn chunking_does_not_change_the_samples() {
    let stream = b"440,612,618,548,528\n1,2,3,4,5\nbad\n10,20,30,40,50,60\n7,7,7";
    let mut whole = FrameReader::new();
    let expected = whole.ingest(stream, 4);
    for cut in 0..=stream.len() {
        let mut reader = FrameReader::new();
        let mut samples = reader.ingest(&stream[..cut], 4);
        samples.extend(reader.ingest(&stream[cut..], 4));
        assert_eq!(samples, expected, "cut at {}", cut);
        assert_eq!(reader.pending_len(), whole.pending_len());
    }
}

#[test]
fn accept_handles_data_and_timeouts() {
    let mut reader = FrameReader::new();
    let out = reader.accept(ReadOutcome::Data(b"1,2,3,4,5\n6,7".to_vec()), 9);
    assert_eq!(out.samples, vec![RawSample { timestamp: 9, channels: [1, 2, 3, 4, 5] }]);
    assert!(out.error.is_none());
    let quiet = reader.accept(ReadOutcome::TimedOut, 10);
    assert!(quiet.samples.is_empty() && quiet.error.is_none());
    assert_eq!(reader.pending_len(), 3);
    assert_eq!(reader.state(), ReaderState::Running);
    let empty = reader.accept(ReadOutcome::Data(Vec::new()), 11);
    assert!(empty.samples.is_empty());
    assert_eq!(reader.pending_len(), 3);
}

#[test]
fn paused_reader_ignores_outcomes() {
    let mut reader = FrameReader::new();
    reader.observe(true, false);
    let out = reader.accept(ReadOutcome::Data(b"1,2,3,4,5\n".to_vec()), 0);
    assert!(out.samples.is_empty());
    let failed = reader.accept(ReadOutcome::Failed("late".to_string()), 0);
    assert!(failed.error.is_none());
    assert_eq!(reader.state(), ReaderState::Paused);
}
