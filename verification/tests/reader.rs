use glove_host::reader::{FrameReader, ReadOutcome, ReaderAction, ReaderState};

#[test]
fn single_line_yields_one_sample() {
    let mut reader = FrameReader::new();
    let samples = reader.ingest(b"440,612,618,548,528\n", 1_000);
    assert_eq!(samples.len(), 1);
    assert_eq!(samples[0].channels, [440, 612, 618, 548, 528]);
    assert_eq!(samples[0].timestamp, 1_000);
    assert_eq!(reader.pending_len(), 0);
}

#[test]
fn frame_split_across_reads_is_reassembled() {
    let mut reader = FrameReader::new();
    let first = reader.ingest(b"440,612,", 5);
    assert!(first.is_empty());
    assert_eq!(reader.pending_len(), 8);
    let second = reader.ingest(b"618,548,528\n", 6);
    assert_eq!(second.len(), 1);
    assert_eq!(second[0].channels, [440, 612, 618, 548, 528]);
    assert_eq!(second[0].timestamp, 6);
    assert_eq!(reader.pending_len(), 0);
}

#[test]
fn reader_follows_connection_flags() {
    let mut reader = FrameReader::new();
    assert_eq!(reader.state(), ReaderState::Running);
    assert_eq!(reader.observe(true, false), ReaderAction::Idle { pause_ms: 10 });
    assert_eq!(reader.state(), ReaderState::Paused);
    assert_eq!(reader.observe(true, true), ReaderAction::Read { capacity: 1024, pause_ms: 10 });
    assert_eq!(reader.state(), ReaderState::Running);
    assert_eq!(reader.observe(false, false), ReaderAction::Exit);
    assert_eq!(reader.observe(true, true), ReaderAction::Exit);
    assert_eq!(reader.state(), ReaderState::Stopped);
}

#[test]
fn failed_read_stops_and_reports_once() {
    let mut reader = FrameReader::new();
    let out = reader.accept(ReadOutcome::Failed("device unplugged".to_string()), 0);
    assert!(out.samples.is_empty());
    assert_eq!(out.error.as_deref(), Some("Read error: device unplugged"));
    assert_eq!(reader.state(), ReaderState::Stopped);
    let again = reader.accept(ReadOutcome::Failed("device unplugged".to_string()), 0);
    assert!(again.error.is_none());
    let late = reader.accept(ReadOutcome::Data(b"1,2,3,4,5\n".to_vec()), 0);
    assert!(late.samples.is_empty());
}

#[test]
fn failed_read_closes_the_connection() {
    let mut connection = glove_host::connection::Connection::new();
    connection.prepare_open("/dev/ttyUSB0", 9600).unwrap();
    connection.complete_open("/dev/ttyUSB0", Ok(())).unwrap();
    let mut reader = FrameReader::new();
    let data = reader.accept_for(&mut connection, ReadOutcome::Data(b"1,2,3,4,5\n".to_vec()), 1);
    assert_eq!(data.samples.len(), 1);
    assert!(connection.is_connected() && connection.is_reading());
    let quiet = reader.accept_for(&mut connection, ReadOutcome::TimedOut, 2);
    assert!(quiet.error.is_none());
    assert!(connection.is_connected());
    let failed = reader.accept_for(&mut connection, ReadOutcome::Failed("gone".to_string()), 3);
    assert_eq!(failed.error.as_deref(), Some("Read error: gone"));
    assert!(!connection.is_connected() && !connection.is_reading());
    assert_eq!(reader.observe(connection.is_connected(), connection.is_reading()), ReaderAction::Exit);
}
