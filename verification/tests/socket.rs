use coreshift_engine::services::socket::{
    wrote_all, ByteRead, LineReader, LineStep, TransferStep, WriteProgress,
};

#[test]
fn a_buffer_is_written_in_pieces() {
    let mut progress = WriteProgress::new(10);
    assert!(!progress.is_done());
    assert_eq!(progress.wrote(Some(4)), TransferStep::Again);
    assert_eq!(progress.position(), 4);
    assert_eq!(progress.wrote(None), TransferStep::Yield);
    assert_eq!(progress.wrote(Some(0)), TransferStep::Yield);
    assert_eq!(progress.position(), 4);
    assert_eq!(progress.wrote(Some(6)), TransferStep::Done);
    assert!(progress.is_done());
}

#[test]
fn an_empty_buffer_is_written_at_once() {
    assert!(WriteProgress::new(0).is_done());
}

#[test]
fn a_single_write_takes_all_or_not() {
    assert!(wrote_all(Some(3), 3));
    assert!(!wrote_all(Some(2), 3));
    assert!(!wrote_all(None, 3));
}

fn read(reader: &mut LineReader, bytes: &[u8]) -> Option<Vec<u8>> {
    for byte in bytes {
        match reader.read(ByteRead::Byte(*byte)) {
            LineStep::Line(line) => return Some(line),
            step => assert_eq!(step, LineStep::Again),
        }
    }
    None
}

#[test]
fn a_line_ends_with_its_line_feed() {
    let mut reader = LineReader::new(16);
    assert_eq!(reader.read(ByteRead::NotReady), LineStep::Yield);
    assert_eq!(read(&mut reader, b"ping\npong\n"), Some(b"ping\n".to_vec()));
    assert_eq!(read(&mut reader, b"pong\n"), Some(b"pong\n".to_vec()));
}

#[test]
fn a_line_ends_at_its_greatest_length() {
    assert_eq!(read(&mut LineReader::new(3), b"abcdef"), Some(b"abc".to_vec()));
    assert_eq!(read(&mut LineReader::new(0), b"abcdef"), Some(b"a".to_vec()));
    assert_eq!(read(&mut LineReader::new(9), b"abcdef"), None);
}

#[test]
fn a_closed_stream_gives_no_line() {
    let mut reader = LineReader::new(16);
    assert_eq!(read(&mut reader, b"pi"), None);
    assert_eq!(reader.read(ByteRead::Closed), LineStep::Closed);
}

#[test]
fn a_stream_is_read_line_by_line() {
    let mut reader = LineReader::new(4);
    let mut lines: Vec<Vec<u8>> = Vec::new();
    for byte in b"GET\nabcdef\n\nx" {
        if let LineStep::Line(line) = reader.read(ByteRead::Byte(*byte)) {
            lines.push(line);
        }
    }
    let expected: Vec<Vec<u8>> = vec![
        b"GET\n".to_vec(),
        b"abcd".to_vec(),
        b"ef\n".to_vec(),
        b"\n".to_vec(),
    ];
    assert_eq!(lines, expected);
    assert_eq!(reader.read(ByteRead::NotReady), LineStep::Yield);
    assert_eq!(reader.read(ByteRead::Closed), LineStep::Closed);
}
