use zstd_line_reader::{handle_of, zstd_line_read, zstd_line_read_new, DecoderWrapper, LineReadError};

/// A zstd frame that holds `data` as one stored block.
fn frame_of(data: &[u8]) -> Vec<u8> {
    assert!(data.len() < 256);
    let mut frame = vec![0x28, 0xB5, 0x2F, 0xFD, 0x20, data.len() as u8];
    let header = ((data.len() as u32) << 3) | 1;
    frame.extend_from_slice(&header.to_le_bytes()[..3]);
    frame.extend_from_slice(data);
    frame
}

#[test]
fn test_c_api_basic() {
    let mut reader = zstd_line_read_new(frame_of(b"The Happening\nABCDE\n\n1\nTiti\n")).unwrap();
    let mut line: Option<Vec<u8>> = None;
    let mut line_len: usize = 0;

    assert_eq!(zstd_line_read(&mut reader, &mut line, &mut line_len), 0);
    assert_eq!(line.as_deref().unwrap(), b"The Happening\n");
    assert_eq!(b"The Happening\n".len(), line_len);

    assert_eq!(zstd_line_read(&mut reader, &mut line, &mut line_len), 0);
    assert_eq!(line.as_deref().unwrap(), b"ABCDE\n");
    assert_eq!(b"ABCDE\n".len(), line_len);

    assert_eq!(zstd_line_read(&mut reader, &mut line, &mut line_len), 0);
    assert_eq!(line.as_deref().unwrap(), b"\n");
    assert_eq!(b"\n".len(), line_len);

    assert_eq!(zstd_line_read(&mut reader, &mut line, &mut line_len), 0);
    assert_eq!(line.as_deref().unwrap(), b"1\n");
    assert_eq!(b"1\n".len(), line_len);

    assert_eq!(zstd_line_read(&mut reader, &mut line, &mut line_len), 0);
    assert_eq!(line.as_deref().unwrap(), b"Titi\n");
    assert_eq!(b"Titi\n".len(), line_len);
}

#[test]
fn handle_reports_clean_end_as_status_0_without_line() {
    let mut reader = zstd_line_read_new(frame_of(b"x\n")).unwrap();
    let mut line: Option<Vec<u8>> = None;
    let mut line_len: usize = 77;
    assert_eq!(zstd_line_read(&mut reader, &mut line, &mut line_len), 0);
    assert_eq!(line, Some(b"x\n".to_vec()));
    assert_eq!(line_len, 2);
    assert_eq!(zstd_line_read(&mut reader, &mut line, &mut line_len), 0);
    assert_eq!(line, None);
    assert_eq!(line_len, 0);
    assert_eq!(zstd_line_read(&mut reader, &mut line, &mut line_len), 0);
    assert_eq!(line, None);
    assert_eq!(line_len, 0);
}

#[test]
fn handle_reports_failure_as_status_minus_1_and_leaves_outputs() {
    let mut source = frame_of(b"never seen\n");
    source.truncate(source.len() - 3);
    let mut reader = zstd_line_read_new(source).unwrap();
    let mut line: Option<Vec<u8>> = Some(b"before".to_vec());
    let mut line_len: usize = 6;
    assert_eq!(zstd_line_read(&mut reader, &mut line, &mut line_len), -1);
    assert_eq!(line, Some(b"before".to_vec()));
    assert_eq!(line_len, 6);
}

#[test]
fn handle_gives_trailing_fragment_with_its_length() {
    let mut reader = zstd_line_read_new(frame_of(b"a\nno end")).unwrap();
    let mut line: Option<Vec<u8>> = None;
    let mut line_len: usize = 0;
    assert_eq!(zstd_line_read(&mut reader, &mut line, &mut line_len), 0);
    assert_eq!(zstd_line_read(&mut reader, &mut line, &mut line_len), 0);
    assert_eq!(line, Some(b"no end".to_vec()));
    assert_eq!(line_len, 6);
    assert_eq!(zstd_line_read(&mut reader, &mut line, &mut line_len), 0);
    assert_eq!(line, None);
    assert_eq!(line_len, 0);
}

#[test]
fn handle_line_with_nul_byte_keeps_its_full_length() {
    let mut reader = zstd_line_read_new(frame_of(b"a\0b\n")).unwrap();
    let mut line: Option<Vec<u8>> = None;
    let mut line_len: usize = 0;
    assert_eq!(zstd_line_read(&mut reader, &mut line, &mut line_len), 0);
    assert_eq!(line, Some(b"a\0b\n".to_vec()));
    assert_eq!(line_len, 4);
}

#[test]
fn no_handle_where_the_decoder_could_not_be_set_up() {
    assert!(handle_of(Err(LineReadError::OpenError)).is_none());
    assert!(handle_of(Err(LineReadError::DecoderInitError)).is_none());
    assert!(handle_of(Err(LineReadError::ReadError)).is_none());
}

#[test]
fn handle_owns_the_reader_it_was_made_of() {
    let wrapper = DecoderWrapper::with_capacity(frame_of(b"ab\ncd"), 2).unwrap();
    let mut reader = handle_of(Ok(wrapper)).unwrap();
    let mut line: Option<Vec<u8>> = None;
    let mut line_len: usize = 0;
    assert_eq!(zstd_line_read(&mut reader, &mut line, &mut line_len), 0);
    assert_eq!(line, Some(b"ab\n".to_vec()));
    assert_eq!(line_len, 3);
    assert_eq!(zstd_line_read(&mut reader, &mut line, &mut line_len), 0);
    assert_eq!(line, Some(b"cd".to_vec()));
    assert_eq!(line_len, 2);
    assert_eq!(zstd_line_read(&mut reader, &mut line, &mut line_len), 0);
    assert_eq!(line, None);
}

#[test]
fn no_handle_for_bytes_that_are_no_frame() {
    assert!(zstd_line_read_new(b"not a frame at all".to_vec()).is_none());
    assert!(zstd_line_read_new(Vec::new()).is_none());
}

#[test]
fn handle_for_a_frame_with_empty_content_ends_at_once() {
    let mut reader = zstd_line_read_new(frame_of(b"")).unwrap();
    let mut line: Option<Vec<u8>> = Some(b"before".to_vec());
    let mut line_len: usize = 6;
    assert_eq!(zstd_line_read(&mut reader, &mut line, &mut line_len), 0);
    assert_eq!(line, None);
    assert_eq!(line_len, 0);
}
