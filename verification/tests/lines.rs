use zstd_line_reader::{take_line, DELIMITER};

#[test]
fn delimiter_is_line_feed() {
    assert_eq!(DELIMITER, 0x0A);
    assert_eq!(DELIMITER, b'\n');
}

#[test]
fn take_line_stops_after_first_delimiter() {
    let mut line = Vec::new();
    let (taken, complete) = take_line(b"ABCDE\n\n1\n", &mut line);
    assert_eq!(taken, 6);
    assert!(complete);
    assert_eq!(line, b"ABCDE\n");
}

#[test]
fn take_line_takes_whole_window_without_delimiter() {
    let mut line = Vec::new();
    let (taken, complete) = take_line(b"no end here", &mut line);
    assert_eq!(taken, 11);
    assert!(!complete);
    assert_eq!(line, b"no end here");
}

#[test]
fn take_line_on_empty_window_takes_nothing() {
    let mut line = b"kept".to_vec();
    let (taken, complete) = take_line(b"", &mut line);
    assert_eq!(taken, 0);
    assert!(!complete);
    assert_eq!(line, b"kept");
}

#[test]
fn take_line_with_delimiter_first_gives_one_byte() {
    let mut line = Vec::new();
    let (taken, complete) = take_line(b"\nrest\n", &mut line);
    assert_eq!(taken, 1);
    assert!(complete);
    assert_eq!(line, b"\n");
}

#[test]
fn take_line_appends_to_what_the_line_holds() {
    let mut line = b"The Hap".to_vec();
    let (taken, complete) = take_line(b"pening\nABCDE\n", &mut line);
    assert_eq!(taken, 7);
    assert!(complete);
    assert_eq!(line, b"The Happening\n");
}

#[test]
fn take_line_over_two_windows_joins_a_split_line() {
    let mut line = Vec::new();
    let (first, done_first) = take_line(b"Ti", &mut line);
    assert_eq!((first, done_first), (2, false));
    let (second, done_second) = take_line(b"ti\n", &mut line);
    assert_eq!((second, done_second), (3, true));
    assert_eq!(line, b"Titi\n");
}

#[test]
fn take_line_ignores_carriage_return_and_nul() {
    let mut line = Vec::new();
    let (taken, complete) = take_line(b"a\r\0b\r\nc", &mut line);
    assert_eq!(taken, 6);
    assert!(complete);
    assert_eq!(line, b"a\r\0b\r\n");
}

#[test]
fn take_line_delimiter_at_end_of_window() {
    let mut line = Vec::new();
    let (taken, complete) = take_line(b"1\n", &mut line);
    assert_eq!(taken, 2);
    assert!(complete);
    assert_eq!(line, b"1\n");
}
