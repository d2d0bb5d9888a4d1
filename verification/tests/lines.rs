use cf_app_log_detector::{decode_line, parse_line, parse_stripped, CfAppLogDetector, LineError};

#[test]
fn parse_line_tells_log_lines_from_others() {
    assert_eq!(
        parse_line("2021-09-28T17:00:09.36+0900 [RTR/0] OUT"),
        Ok(true)
    );
    assert_eq!(parse_line("hello world"), Ok(false));
    assert_eq!(parse_line(""), Ok(false));
    assert_eq!(
        CfAppLogDetector::parse_line("2021-09-28T17:00:09.36+0900 [RTR/0] OUT"),
        Ok(true)
    );
    assert_eq!(CfAppLogDetector::parse_line("hello world"), Ok(false));
}

#[test]
fn parse_line_takes_escape_sequences_out_first() {
    let colored = "\u{1b}[32m2021-09-28T17:00:09.36+0900\u{1b}[m [RTR/0] OUT \u{1b}[1mbold\u{1b}[0m";
    assert_eq!(parse_line(colored), Ok(true));
    assert_eq!(
        parse_line("\u{1b}[31m[RTR/0] OUT\u{1b}[m"),
        Ok(false)
    );
}

#[test]
fn parse_line_keeps_text_that_is_not_ascii() {
    assert_eq!(
        parse_line("2021-09-28T17:00:09.36+0900 [APP/PROC/WEB/0] ERR größer — 日本語"),
        Ok(true)
    );
}

#[test]
fn parse_stripped_reads_bytes_as_text() {
    assert_eq!(
        parse_stripped(b"2021-09-28T17:00:09.36+0900 [RTR/0] OUT".to_vec()),
        Ok(true)
    );
    assert_eq!(parse_stripped(b"no log line".to_vec()), Ok(false));
    assert_eq!(parse_stripped(Vec::new()), Ok(false));
    assert_eq!(
        parse_stripped(b"\x1b[32m2021-09-28T17:00:09.36+0900 [RTR/0] OUT".to_vec()),
        Ok(false)
    );
}

#[test]
fn bytes_that_are_no_text_are_an_encoding_error() {
    assert_eq!(parse_stripped(vec![0xff, 0xfe]), Err(LineError::Encoding));
    assert_eq!(
        parse_stripped(b"2021-09-28T17:00:09.36+0900 [RTR/0] OUT \xc3".to_vec()),
        Err(LineError::Encoding)
    );
    assert_eq!(decode_line(vec![0xc3, 0x28]), Err(LineError::Encoding));
    assert_eq!(decode_line(vec![0xed, 0xa0, 0x80]), Err(LineError::Encoding));
}

#[test]
fn decode_line_gives_the_text_of_the_bytes() {
    assert_eq!(decode_line(Vec::new()), Ok(String::new()));
    assert_eq!(decode_line(b"abc".to_vec()), Ok("abc".to_string()));
    assert_eq!(
        decode_line("größer — 日本語 🦀".as_bytes().to_vec()),
        Ok("größer — 日本語 🦀".to_string())
    );
}
