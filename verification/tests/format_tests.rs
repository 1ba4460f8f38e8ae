use error_message_format::format::format_message;
use error_message_format::format::i32_to_dec;
use error_message_format::format::replace_all;
use error_message_format::format::u32_to_dec;

fn fmt(template: &str, severity: i32, file: &str, line: u32, message: &str) -> Vec<u8> {
    format_message(
        template.as_bytes(),
        severity,
        file.as_bytes(),
        line,
        message.as_bytes(),
    )
}

#[test]
fn message_placeholder_with_append() {
    let out = fmt("{message} with an append", 2, "a.php", 3, "This is a test error");
    assert_eq!(out, b"This is a test error with an append".to_vec());
}

#[test]
fn all_four_placeholders() {
    let out = fmt("[{type}] {file}:{line} {message}", 2, "x.php", 5, "boom");
    assert_eq!(out, b"[2] x.php:5 boom".to_vec());
}

#[test]
fn empty_template_stays_empty() {
    let out = fmt("", 2, "a.php", 3, "This is a test error");
    assert_eq!(out, b"".to_vec());
}

#[test]
fn template_without_placeholders_is_unchanged() {
    let out = fmt("a plain note", 7, "f.php", 11, "ignored");
    assert_eq!(out, b"a plain note".to_vec());
}

#[test]
fn repeated_placeholders_all_substituted() {
    let out = fmt("{line} and {line}", 1, "f.php", 42, "m");
    assert_eq!(out, b"42 and 42".to_vec());
}

#[test]
fn unknown_placeholder_left_untouched() {
    let out = fmt("{severity} {message}", 3, "f.php", 1, "m");
    assert_eq!(out, b"{severity} m".to_vec());
}

#[test]
fn absent_file_renders_as_empty() {
    let out = fmt("{file}:{line}", 2, "", 9, "m");
    assert_eq!(out, b":9".to_vec());
}

#[test]
fn negative_severity_in_decimal() {
    let out = fmt("{type}", -5, "f.php", 1, "m");
    assert_eq!(out, b"-5".to_vec());
}

#[test]
fn substituted_message_is_rescanned_by_later_kinds() {
    // The message placeholder is substituted last, so a file name that
    // contains it is altered by the message pass.
    let out = fmt("{file}", 1, "{message}", 1, "inner");
    assert_eq!(out, b"inner".to_vec());
    // The reverse order does not rescan: a message containing a file
    // placeholder is kept verbatim.
    let out2 = fmt("{message}", 1, "f.php", 1, "keep {file} text");
    assert_eq!(out2, b"keep {file} text".to_vec());
}

#[test]
fn decimal_renderings() {
    assert_eq!(u32_to_dec(0), b"0".to_vec());
    assert_eq!(u32_to_dec(42), b"42".to_vec());
    assert_eq!(u32_to_dec(u32::MAX), b"4294967295".to_vec());
    assert_eq!(i32_to_dec(0), b"0".to_vec());
    assert_eq!(i32_to_dec(-1), b"-1".to_vec());
    assert_eq!(i32_to_dec(i32::MIN), b"-2147483648".to_vec());
    assert_eq!(i32_to_dec(i32::MAX), b"2147483647".to_vec());
}

#[test]
fn replace_all_left_to_right_non_overlapping() {
    assert_eq!(replace_all(b"ababab", b"ab", b"x"), b"xxx".to_vec());
    assert_eq!(replace_all(b"aaa", b"aa", b"b"), b"ba".to_vec());
}

#[test]
fn replacement_text_is_not_rescanned() {
    assert_eq!(replace_all(b"aa", b"a", b"ab"), b"abab".to_vec());
}

#[test]
fn replace_all_without_occurrences_copies() {
    assert_eq!(replace_all(b"hello", b"zz", b"y"), b"hello".to_vec());
}
