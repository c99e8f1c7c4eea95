use escape_resolver::ascii_to_hex;
use escape_resolver::char_to_escape_sequence;
use escape_resolver::is_complex_escape;
use escape_resolver::is_simple_escape;

#[test]
fn lib_test_escape_n() {
    assert_eq!('\n', char_to_escape_sequence('n'));
    assert!(is_simple_escape('n'));
}

#[test]
fn lib_test_escape_t() {
    assert_eq!('\t', char_to_escape_sequence('t'));
    assert!(is_simple_escape('t'));
}

#[test]
fn lib_test_escape_r() {
    assert_eq!('\r', char_to_escape_sequence('r'));
    assert!(is_simple_escape('r'));
}

#[test]
fn lib_test_escape_backslash() {
    assert_eq!('\\', char_to_escape_sequence('\\'));
    assert!(is_simple_escape('\\'));
}

#[test]
fn lib_test_escape_0() {
    assert_eq!('\0', char_to_escape_sequence('0'));
    assert!(is_simple_escape('0'));
}

#[test]
fn test_esacpe_x() {
    assert_eq!('\x7f', char_to_escape_sequence(0x7f as char));
}

#[test]
fn complex_escape_letters() {
    assert!(is_complex_escape('x'));
    assert!(is_complex_escape('u'));
    assert!(!is_complex_escape('n'));
    assert!(!is_complex_escape('\\'));
}

#[test]
fn hex_digit_values() {
    assert_eq!(0, ascii_to_hex(b'0'));
    assert_eq!(9, ascii_to_hex(b'9'));
    assert_eq!(10, ascii_to_hex(b'a'));
    assert_eq!(10, ascii_to_hex(b'A'));
    assert_eq!(15, ascii_to_hex(b'f'));
    assert_eq!(15, ascii_to_hex(b'F'));
}
