use vrypt::args::{parse_port, select_port};
use vrypt::config::DEFAULT_PORT;

fn args(list: &[&str]) -> Vec<Vec<u8>> {
    list.iter().map(|s| s.as_bytes().to_vec()).collect()
}

#[test]
fn parse_port_accepts_valid_decimals() {
    assert_eq!(parse_port(b"0"), Some(0));
    assert_eq!(parse_port(b"80"), Some(80));
    assert_eq!(parse_port(b"8080"), Some(8080));
    assert_eq!(parse_port(b"65535"), Some(65535));
    assert_eq!(parse_port(b"+9000"), Some(9000), "a leading plus is allowed");
    assert_eq!(parse_port(b"000080"), Some(80), "leading zeroes are fine");
}

#[test]
fn parse_port_rejects_everything_else() {
    assert_eq!(parse_port(b""), None);
    assert_eq!(parse_port(b"+"), None, "a sign alone has no digits");
    assert_eq!(parse_port(b"++80"), None);
    assert_eq!(parse_port(b"-80"), None);
    assert_eq!(parse_port(b" 80"), None);
    assert_eq!(parse_port(b"80 "), None);
    assert_eq!(parse_port(b"80a"), None);
    assert_eq!(parse_port(b"8_0"), None);
    assert_eq!(parse_port(b"65536"), None, "one past the largest port");
    assert_eq!(parse_port(b"999999999999999999999999"), None);
}

#[test]
fn select_port_forms() {
    assert_eq!(select_port(&args(&[])), (DEFAULT_PORT, false));
    assert_eq!(select_port(&args(&["9000"])), (9000, false));
    assert_eq!(select_port(&args(&["-p", "9000"])), (9000, false));
    assert_eq!(select_port(&args(&["--port", "9001"])), (9001, false));
}

#[test]
fn select_port_falls_back_with_warning() {
    assert_eq!(select_port(&args(&["abc"])), (DEFAULT_PORT, true));
    assert_eq!(select_port(&args(&["-p", "abc"])), (DEFAULT_PORT, true));
    assert_eq!(select_port(&args(&["-p"])), (DEFAULT_PORT, true), "missing value");
    assert_eq!(select_port(&args(&["--port", "65536"])), (DEFAULT_PORT, true));
}
