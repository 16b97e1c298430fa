use vrypt::fmt::u64_to_dec;
use vrypt::http::{build_response, response_body, stats_message};

#[test]
fn decimal_rendering_exact_values() {
    assert_eq!(u64_to_dec(0), b"0".to_vec());
    assert_eq!(u64_to_dec(5), b"5".to_vec());
    assert_eq!(u64_to_dec(10), b"10".to_vec());
    assert_eq!(u64_to_dec(8080), b"8080".to_vec());
    assert_eq!(u64_to_dec(65535), b"65535".to_vec());
    assert_eq!(u64_to_dec(u64::MAX), b"18446744073709551615".to_vec());
}

#[test]
fn fixed_body_is_vrypt() {
    assert_eq!(response_body(), b"Vrypt".to_vec());
}

#[test]
fn response_bytes_exact() {
    let expected = b"HTTP/1.1 200 OK\r\n\
                     Content-Type: text/plain\r\n\
                     Content-Length: 5\r\n\
                     Connection: keep-alive\r\n\
                     \r\n\
                     Vrypt"
        .to_vec();
    assert_eq!(build_response(b"Vrypt"), expected);
}

#[test]
fn response_length_field_tracks_body() {
    let r = build_response(b"");
    let head = b"HTTP/1.1 200 OK\r\nContent-Type: text/plain\r\nContent-Length: 0\r\n";
    assert!(r.starts_with(head));
    assert!(r.ends_with(b"\r\n\r\n"));

    let body = vec![b'x'; 123];
    let r = build_response(&body);
    let s = String::from_utf8(r.clone()).unwrap();
    assert!(s.contains("Content-Length: 123\r\n"));
    assert!(r.ends_with(&body[..]));
}

#[test]
fn stats_message_is_statsd_gauge() {
    assert_eq!(stats_message(0), b"vrypt.rps:0|g".to_vec());
    assert_eq!(stats_message(10500), b"vrypt.rps:10500|g".to_vec());
    assert_eq!(
        stats_message(u64::MAX),
        b"vrypt.rps:18446744073709551615|g".to_vec()
    );
}
