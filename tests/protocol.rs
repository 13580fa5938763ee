use primetime::connection::Connection;
use primetime::request::{handle_line, reply_to_members, Reply};

const TRUE_LINE: &[u8] = b"{\"method\":\"isPrime\",\"prime\":true}\n";
const FALSE_LINE: &[u8] = b"{\"method\":\"isPrime\",\"prime\":false}\n";

#[test]
fn test_handle_connection() {
    let mut conn = Connection::new();
    let mut response = conn.receive(b"{\"method\":\"isPrime\",\"number\":123}");
    response.extend(conn.finish());
    assert_eq!(&response, b"{\"method\":\"isPrime\",\"prime\":false}\n");
}

#[test]
fn test_handle_malformed() {
    let mut conn = Connection::new();
    let mut response = conn.receive(b"{\"method\":\"is\",\"number\":123}");
    response.extend(conn.finish());
    assert_eq!(&response, b"Malformed Request");
}

#[test]
fn composite_request_scenario() {
    assert_eq!(handle_line(b"{\"method\":\"isPrime\",\"number\":123}\n"), Reply::Response(false));
    let mut conn = Connection::new();
    assert_eq!(conn.receive(b"{\"method\":\"isPrime\",\"number\":123}\n"), FALSE_LINE);
    assert!(conn.is_open());
}

#[test]
fn prime_request_scenario() {
    assert_eq!(handle_line(b"{\"method\":\"isPrime\",\"number\":7}\n"), Reply::Response(true));
    let mut conn = Connection::new();
    assert_eq!(conn.receive(b"{\"method\":\"isPrime\",\"number\":7}\n"), TRUE_LINE);
}

#[test]
fn fractional_number_is_answered() {
    assert_eq!(handle_line(b"{\"method\":\"isPrime\",\"number\":4.5}\n"), Reply::Response(false));
    assert_eq!(handle_line(b"{\"method\":\"isPrime\",\"number\":7.0}\n"), Reply::Response(true));
    assert_eq!(handle_line(b"{\"method\":\"isPrime\",\"number\":-7}\n"), Reply::Response(false));
    assert_eq!(handle_line(b"{\"method\":\"isPrime\",\"number\":1e400}\n"), Reply::Response(false));
}

#[test]
fn large_number_keeps_its_precision() {
    // 2^64 + 1 is composite; 2^64 + 13 would be rounded to 2^64 by a float
    assert_eq!(
        handle_line(b"{\"method\":\"isPrime\",\"number\":18446744073709551617}\n"),
        Reply::Response(false)
    );
}

#[test]
fn extra_fields_are_ignored() {
    assert_eq!(
        handle_line(b"{\"extra\":[1,2],\"number\":13,\"method\":\"isPrime\"}\n"),
        Reply::Response(true)
    );
}

#[test]
fn bad_method_is_malformed() {
    assert_eq!(handle_line(b"{\"number\":7}\n"), Reply::Malformed);
    assert_eq!(handle_line(b"{\"method\":\"isPime\",\"number\":7}\n"), Reply::Malformed);
    assert_eq!(handle_line(b"{\"method\":7,\"number\":7}\n"), Reply::Malformed);
    assert_eq!(handle_line(b"not json\n"), Reply::Malformed);
    assert_eq!(handle_line(b"[\"isPrime\",7]\n"), Reply::Malformed);
    assert_eq!(handle_line(b"\n"), Reply::Malformed);
}

#[test]
fn bad_number_is_malformed() {
    assert_eq!(handle_line(b"{\"method\":\"isPrime\"}\n"), Reply::Malformed);
    assert_eq!(handle_line(b"{\"method\":\"isPrime\",\"number\":\"abc\"}\n"), Reply::Malformed);
    assert_eq!(handle_line(b"{\"method\":\"isPrime\",\"number\":\"7\"}\n"), Reply::Malformed);
    assert_eq!(handle_line(b"{\"method\":\"isPrime\",\"number\":null}\n"), Reply::Malformed);
    assert_eq!(handle_line(b"{\"method\":\"isPrime\",\"number\":true}\n"), Reply::Malformed);
    assert_eq!(handle_line(b"{\"method\":\"isPrime\",\"number\":[7]}\n"), Reply::Malformed);
}

#[test]
fn member_texts_decide_the_reply() {
    assert_eq!(reply_to_members("\"isPrime\"", "97"), Reply::Response(true));
    assert_eq!(reply_to_members("\"isPrime\"", "1.5"), Reply::Response(false));
    assert_eq!(reply_to_members("isPrime", "97"), Reply::Malformed);
    assert_eq!(reply_to_members("\"isPrime\"", "\"97\""), Reply::Malformed);
    assert_eq!(reply_to_members("\"isPrime\"", ""), Reply::Malformed);
}

#[test]
fn same_request_twice() {
    let mut conn = Connection::new();
    let line = b"{\"method\":\"isPrime\",\"number\":97}\n";
    let mut both = line.to_vec();
    both.extend_from_slice(line);
    let out = conn.receive(&both);
    let mut expected = TRUE_LINE.to_vec();
    expected.extend_from_slice(TRUE_LINE);
    assert_eq!(out, expected);
    assert!(conn.is_open());
}

#[test]
fn malformed_ends_the_connection() {
    for bad in [
        &b"{\"number\":7}\n"[..],
        &b"{\"method\":\"isPime\",\"number\":7}\n"[..],
        &b"garbage\n"[..],
    ] {
        let mut conn = Connection::new();
        let mut data = bad.to_vec();
        data.extend_from_slice(b"{\"method\":\"isPrime\",\"number\":7}\n");
        assert_eq!(conn.receive(&data), b"Malformed Request");
        assert!(!conn.is_open());
        assert_eq!(conn.receive(b"{\"method\":\"isPrime\",\"number\":7}\n"), b"");
        assert_eq!(conn.finish(), b"");
    }
}

#[test]
fn lines_split_across_reads() {
    let mut conn = Connection::new();
    assert_eq!(conn.receive(b"{\"method\":\"isP"), b"");
    assert_eq!(conn.receive(b"rime\",\"number\":"), b"");
    assert_eq!(conn.receive(b"11}\n{\"method\""), TRUE_LINE);
    assert_eq!(conn.receive(b":\"isPrime\",\"number\":12}\n"), FALSE_LINE);
    assert_eq!(conn.finish(), b"");
}

#[test]
fn long_line_is_not_truncated() {
    let mut conn = Connection::new();
    let mut line = b"{\"method\":\"isPrime\",\"pad\":\"".to_vec();
    line.extend(std::iter::repeat(b'x').take(5000));
    line.extend_from_slice(b"\",\"number\":13}\n");
    assert_eq!(conn.receive(&line), TRUE_LINE);
}

#[test]
fn connections_do_not_share_state() {
    let mut a = Connection::new();
    let mut b = Connection::new();
    assert_eq!(a.receive(b"{\"method\":\"isPrime\",\"num"), b"");
    assert_eq!(b.receive(b"{\"method\":\"isPrime\",\"number\":4}"), b"");
    assert_eq!(a.receive(b"ber\":5}\n"), TRUE_LINE);
    assert_eq!(b.receive(b"\n"), FALSE_LINE);
    assert_eq!(b.receive(b"oops\n"), b"Malformed Request");
    assert_eq!(a.receive(b"{\"method\":\"isPrime\",\"number\":9}\n"), FALSE_LINE);
    assert!(a.is_open());
    assert!(!b.is_open());
}

#[test]
fn response_round_trip() {
    for prime in [true, false] {
        let bytes = Reply::Response(prime).to_bytes();
        assert_eq!(bytes.last(), Some(&b'\n'));
        let v: serde_json::Value = serde_json::from_slice(&bytes).unwrap();
        assert_eq!(v["method"], "isPrime");
        assert_eq!(v["prime"], prime);
        assert_eq!(v.as_object().unwrap().len(), 2);
    }
}

#[test]
fn malformed_signal_bytes() {
    assert_eq!(Reply::Malformed.to_bytes(), b"Malformed Request");
}
