use tiny_reactor::conn::{ConnError, ConnState, Interest, RequestContext, response_bytes};

#[test]
fn new_context_is_fresh() {
    let c = RequestContext::new();
    assert_eq!(c.content_length, 0);
    assert_eq!(c.buf, Vec::<u8>::new());
    assert_eq!(c.state, ConnState::Reading);
}

#[test]
fn bodyless_request_completes_on_first_read() {
    // A request with no length header is already complete: the very first
    // read moves the connection straight to its writing phase.
    let mut c = RequestContext::new();
    let r = c.on_readable(b"GET / HTTP/1.1\r\n\r\n");
    assert_eq!(r, Ok(Interest::Write));
    assert_eq!(c.state, ConnState::Writing);
    assert_eq!(c.content_length, 0);
    assert_eq!(c.buf, b"GET / HTTP/1.1\r\n\r\n".to_vec());
}

#[test]
fn empty_read_completes_bodyless_request() {
    let mut c = RequestContext::new();
    let r = c.on_readable(b"");
    assert_eq!(r, Ok(Interest::Write));
    assert_eq!(c.state, ConnState::Writing);
}

#[test]
fn split_request_stays_reading_until_length_is_met() {
    // The announced length must exceed the first fragment's byte count for
    // the connection to keep reading: the completion test compares the
    // whole accumulated buffer, header bytes included.
    let mut c = RequestContext::new();
    let frag1: &[u8] = b"POST / HTTP/1.1\r\ncontent-length: 64\r\n\r\n";
    assert!(frag1.len() < 64);
    let r1 = c.on_readable(frag1);
    assert_eq!(r1, Ok(Interest::Read));
    assert_eq!(c.state, ConnState::Reading);
    assert_eq!(c.content_length, 64);

    let frag2: &[u8] = b"abcdefghijklmnopqrstuvwxy";
    assert!(frag1.len() + frag2.len() >= 64);
    let r2 = c.on_readable(frag2);
    assert_eq!(r2, Ok(Interest::Write));
    assert_eq!(c.state, ConnState::Writing);
    let mut expected = frag1.to_vec();
    expected.extend_from_slice(frag2);
    assert_eq!(c.buf, expected);
}

#[test]
fn completion_counts_all_accumulated_bytes() {
    // A fragment that itself carries the header already outweighs a small
    // announced length, so the connection completes at once.
    let mut c = RequestContext::new();
    let r = c.on_readable(b"POST / HTTP/1.1\r\ncontent-length: 5\r\n\r\n");
    assert_eq!(r, Ok(Interest::Write));
    assert_eq!(c.state, ConnState::Writing);
    assert_eq!(c.content_length, 5);
}

#[test]
fn length_is_immutable_once_set() {
    let mut c = RequestContext::new();
    let r1 = c.on_readable(b"content-length: 100\r\n");
    assert_eq!(r1, Ok(Interest::Read));
    assert_eq!(c.content_length, 100);
    // A second announcement changes nothing.
    let r2 = c.on_readable(b"content-length: 9\r\n");
    assert_eq!(r2, Ok(Interest::Read));
    assert_eq!(c.content_length, 100);
    // Even a malformed field is no longer this connection's concern.
    let r3 = c.on_readable(b"content-length: zz\r\n");
    assert_eq!(r3, Ok(Interest::Read));
    assert_eq!(c.content_length, 100);
}

#[test]
fn malformed_length_is_a_connection_error() {
    let mut c = RequestContext::new();
    let r = c.on_readable(b"POST / HTTP/1.1\r\ncontent-length: five\r\n\r\n");
    assert_eq!(r, Err(ConnError::MalformedLength));
    // Nothing changed: the caller abandons the connection.
    assert_eq!(c.state, ConnState::Reading);
    assert_eq!(c.buf, Vec::<u8>::new());
    assert_eq!(c.content_length, 0);
}

#[test]
fn parse_and_set_content_length_scans_one_chunk() {
    let mut c = RequestContext::new();
    assert_eq!(c.parse_and_set_content_length(b"content-length: 12\r\n"), Ok(()));
    assert_eq!(c.content_length, 12);
    let mut d = RequestContext::new();
    assert_eq!(d.parse_and_set_content_length(b"no header here"), Ok(()));
    assert_eq!(d.content_length, 0);
    let mut e = RequestContext::new();
    assert_eq!(
        e.parse_and_set_content_length(b"content-length: ?\r\n"),
        Err(ConnError::MalformedLength)
    );
    assert_eq!(e.content_length, 0);
}

#[test]
fn on_writable_closes_and_hands_out_the_response() {
    let mut c = RequestContext::new();
    assert_eq!(c.on_readable(b"GET / HTTP/1.1\r\n\r\n"), Ok(Interest::Write));
    let resp = c.on_writable();
    assert_eq!(c.state, ConnState::Closed);
    assert_eq!(
        resp,
        b"HTTP/1.1 200 OK\ncontent-type: text/html\ncontent-length: 5\n\nHello".to_vec()
    );
}

#[test]
fn response_payload_is_the_fixed_literal() {
    let resp = response_bytes();
    assert_eq!(
        resp,
        b"HTTP/1.1 200 OK\ncontent-type: text/html\ncontent-length: 5\n\nHello".to_vec()
    );
    // The advertised body is exactly the five bytes of "Hello".
    let body_start = resp.windows(2).position(|w| w == b"\n\n").unwrap() + 2;
    assert_eq!(&resp[body_start..], b"Hello");
}
