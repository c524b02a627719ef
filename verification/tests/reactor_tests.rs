use tiny_reactor::conn::{ConnState, Interest};
use tiny_reactor::reactor::{Dispatch, Reactor, ReadStep, SENTINEL_KEY};

#[test]
fn fresh_reactor_has_only_the_sentinel_armed() {
    let r = Reactor::new();
    assert_eq!(r.connection_count(), 0);
    assert_eq!(r.registered_interest(SENTINEL_KEY), Some(Interest::Read));
    assert!(!r.contains_connection(SENTINEL_KEY));
}

#[test]
fn accept_assigns_fresh_monotonic_keys() {
    let mut r = Reactor::new();
    let k1 = r.accept_connection();
    let k2 = r.accept_connection();
    assert_eq!(k1, SENTINEL_KEY + 1);
    assert_eq!(k2, SENTINEL_KEY + 2);
    assert_ne!(k1, k2);
    assert!(r.contains_connection(k1));
    assert!(r.contains_connection(k2));
    assert_eq!(r.registered_interest(k1), Some(Interest::Read));
    assert_eq!(r.registered_interest(k2), Some(Interest::Read));
    // The listener's registration survives every accept.
    assert_eq!(r.registered_interest(SENTINEL_KEY), Some(Interest::Read));
    assert_eq!(r.connection_count(), 2);
}

#[test]
fn classify_routes_events() {
    let mut r = Reactor::new();
    let k = r.accept_connection();
    assert_eq!(r.classify(SENTINEL_KEY, true, false), Dispatch::AcceptNew);
    assert_eq!(r.classify(k, true, false), Dispatch::DoRead);
    assert_eq!(r.classify(k, true, true), Dispatch::DoRead);
    assert_eq!(r.classify(k, false, true), Dispatch::DoWrite);
    assert_eq!(r.classify(k, false, false), Dispatch::IgnoreMask);
    // A key that was never handed out, or already torn down, is stale.
    assert_eq!(r.classify(k + 1, true, false), Dispatch::IgnoreStale);
}

#[test]
fn read_step_rearms_for_read_until_complete() {
    let mut r = Reactor::new();
    let k = r.accept_connection();
    let step = r.handle_readable(k, b"POST / HTTP/1.1\r\ncontent-length: 64\r\n\r\n");
    assert_eq!(step, ReadStep::Rearmed(Interest::Read));
    assert_eq!(r.registered_interest(k), Some(Interest::Read));
    assert!(r.contains_connection(k));
}

#[test]
fn read_step_rearms_for_write_on_completion() {
    let mut r = Reactor::new();
    let k = r.accept_connection();
    let step = r.handle_readable(k, b"GET / HTTP/1.1\r\n\r\n");
    assert_eq!(step, ReadStep::Rearmed(Interest::Write));
    assert_eq!(r.registered_interest(k), Some(Interest::Write));
    assert!(r.contains_connection(k));
}

#[test]
fn read_step_abandons_on_malformed_header() {
    let mut r = Reactor::new();
    let k = r.accept_connection();
    let step = r.handle_readable(k, b"content-length: five\r\n");
    assert_eq!(step, ReadStep::Abandoned);
    // Gone from the registry and from the registration record at once.
    assert!(!r.contains_connection(k));
    assert_eq!(r.registered_interest(k), None);
    // The listener is untouched.
    assert_eq!(r.registered_interest(SENTINEL_KEY), Some(Interest::Read));
}

#[test]
fn stale_read_events_are_ignored() {
    let mut r = Reactor::new();
    let k = r.accept_connection();
    let step = r.handle_readable(k + 7, b"whatever");
    assert_eq!(step, ReadStep::Ignored);
    assert_eq!(r.connection_count(), 1);
    assert!(r.contains_connection(k));
}

#[test]
fn write_before_completion_is_ignored() {
    let mut r = Reactor::new();
    let k = r.accept_connection();
    // Still reading: a write event does nothing.
    assert!(r.handle_writable(k).is_none());
    assert!(r.contains_connection(k));
    assert_eq!(r.registered_interest(k), Some(Interest::Read));
}

#[test]
fn completed_connection_closes_and_leaves_no_trace() {
    let mut r = Reactor::new();
    let k = r.accept_connection();
    assert_eq!(
        r.handle_readable(k, b"GET / HTTP/1.1\r\n\r\n"),
        ReadStep::Rearmed(Interest::Write)
    );
    let out = r.handle_writable(k);
    let (resp, ctx) = out.expect("a completed connection must be served");
    assert_eq!(
        resp,
        b"HTTP/1.1 200 OK\ncontent-type: text/html\ncontent-length: 5\n\nHello".to_vec()
    );
    assert_eq!(ctx.state, ConnState::Closed);
    // Both absences, observed on one reactor state.
    assert!(!r.contains_connection(k));
    assert_eq!(r.registered_interest(k), None);
    assert_eq!(r.connection_count(), 0);
    // A late event for the closed key is stale.
    assert_eq!(r.classify(k, false, true), Dispatch::IgnoreStale);
    // The listener is still armed.
    assert_eq!(r.registered_interest(SENTINEL_KEY), Some(Interest::Read));
}

#[test]
fn abandon_drops_the_connection_only() {
    let mut r = Reactor::new();
    let k1 = r.accept_connection();
    let k2 = r.accept_connection();
    assert!(r.abandon(k1));
    assert!(!r.contains_connection(k1));
    assert_eq!(r.registered_interest(k1), None);
    assert!(r.contains_connection(k2));
    assert_eq!(r.registered_interest(k2), Some(Interest::Read));
    // Abandoning an unknown key reports that nothing was tracked.
    assert!(!r.abandon(k1));
    assert_eq!(r.registered_interest(SENTINEL_KEY), Some(Interest::Read));
}

#[test]
fn concurrent_connections_are_independent() {
    // Two clients in overlapping windows: each gets its own key and
    // context, and completing one leaves the other's buffer and length
    // counter alone.
    let mut r = Reactor::new();
    let k1 = r.accept_connection();
    let k2 = r.accept_connection();
    assert_ne!(k1, k2);

    assert_eq!(
        r.handle_readable(k1, b"GET / HTTP/1.1\r\n\r\n"),
        ReadStep::Rearmed(Interest::Write)
    );
    assert_eq!(
        r.handle_readable(k2, b"POST / HTTP/1.1\r\ncontent-length: 99\r\n\r\n"),
        ReadStep::Rearmed(Interest::Read)
    );

    let before = r.connections.get(&k2).unwrap().buf.clone();
    let out = r.handle_writable(k1);
    assert!(out.is_some());
    assert!(!r.contains_connection(k1));

    let survivor = r.connections.get(&k2).unwrap();
    assert_eq!(survivor.buf, before);
    assert_eq!(survivor.content_length, 99);
    assert_eq!(survivor.state, ConnState::Reading);
    assert_eq!(r.registered_interest(k2), Some(Interest::Read));
}

#[test]
fn full_request_cycle_over_two_fragments() {
    let mut r = Reactor::new();
    let k = r.accept_connection();
    let frag1: &[u8] = b"POST / HTTP/1.1\r\ncontent-length: 64\r\n\r\n";
    let frag2: &[u8] = b"abcdefghijklmnopqrstuvwxy";
    assert_eq!(r.handle_readable(k, frag1), ReadStep::Rearmed(Interest::Read));
    assert_eq!(r.handle_readable(k, frag2), ReadStep::Rearmed(Interest::Write));
    let (resp, ctx) = r.handle_writable(k).unwrap();
    assert_eq!(
        resp,
        b"HTTP/1.1 200 OK\ncontent-type: text/html\ncontent-length: 5\n\nHello".to_vec()
    );
    let mut expected = frag1.to_vec();
    expected.extend_from_slice(frag2);
    assert_eq!(ctx.buf, expected);
    assert_eq!(ctx.state, ConnState::Closed);
    assert!(!r.contains_connection(k));
}
