use mio_popugos::event::{
    debug_details, debug_details_alternate, is_aio, is_error, is_lio, is_priority, is_read_closed, is_readable,
    is_writable, is_write_closed, token, Event, POLLERR, POLLHUP, POLLIN, POLLNVAL, POLLOUT,
    POLLPRI,
};
use mio_popugos::token::Token;

#[derive(Debug)]
#[allow(non_camel_case_types, dead_code)]
struct poll_event {
    token: Token,
    events: i16,
}

fn ev(events: i16) -> Event {
    Event { token: Token(7), events }
}

#[test]
fn token_is_the_events_token() {
    assert_eq!(token(&Event { token: Token(42), events: 0 }), Token(42));
}

#[test]
fn readable_on_in_or_pri() {
    assert!(is_readable(&ev(POLLIN)));
    assert!(is_readable(&ev(POLLPRI)));
    assert!(!is_readable(&ev(POLLOUT | POLLHUP)));
}

#[test]
fn writable_on_out_only() {
    assert!(is_writable(&ev(POLLOUT)));
    assert!(!is_writable(&ev(POLLIN | POLLERR)));
}

#[test]
fn error_on_err_or_nval() {
    assert!(is_error(&ev(POLLERR)));
    assert!(is_error(&ev(POLLNVAL)));
    assert!(!is_error(&ev(POLLHUP | POLLIN)));
}

#[test]
fn read_closed_on_hup() {
    assert!(is_read_closed(&ev(POLLHUP)));
    assert!(!is_read_closed(&ev(POLLERR)));
}

#[test]
fn write_closed_on_hup_or_out_with_err() {
    assert!(is_write_closed(&ev(POLLHUP)));
    assert!(is_write_closed(&ev(POLLOUT | POLLERR)));
    assert!(!is_write_closed(&ev(POLLOUT)));
    assert!(!is_write_closed(&ev(POLLERR)));
}

#[test]
fn priority_on_pri_only() {
    assert!(is_priority(&ev(POLLPRI)));
    assert!(!is_priority(&ev(POLLIN)));
}

#[test]
fn never_aio_or_lio() {
    assert!(!is_aio(&ev(-1)));
    assert!(!is_lio(&ev(-1)));
}

#[test]
fn debug_details_names_token_and_bits() {
    assert_eq!(
        debug_details(&Event { token: Token(5), events: 17 }),
        "poll_event { token: Token(5), events: 17 }"
    );
    assert_eq!(
        debug_details(&Event { token: Token(0), events: -32768 }),
        "poll_event { token: Token(0), events: -32768 }"
    );
}

#[test]
fn debug_details_matches_derived_debug_form() {
    for (t, e) in [(0usize, 0i16), (9, 9), (10, 10), (1234567, -1), (usize::MAX, i16::MAX)] {
        let expected = format!("{:?}", poll_event { token: Token(t), events: e });
        assert_eq!(debug_details(&Event { token: Token(t), events: e }), expected);
    }
}

#[test]
fn debug_details_alternate_matches_derived_pretty_form() {
    for (t, e) in [(5usize, 17i16), (0, -32768), (123, 0)] {
        let expected = format!("{:#?}", poll_event { token: Token(t), events: e });
        assert_eq!(debug_details_alternate(&Event { token: Token(t), events: e }), expected);
    }
}
