use vstd::prelude::*;

use crate::text::{decimal, push_decimal, push_signed_decimal, signed_decimal};
use crate::token::Token;

verus! {

/// `poll(2)` bit: there is data to read.
pub const POLLIN: i16 = 0x001;

/// `poll(2)` bit: there is urgent (out-of-band) data to read.
pub const POLLPRI: i16 = 0x002;

/// `poll(2)` bit: writing is now possible.
pub const POLLOUT: i16 = 0x004;

/// `poll(2)` bit: an error condition.
pub const POLLERR: i16 = 0x008;

/// `poll(2)` bit: the peer hung up.
pub const POLLHUP: i16 = 0x010;

/// `poll(2)` bit: the descriptor is not open.
pub const POLLNVAL: i16 = 0x020;

/// Whether the poll bit `flag` is set in `events`.
pub open spec fn flag_set(events: i16, flag: i16) -> bool {
    events & flag == flag
}

/// A readiness event: the token of the source and the `poll(2)` bits that the
/// kernel reported for it.
#[derive(Debug, Clone)]
pub struct Event {
    pub token: Token,
    pub events: i16,
}

/// The token of the source that the event is about.
pub fn token(event: &Event) -> (r: Token)
    ensures
        r == event.token,
{
    event.token
}

/// Readable: normal or urgent data is available.
pub fn is_readable(event: &Event) -> (r: bool)
    ensures
        r == (flag_set(event.events, POLLIN) || flag_set(event.events, POLLPRI)),
{
    let e = event.events;
    assert((e & (POLLIN | POLLPRI) != 0) == (e & POLLIN == POLLIN || e & POLLPRI == POLLPRI))
        by (bit_vector);
    e & (POLLIN | POLLPRI) != 0
}

/// Writable: writing will not block.
pub fn is_writable(event: &Event) -> (r: bool)
    ensures
        r == flag_set(event.events, POLLOUT),
{
    let e = event.events;
    assert((e & POLLOUT != 0) == (e & POLLOUT == POLLOUT)) by (bit_vector);
    e & POLLOUT != 0
}

/// Error: an error condition, or the descriptor is not open.
pub fn is_error(event: &Event) -> (r: bool)
    ensures
        r == (flag_set(event.events, POLLERR) || flag_set(event.events, POLLNVAL)),
{
    let e = event.events;
    assert((e & (POLLERR | POLLNVAL) != 0) == (e & POLLERR == POLLERR || e & POLLNVAL
        == POLLNVAL)) by (bit_vector);
    e & (POLLERR | POLLNVAL) != 0
}

/// Read side closed: the peer hung up.
pub fn is_read_closed(event: &Event) -> (r: bool)
    ensures
        r == flag_set(event.events, POLLHUP),
{
    let e = event.events;
    assert((e & POLLHUP != 0) == (e & POLLHUP == POLLHUP)) by (bit_vector);
    e & POLLHUP != 0
}

/// Write side closed: the peer hung up, or the descriptor is writable and in
/// error at once.
pub fn is_write_closed(event: &Event) -> (r: bool)
    ensures
        r == (flag_set(event.events, POLLHUP) || (flag_set(event.events, POLLOUT) && flag_set(
            event.events,
            POLLERR,
        ))),
{
    let e = event.events;
    assert((e & POLLHUP != 0) == (e & POLLHUP == POLLHUP)) by (bit_vector);
    assert((e & (POLLOUT | POLLERR) == (POLLOUT | POLLERR)) == (e & POLLOUT == POLLOUT && e
        & POLLERR == POLLERR)) by (bit_vector);
    e & POLLHUP != 0 || e & (POLLOUT | POLLERR) == (POLLOUT | POLLERR)
}

/// Priority: urgent data is available.
pub fn is_priority(event: &Event) -> (r: bool)
    ensures
        r == flag_set(event.events, POLLPRI),
{
    let e = event.events;
    assert((e & POLLPRI != 0) == (e & POLLPRI == POLLPRI)) by (bit_vector);
    e & POLLPRI != 0
}

/// `poll(2)` reports no asynchronous I/O completion.
pub fn is_aio(event: &Event) -> (r: bool)
    ensures
        !r,
{
    false
}

/// `poll(2)` reports no list I/O completion.
pub fn is_lio(event: &Event) -> (r: bool)
    ensures
        !r,
{
    false
}

/// The text that `debug_details` gives for an event: the form that
/// `#[derive(Debug)]` prints for a struct named `poll_event` with the fields
/// `token` and `events`.
pub open spec fn debug_text(event: Event) -> Seq<char> {
    "poll_event { token: Token("@ + decimal(event.token.0 as nat) + "), events: "@
        + signed_decimal(event.events as int) + " }"@
}

/// The debug description of an event, naming its token and its raw poll bits.
pub fn debug_details(event: &Event) -> (r: String)
    ensures
        r@ == debug_text(*event),
{
    let mut s = String::new();
    s.append("poll_event { token: Token(");
    push_decimal(&mut s, event.token.0 as u64);
    s.append("), events: ");
    push_signed_decimal(&mut s, event.events as i64);
    s.append(" }");
    assert(s@ =~= debug_text(*event));
    s
}

/// The text that `debug_details_alternate` gives for an event: the
/// alternate (`{:#?}`) form that `#[derive(Debug)]` prints for a struct named
/// `poll_event` with the fields `token` and `events`.
pub open spec fn debug_text_alternate(event: Event) -> Seq<char> {
    "poll_event {\n    token: Token(\n        "@ + decimal(event.token.0 as nat)
        + ",\n    ),\n    events: "@ + signed_decimal(event.events as int) + ",\n}"@
}

/// The debug description of an event in the alternate (multi-line) form.
pub fn debug_details_alternate(event: &Event) -> (r: String)
    ensures
        r@ == debug_text_alternate(*event),
{
    let mut s = String::new();
    s.append("poll_event {\n    token: Token(\n        ");
    push_decimal(&mut s, event.token.0 as u64);
    s.append(",\n    ),\n    events: ");
    push_signed_decimal(&mut s, event.events as i64);
    s.append(",\n}");
    assert(s@ =~= debug_text_alternate(*event));
    s
}

} // verus!
