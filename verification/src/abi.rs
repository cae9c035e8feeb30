use vstd::prelude::*;

verus! {

/// The errors of the selector and of its system calls.
#[derive(Debug, Clone, Copy, PartialEq, Eq, Structural)]
pub enum SysError {
    /// A system call failed with this error number.
    Os(i32),
    /// The descriptor or the source is registered already.
    AlreadyExists,
    /// The descriptor is not registered.
    NotFound,
    /// The address family is not supported (PopugOS speaks IPv4 only).
    Unsupported,
}

/// One entry of the array that `poll(2)` reads and fills.
#[derive(Debug, Clone, Copy, PartialEq, Eq, Structural)]
pub struct PollFd {
    pub fd: i32,
    pub events: i16,
    pub revents: i16,
}

/// The `fcntl(2)` status flag that makes a descriptor non-blocking.
pub const O_NONBLOCK: u32 = 0x800;

/// Turns the raw return value of a system call into a result: a negative
/// value is the negated error number.
pub fn cvt(result: i32) -> (r: Result<i32, SysError>)
    requires
        result != i32::MIN,
    ensures
        result >= 0 ==> r == Ok::<i32, SysError>(result),
        result < 0 ==> r == Err::<i32, SysError>(SysError::Os(-result as i32)),
{
    if result < 0 {
        Err(SysError::Os(-result))
    } else {
        Ok(result)
    }
}

/// The status flags to set so that a descriptor whose flags are `flags`
/// becomes non-blocking and keeps every other flag.
pub fn nonblocking_flags(flags: i32) -> (r: u32)
    ensures
        r == (flags as u32) | O_NONBLOCK,
        r & O_NONBLOCK == O_NONBLOCK,
        r & !O_NONBLOCK == (flags as u32) & !O_NONBLOCK,
{
    let f = flags as u32;
    assert((f | O_NONBLOCK) & O_NONBLOCK == O_NONBLOCK) by (bit_vector);
    assert((f | O_NONBLOCK) & !O_NONBLOCK == f & !O_NONBLOCK) by (bit_vector);
    f | O_NONBLOCK
}

/// Nanoseconds in a second.
pub const NANOS_PER_SEC: u64 = 1_000_000_000;

/// Nanoseconds in a millisecond.
pub const NANOS_PER_MILLI: u64 = 1_000_000;

/// The length in nanoseconds of the duration of `secs` seconds and `nanos`
/// nanoseconds.
pub open spec fn duration_nanos(secs: u64, nanos: u32) -> int {
    secs * NANOS_PER_SEC + nanos
}

/// The length of a wait of `total` nanoseconds in whole milliseconds,
/// rounded up.
pub open spec fn ceil_millis(total: int) -> int {
    (total + (NANOS_PER_MILLI - 1)) / (NANOS_PER_MILLI as int)
}

/// The timeout in milliseconds that `poll(2)` is given for a wait of
/// `timeout` (seconds, nanoseconds): `-1` (wait forever) for none; otherwise
/// the wait rounded up to whole milliseconds, capped at `i32::MAX`.
pub open spec fn poll_timeout_ms_spec(timeout: Option<(u64, u32)>) -> int {
    match timeout {
        None => -1,
        Some((secs, nanos)) => {
            let ms = ceil_millis(duration_nanos(secs, nanos));
            if ms > i32::MAX {
                i32::MAX as int
            } else {
                ms
            }
        },
    }
}

/// The `poll(2)` timeout argument for a wait of `timeout`
/// (seconds, nanoseconds), or none to wait forever.
pub fn poll_timeout_ms(timeout: Option<(u64, u32)>) -> (r: i32)
    requires
        timeout matches Some((_, nanos)) ==> nanos < NANOS_PER_SEC,
    ensures
        r == poll_timeout_ms_spec(timeout),
{
    match timeout {
        None => -1,
        Some((secs, nanos)) => {
            assert(secs * NANOS_PER_SEC <= u64::MAX * NANOS_PER_SEC) by (nonlinear_arith);
            let total: u128 = secs as u128 * 1_000_000_000u128 + nanos as u128;
            let max: u128 = 18_446_744_073_709_551_615u128 * 1_000_000_000u128 + 999_999_999u128;
            // Rounding up is skipped where it would pass the longest
            // `Duration`; the wait is then far above the cap either way.
            let rounded: u128 = if total <= max - 999_999u128 {
                total + 999_999u128
            } else {
                total
            };
            assert(total == duration_nanos(secs, nanos));
            let millis: u128 = rounded / 1_000_000u128;
            if millis > 2_147_483_647u128 {
                i32::MAX
            } else {
                millis as i32
            }
        },
    }
}

/// A wait of some length never turns into a `poll(2)` timeout shorter than
/// itself, unless capped at `i32::MAX` milliseconds; below the cap it is the
/// shortest whole number of milliseconds that is not shorter, and a wait
/// longer than the cap gives the cap; a nonzero wait never turns into zero
/// (which would not wait at all); no wait at all means waiting forever.
pub proof fn law_timeout_rounds_up(secs: u64, nanos: u32)
    requires
        nanos < NANOS_PER_SEC,
    ensures
        ({
            let ms = poll_timeout_ms_spec(Some((secs, nanos)));
            let total = duration_nanos(secs, nanos);
            &&& 0 <= ms <= i32::MAX
            &&& ms == i32::MAX || ms * NANOS_PER_MILLI >= total
            &&& ms == i32::MAX || ms == 0 || (ms - 1) * NANOS_PER_MILLI < total
            &&& total > 0 ==> ms >= 1
            &&& total <= i32::MAX * NANOS_PER_MILLI ==> ms * NANOS_PER_MILLI >= total && (ms == 0
                || (ms - 1) * NANOS_PER_MILLI < total)
            &&& total > i32::MAX * NANOS_PER_MILLI ==> ms == i32::MAX
        }),
        poll_timeout_ms_spec(None) == -1,
{
    let total = duration_nanos(secs, nanos);
    assert(0 <= total) by (nonlinear_arith)
        requires
            total == secs * NANOS_PER_SEC + nanos,
            0 <= secs,
            0 <= nanos,
    ;
}

} // verus!
