use std::time::Duration;

use mio_popugos::abi::{cvt, nonblocking_flags, poll_timeout_ms, SysError, O_NONBLOCK};
use mio_popugos::net::{
    connect_result, new_for_addr, with_address, SockAddrIn, SocketAddress, AF_INET, EINPROGRESS,
    IPPROTO_TCP, SOCK_STREAM,
};

#[test]
fn cvt_splits_success_and_errno() {
    assert_eq!(cvt(0), Ok(0));
    assert_eq!(cvt(17), Ok(17));
    assert_eq!(cvt(-11), Err(SysError::Os(11)));
    assert_eq!(cvt(i32::MIN + 1), Err(SysError::Os(i32::MAX)));
}

#[test]
fn nonblocking_flag_is_added_and_others_kept() {
    assert_eq!(nonblocking_flags(0), O_NONBLOCK);
    assert_eq!(nonblocking_flags(0x802), 0x802);
    assert_eq!(nonblocking_flags(0x3), 0x803);
}

#[test]
fn timeout_rounds_up_to_milliseconds() {
    assert_eq!(poll_timeout_ms(None), -1);
    assert_eq!(poll_timeout_ms(Some((0, 0))), 0);
    assert_eq!(poll_timeout_ms(Some((0, 1))), 1);
    assert_eq!(poll_timeout_ms(Some((0, 1_000_000))), 1);
    assert_eq!(poll_timeout_ms(Some((0, 1_000_001))), 2);
    assert_eq!(poll_timeout_ms(Some((3, 999_999_999))), 4000);
}

#[test]
fn timeout_is_capped() {
    assert_eq!(poll_timeout_ms(Some((2_147_483, 647_000_000))), i32::MAX);
    assert_eq!(poll_timeout_ms(Some((2_147_483, 646_000_001))), i32::MAX);
    assert_eq!(poll_timeout_ms(Some((2_147_483, 646_000_000))), i32::MAX - 1);
    assert_eq!(poll_timeout_ms(Some((u64::MAX, 999_999_999))), i32::MAX);
}

#[test]
fn timeout_matches_std_duration() {
    for (s, n) in [(0u64, 0u32), (0, 999_999), (1, 1), (12, 345_678_901), (u64::MAX, 999_000_001)] {
        let d = Duration::new(s, n);
        let rounded = d.checked_add(Duration::from_nanos(999_999)).unwrap_or(d).as_millis();
        let expected = std::cmp::min(rounded, i32::MAX as u128) as i32;
        assert_eq!(poll_timeout_ms(Some((s, n))), expected);
    }
}

#[test]
fn sockaddr_is_in_network_order() {
    let raw: SockAddrIn = SockAddrIn::new([10, 0, 2, 2], 8080);
    assert_eq!(raw.family, 2);
    assert_eq!(raw.port, [0x1f, 0x90]);
    assert_eq!(raw.address, 0x0a00_0202);
    assert_eq!(raw.zero, [0; 8]);
    assert_eq!(u16::from_ne_bytes(raw.port), 8080u16.to_be());
    assert_eq!(raw.address, u32::from_be_bytes([10, 0, 2, 2]));
}

#[test]
fn ipv6_is_unsupported() {
    assert!(matches!(with_address(SocketAddress::V6), Err(SysError::Unsupported)));
    assert_eq!(new_for_addr(SocketAddress::V6), Err(SysError::Unsupported));
    let v4 = SocketAddress::V4 { ip: [127, 0, 0, 1], port: 80 };
    assert_eq!(new_for_addr(v4), Ok((AF_INET, SOCK_STREAM, IPPROTO_TCP)));
    let raw = with_address(v4).unwrap();
    assert_eq!((raw.family, raw.port, raw.address), (2, [0, 80], 0x7f00_0001));
}

#[test]
fn connect_in_progress_is_success() {
    assert_eq!(connect_result(Err(SysError::Os(EINPROGRESS))), Ok(()));
    assert_eq!(connect_result(Err(SysError::Os(111))), Err(SysError::Os(111)));
    assert_eq!(connect_result(Ok(())), Ok(()));
    assert_eq!(connect_result(Err(SysError::NotFound)), Err(SysError::NotFound));
}
