use vstd::prelude::*;

use crate::abi::SysError;

verus! {

/// Address family of IPv4.
pub const AF_INET: u32 = 2;

/// Socket type of a byte stream.
pub const SOCK_STREAM: u32 = 1;

/// Protocol number of TCP.
pub const IPPROTO_TCP: u32 = 6;

/// The error number of a non-blocking connect that is under way.
pub const EINPROGRESS: i32 = 115;

/// A socket address, as far as PopugOS tells them apart: an IPv4 address
/// with its port, or any IPv6 address.
#[derive(Debug, Clone, Copy, PartialEq, Eq)]
pub enum SocketAddress {
    V4 { ip: [u8; 4], port: u16 },
    V6,
}

/// The IPv4 socket address as the PopugOS kernel reads it.
#[derive(Debug, Clone, Copy)]
pub struct SockAddrIn {
    /// The address family, `AF_INET`.
    pub family: u16,
    /// The port, its bytes in network (big-endian) order, as they lie in
    /// memory.
    pub port: [u8; 2],
    /// The address, as the integer whose big-endian bytes are its octets.
    pub address: u32,
    /// Padding, all zero.
    pub zero: [u8; 8],
}

/// The integer whose big-endian bytes are `b`.
pub open spec fn be_u32(b: Seq<u8>) -> int {
    b[0] * 0x100_0000 + b[1] * 0x1_0000 + b[2] * 0x100 + b[3]
}

impl SockAddrIn {
    /// The kernel's form of the IPv4 address `ip` with port `port`.
    pub fn new(ip: [u8; 4], port: u16) -> (r: SockAddrIn)
        ensures
            r.family == AF_INET,
            r.port@ == seq![(port / 0x100) as u8, (port % 0x100) as u8],
            r.address == be_u32(ip@),
            r.zero@ == seq![0u8; 8],
    {
        let address: u32 = ip[0] as u32 * 0x100_0000u32 + ip[1] as u32 * 0x1_0000u32 + ip[2] as u32
            * 0x100u32 + ip[3] as u32;
        let r = SockAddrIn {
            family: 2,
            port: [(port / 0x100) as u8, (port % 0x100) as u8],
            address,
            zero: [0u8; 8],
        };
        assert(r.port@ =~= seq![(port / 0x100) as u8, (port % 0x100) as u8]);
        assert(r.zero@ =~= seq![0u8; 8]);
        r
    }
}

/// The kernel's form of `address`; PopugOS supports IPv4 only.
pub fn with_address(address: SocketAddress) -> (r: Result<SockAddrIn, SysError>)
    ensures
        address matches SocketAddress::V4 { ip, port } ==> r matches Ok(raw) && raw.family
            == AF_INET && raw.port@ == seq![(port / 0x100) as u8, (port % 0x100) as u8]
            && raw.address == be_u32(ip@) && raw.zero@ == seq![0u8; 8],
        address is V6 ==> r == Err::<SockAddrIn, SysError>(SysError::Unsupported),
{
    match address {
        SocketAddress::V4 { ip, port } => Ok(SockAddrIn::new(ip, port)),
        SocketAddress::V6 => Err(SysError::Unsupported),
    }
}

/// The `socket(2)` arguments (domain, type, protocol) of a TCP socket for
/// `address`; PopugOS supports IPv4 only.
pub fn new_for_addr(address: SocketAddress) -> (r: Result<(u32, u32, u32), SysError>)
    ensures
        address is V4 ==> r == Ok::<(u32, u32, u32), SysError>((AF_INET, SOCK_STREAM, IPPROTO_TCP)),
        address is V6 ==> r == Err::<(u32, u32, u32), SysError>(SysError::Unsupported),
{
    match address {
        SocketAddress::V4 { .. } => Ok((AF_INET, SOCK_STREAM, IPPROTO_TCP)),
        SocketAddress::V6 => Err(SysError::Unsupported),
    }
}

/// The outcome of a non-blocking `connect(2)` that returned `result`: a
/// connect under way counts as success.
pub fn connect_result(result: Result<(), SysError>) -> (r: Result<(), SysError>)
    ensures
        result == Err::<(), SysError>(SysError::Os(EINPROGRESS)) ==> r == Ok::<(), SysError>(()),
        result != Err::<(), SysError>(SysError::Os(EINPROGRESS)) ==> r == result,
{
    match result {
        Err(SysError::Os(code)) if code == EINPROGRESS => Ok(()),
        other => other,
    }
}

/// The kernel's form keeps the port and the address whole: reading the port
/// bytes in network order gives the port back, and the address integer's
/// big-endian bytes are the octets in order.
pub proof fn law_sockaddr_roundtrip(ip: Seq<u8>, port: u16)
    requires
        ip.len() == 4,
    ensures
        ((port / 0x100) as u8) * 0x100 + ((port % 0x100) as u8) == port,
        0 <= be_u32(ip) <= u32::MAX,
        be_u32(ip) / 0x100_0000 == ip[0],
        (be_u32(ip) / 0x1_0000) % 0x100 == ip[1],
        (be_u32(ip) / 0x100) % 0x100 == ip[2],
        be_u32(ip) % 0x100 == ip[3],
{
    let (a, b, c, d) = (ip[0] as int, ip[1] as int, ip[2] as int, ip[3] as int);
    assert(0 <= a < 256 && 0 <= b < 256 && 0 <= c < 256 && 0 <= d < 256);
    let v = be_u32(ip);
    assert(v == a * 0x100_0000 + b * 0x1_0000 + c * 0x100 + d);
    assert(v / 0x100_0000 == a && (v / 0x1_0000) % 0x100 == b && (v / 0x100) % 0x100 == c && v
        % 0x100 == d && 0 <= v <= u32::MAX) by (nonlinear_arith)
        requires
            v == a * 0x100_0000 + b * 0x1_0000 + c * 0x100 + d,
            0 <= a < 256,
            0 <= b < 256,
            0 <= c < 256,
            0 <= d < 256,
    ;
}

} // verus!
