//! Network guard primitives shared by every egress path: the address ranges a
//! guest-originated connection must never reach.
use vstd::prelude::*;

verus! {

/// An IP address: its four octets, or its eight 16-bit segments.
#[derive(Debug, Clone, Copy, PartialEq, Eq, Structural)]
pub enum IpAddr {
    V4(u8, u8, u8, u8),
    V6(u16, u16, u16, u16, u16, u16, u16, u16),
}

/// The cloud metadata endpoint, 169.254.169.254, as a number.
pub const METADATA_V4: u32 = 0xa9fe_a9fe;

/// The cloud metadata endpoint, fd00:ec2::254, as a number.
pub const METADATA_V6: u128 = 0xfd00_0ec2_0000_0000_0000_0000_0000_0254;

/// The IPv4 address that a number stands for, most significant octet first.
pub open spec fn v4_of(n: u32) -> IpAddr {
    IpAddr::V4(
        (n / 0x100_0000) as u8,
        (n / 0x1_0000 % 0x100) as u8,
        (n / 0x100 % 0x100) as u8,
        (n % 0x100) as u8,
    )
}

/// The 16-bit digit of a number at the place of value `below`.
pub open spec fn segment(n: u128, below: u128) -> u16 {
    (n / below % 0x1_0000) as u16
}

/// The IPv6 address that a number stands for, most significant segment first.
pub open spec fn v6_of(n: u128) -> IpAddr {
    IpAddr::V6(
        segment(n, 0x1_0000_0000_0000_0000_0000_0000_0000),
        segment(n, 0x1_0000_0000_0000_0000_0000_0000),
        segment(n, 0x1_0000_0000_0000_0000_0000),
        segment(n, 0x1_0000_0000_0000_0000),
        segment(n, 0x1_0000_0000_0000),
        segment(n, 0x1_0000_0000),
        segment(n, 0x1_0000),
        segment(n, 1),
    )
}

/// The IPv4 ranges that a guest must never reach: loopback 127.0.0.0/8, private
/// 10.0.0.0/8, 172.16.0.0/12 and 192.168.0.0/16, link-local 169.254.0.0/16,
/// carrier-grade NAT 100.64.0.0/10, the unspecified and the broadcast address.
pub open spec fn forbidden_v4(a: int, b: int, c: int, d: int) -> bool {
    ||| a == 127
    ||| a == 10
    ||| a == 172 && 16 <= b <= 31
    ||| a == 192 && b == 168
    ||| a == 169 && b == 254
    ||| a == 100 && 64 <= b <= 127
    ||| a == 0 && b == 0 && c == 0 && d == 0
    ||| a == 255 && b == 255 && c == 255 && d == 255
}

/// The addresses that a guest must never reach. In IPv6 these are the loopback
/// and the unspecified address, unique local fc00::/7, link-local fe80::/10,
/// and ::ffff:a.b.c.d for every forbidden a.b.c.d.
pub open spec fn forbidden(ip: IpAddr) -> bool {
    match ip {
        IpAddr::V4(a, b, c, d) => forbidden_v4(a as int, b as int, c as int, d as int),
        IpAddr::V6(s0, s1, s2, s3, s4, s5, s6, s7) => {
            ||| s0 == 0 && s1 == 0 && s2 == 0 && s3 == 0 && s4 == 0 && s5 == 0 && s6 == 0 && s7 <= 1
            ||| 0xfc00 <= s0 <= 0xfdff
            ||| 0xfe80 <= s0 <= 0xfebf
            ||| s0 == 0 && s1 == 0 && s2 == 0 && s3 == 0 && s4 == 0 && s5 == 0xffff && forbidden_v4(
                s6 as int / 256,
                s6 as int % 256,
                s7 as int / 256,
                s7 as int % 256,
            )
        },
    }
}

fn is_forbidden_v4(a: u16, b: u16, c: u16, d: u16) -> (r: bool)
    ensures
        r == forbidden_v4(a as int, b as int, c as int, d as int),
{
    a == 127 || a == 10 || (a == 172 && 16 <= b && b <= 31) || (a == 192 && b == 168) || (a == 169
        && b == 254) || (a == 100 && 64 <= b && b <= 127) || (a == 0 && b == 0 && c == 0 && d == 0)
        || (a == 255 && b == 255 && c == 255 && d == 255)
}

/// Is this address in a range that must never be reached from a guest?
/// Loopback, private, link-local (with the metadata endpoint), carrier-grade
/// NAT, unique-local, IPv6 link-local, unspecified, broadcast, and the cloud
/// metadata addresses.
pub fn is_forbidden_ip(ip: &IpAddr) -> (r: bool)
    ensures
        r == forbidden(*ip),
{
    match *ip {
        IpAddr::V4(a, b, c, d) => is_forbidden_v4(a as u16, b as u16, c as u16, d as u16),
        IpAddr::V6(s0, s1, s2, s3, s4, s5, s6, s7) => {
            let head = s0 == 0 && s1 == 0 && s2 == 0 && s3 == 0 && s4 == 0;
            (head && s5 == 0 && s6 == 0 && s7 <= 1) || (0xfc00 <= s0 && s0 <= 0xfdff) || (0xfe80
                <= s0 && s0 <= 0xfebf) || (head && s5 == 0xffff && is_forbidden_v4(
                s6 / 256,
                s6 % 256,
                s7 / 256,
                s7 % 256,
            ))
        },
    }
}

/// The cloud metadata endpoints can never be reached.
pub proof fn law_metadata_is_forbidden()
    ensures
        forbidden(v4_of(METADATA_V4)),
        forbidden(v6_of(METADATA_V6)),
{
}

/// An IPv4 address and its IPv6-mapped form are refused alike.
pub proof fn law_mapped_addresses_are_refused_alike(a: u8, b: u8, c: u8, d: u8)
    ensures
        forbidden(
            IpAddr::V6(0, 0, 0, 0, 0, 0xffff, (a * 256 + b) as u16, (c * 256 + d) as u16),
        ) == forbidden(IpAddr::V4(a, b, c, d)),
{
    let hi = (a * 256 + b) as u16;
    let lo = (c * 256 + d) as u16;
    assert(hi == a * 256 + b && lo == c * 256 + d);
    assert(hi as int / 256 == a && hi as int % 256 == b);
    assert(lo as int / 256 == c && lo as int % 256 == d);
}

/// What is refused of IPv4 are whole ranges of numbers: 127/8, 10/8, 172.16/12,
/// 192.168/16, 169.254/16, 100.64/10, and the first and the last address.
pub proof fn law_refused_addresses_are_ranges(n: u32)
    ensures
        forbidden(v4_of(n)) <==> {
            ||| 0x7f00_0000 <= n <= 0x7fff_ffff
            ||| 0x0a00_0000 <= n <= 0x0aff_ffff
            ||| 0xac10_0000 <= n <= 0xac1f_ffff
            ||| 0xc0a8_0000 <= n <= 0xc0a8_ffff
            ||| 0xa9fe_0000 <= n <= 0xa9fe_ffff
            ||| 0x6440_0000 <= n <= 0x647f_ffff
            ||| n == 0
            ||| n == 0xffff_ffff
        },
{
    let a = n / 0x100_0000;
    let b = n / 0x1_0000 % 0x100;
    let c = n / 0x100 % 0x100;
    let d = n % 0x100;
    assert(a < 256 && b < 256 && c < 256 && d < 256);
    assert(n == a * 0x100_0000 + b * 0x1_0000 + c * 0x100 + d);
    assert(a as u8 == a && b as u8 == b && c as u8 == c && d as u8 == d);
}

/// What is refused of IPv6 is told by its segments: the first two addresses,
/// everything from fc00 to fdff and from fe80 to febf, and what maps a refused IPv4
/// address. No other address is refused.
pub proof fn law_refused_wide_addresses_are_ranges(s0: u16, s1: u16, s7: u16)
    ensures
        forbidden(IpAddr::V6(0, 0, 0, 0, 0, 0, 0, s7)) <==> s7 == 0 || s7 == 1,
        s0 > 0 ==> (forbidden(IpAddr::V6(s0, s1, 0, 0, 0, 0xffff, 0x7f00, s7)) <==> s0 / 0x200
            == 0x7e || s0 / 0x40 == 0x3fa),
        s1 > 0 ==> !forbidden(IpAddr::V6(0, s1, 0, 0, 0, 0xffff, 0x7f00, s7)),
        forbidden(IpAddr::V6(0, 0, 0, 0, 0, 0xffff, 0x7f00, s7)),
{
}

} // verus!
