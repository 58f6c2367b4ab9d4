//! IPv4 addresses: parsing dot notation, printing it, and the network,
//! broadcast, first-host and last-host addresses of an address/mask pair.

use vstd::prelude::*;
use vstd::string::{StrSliceExecFns, StringExecFns};
use crate::decimal::{decimal_string, digit_val, is_digit_char, spec_decimal};

verus! {

/// Reduce a value to 32 bits, as the accumulating u32 arithmetic of
/// `parse_ipv4_address` does.
pub open spec fn ipv4_wrap(x: int) -> int {
    x % 0x1_0000_0000
}

/// The left-to-right scan of `parse_ipv4_address` from position i on,
/// with the accumulated address `ip` and the current run `cur`: a digit
/// extends `cur`, a dot folds `cur` into `ip`, anything else is skipped,
/// and the end folds once more.
pub open spec fn ipv4_scan(s: Seq<char>, i: int, ip: int, cur: int) -> int
    decreases s.len() - i,
        when 0 <= i
{
    if i >= s.len() {
        ipv4_wrap(ip * 256 + cur)
    } else if is_digit_char(s[i]) {
        ipv4_scan(s, i + 1, ip, ipv4_wrap(cur * 10 + digit_val(s[i])))
    } else if s[i] == '.' {
        ipv4_scan(s, i + 1, ipv4_wrap(ip * 256 + cur), 0)
    } else {
        ipv4_scan(s, i + 1, ip, cur)
    }
}

/// The number an address string denotes.
pub open spec fn spec_parse_ipv4(s: Seq<char>) -> int {
    ipv4_scan(s, 0, 0, 0)
}

/// The dot notation of a 32-bit address.
pub open spec fn spec_ipv4_string(x: u32) -> Seq<char> {
    spec_decimal((x >> 24) as int) + seq!['.'] + spec_decimal(((x >> 16) & 255) as int)
        + seq!['.'] + spec_decimal(((x >> 8) & 255) as int) + seq!['.'] + spec_decimal(
        (x & 255) as int,
    )
}

/// Convert a string in dot notation to the 32-bit address it denotes.
/// Each octet is accumulated in decimal and folded in at each dot;
/// characters other than digits and dots are ignored.
pub fn parse_ipv4_address(input: String) -> (r: u32)
    ensures
        r as int == spec_parse_ipv4(input@),
{
    let s = input.as_str();
    let n = s.unicode_len();
    let mut ip: u32 = 0;
    let mut cur: u32 = 0;
    let mut i: usize = 0;
    while i < n
        invariant
            n == s@.len(),
            i <= n,
            ipv4_scan(s@, i as int, ip as int, cur as int) == spec_parse_ipv4(s@),
        decreases n - i,
    {
        let c = s.get_char(i);
        let u = c as u32;
        if 48 <= u && u <= 57 {
            let d = u - 48;
            cur = ((cur as u64 * 10 + d as u64) % 0x1_0000_0000) as u32;
        } else if c == '.' {
            ip = ((ip as u64 * 256 + cur as u64) % 0x1_0000_0000) as u32;
            cur = 0;
        }
        i = i + 1;
    }
    ((ip as u64 * 256 + cur as u64) % 0x1_0000_0000) as u32
}

/// Convert a 32-bit address to dot notation.
pub fn stringify_ipv4_address(input: u32) -> (r: String)
    ensures
        r@ == spec_ipv4_string(input),
{
    let a = (input & (255u32 << 24)) >> 24;
    let b = (input & (255u32 << 16)) >> 16;
    let c = (input & (255u32 << 8)) >> 8;
    let d = input & 255;
    proof {
        assert((input & (255u32 << 24)) >> 24 == input >> 24) by (bit_vector);
        assert((input & (255u32 << 16)) >> 16 == (input >> 16) & 255) by (bit_vector);
        assert((input & (255u32 << 8)) >> 8 == (input >> 8) & 255) by (bit_vector);
        reveal_strlit(".");
    }
    let mut out = decimal_string(a);
    out.append(".");
    let sb = decimal_string(b);
    out.append(sb.as_str());
    out.append(".");
    let sc = decimal_string(c);
    out.append(sc.as_str());
    out.append(".");
    let sd = decimal_string(d);
    out.append(sd.as_str());
    proof {
        assert(".".view() =~= seq!['.']);
        assert(out@ =~= spec_ipv4_string(input));
    }
    out
}

/// An IPv4 address together with its network mask.
#[derive(Debug, Clone, Copy)]
pub struct Ipv4Addr {
    pub addr: u32,
    pub mask: u32,
}

impl Default for Ipv4Addr {
    fn default() -> (r: Self)
        ensures
            r.addr == 0 && r.mask == 0,
    {
        Ipv4Addr { addr: 0, mask: 0 }
    }
}

impl Ipv4Addr {
    /// Pair an address with a mask.
    pub fn new(addr: u32, mask: u32) -> (r: Self)
        ensures
            r.addr == addr,
            r.mask == mask,
    {
        Ipv4Addr { addr, mask }
    }

    /// Convert a string dot notation ip address to u32.
    pub fn to_u32(input: String) -> (r: u32)
        ensures
            r as int == spec_parse_ipv4(input@),
    {
        parse_ipv4_address(input)
    }

    /// Convert u32 ip address to dot notation string.
    pub fn to_string(input: u32) -> (r: String)
        ensures
            r@ == spec_ipv4_string(input),
    {
        stringify_ipv4_address(input)
    }

    /// The network address: the address masked by the mask.
    pub fn network(&self) -> (r: u32)
        ensures
            r == self.addr & self.mask,
    {
        self.addr & self.mask
    }

    /// The broadcast address: the network with all host bits set.
    pub fn broadcast(&self) -> (r: u32)
        ensures
            r == (self.addr & self.mask) | !self.mask,
    {
        self.network() | !self.mask
    }

    /// The first host address in the network: one past the network
    /// address (which must therefore not be the all-ones address).
    pub fn first(&self) -> (r: u32)
        requires
            self.addr & self.mask < u32::MAX,
        ensures
            r == (self.addr & self.mask) + 1,
    {
        self.network() + 1
    }

    /// The last host address in the network: one below the broadcast
    /// address (so the mask must leave at least one host bit).
    pub fn last(&self) -> (r: u32)
        requires
            self.mask != u32::MAX,
        ensures
            r == (self.addr & self.mask) | ((!self.mask - 1) as u32),
    {
        proof {
            let m = self.mask;
            assert(m != 0xffff_ffffu32 ==> !m >= 1u32) by (bit_vector);
        }
        self.network() | (!self.mask - 1)
    }
}

} // verus!
