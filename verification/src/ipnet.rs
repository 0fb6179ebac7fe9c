//! IP addresses and networks as numbers.
//!
//! An address is the integer that its octets write, most significant first.
//! A network is an address and the number of leading bits that an address
//! must share with it to lie inside.

use vstd::prelude::*;

verus! {

/// An IP address as a number: 32 bits for version 4, 128 bits for version 6.
#[derive(Debug, Clone, Copy, PartialEq, Eq, Structural)]
pub enum IpAddress {
    /// An IPv4 address.
    V4(u32),
    /// An IPv6 address.
    V6(u128),
}

/// An IP network: an address and a prefix length of at most 32 bits for
/// version 4 and at most 128 bits for version 6.
#[derive(Debug, Clone, Copy, PartialEq, Eq)]
pub struct IpNet {
    addr: IpAddress,
    prefix: u8,
}

/// Whether `prefix` is a prefix length for the version of `addr`.
pub open spec fn prefix_fits(addr: IpAddress, prefix: u8) -> bool {
    match addr {
        IpAddress::V4(_) => prefix <= 32,
        IpAddress::V6(_) => prefix <= 128,
    }
}

/// Whether the IPv4 addresses `a` and `b` agree in their first `prefix`
/// bits.
pub open spec fn same_prefix_v4(a: u32, b: u32, prefix: u8) -> bool {
    (a as u64 >> ((32 - prefix) as u64)) == (b as u64 >> ((32 - prefix) as u64))
}

/// Whether the IPv6 addresses `a` and `b` agree in their first `prefix`
/// bits.
pub open spec fn same_prefix_v6(a: u128, b: u128, prefix: u8) -> bool {
    prefix == 0 || (a >> ((128 - prefix) as u128)) == (b >> ((128 - prefix) as u128))
}

/// What `ipnetwork`'s parser makes of a text: whether the network is of
/// version 6, its address as a number, and its prefix length; `None` where
/// the parser rejects the text.
pub uninterp spec fn parsed_network(s: Seq<char>) -> Option<(bool, u128, u8)>;

/// Parses `s` with `ipnetwork`'s `FromStr` for `IpNetwork`, which accepts an
/// address of either version, alone or followed by a slash and a prefix
/// length or, for version 4, a netmask. The result is handed back as plain
/// numbers and is the named result `parsed_network`. As the crate's
/// constructors refuse longer prefixes, the prefix is at most 32 for
/// version 4, whose address fits 32 bits, and at most 128 for version 6.
#[verifier::external_body]
fn parse_network_parts(s: &str) -> (r: Option<(bool, u128, u8)>)
    ensures
        r == parsed_network(s@),
        r matches Some(p) ==> (if p.0 {
            p.2 <= 128
        } else {
            p.2 <= 32 && p.1 <= u32::MAX
        }),
{
    match s.parse::<ipnetwork::IpNetwork>() {
        Ok(ipnetwork::IpNetwork::V4(n)) => Some((false, u32::from(n.ip()) as u128, n.prefix())),
        Ok(ipnetwork::IpNetwork::V6(n)) => Some((true, u128::from(n.ip()), n.prefix())),
        Err(_) => None,
    }
}

/// Asks `ipnetwork`'s `Ipv4Network::contains` whether the network of
/// address `net` and prefix length `prefix` holds `ip`: it does where both
/// agree under the mask of `prefix` leading one bits.
#[verifier::external_body]
fn v4_contains(net: u32, prefix: u8, ip: u32) -> (r: bool)
    requires
        prefix <= 32,
    ensures
        r == same_prefix_v4(net, ip, prefix),
{
    match ipnetwork::Ipv4Network::new(net.into(), prefix) {
        Ok(n) => n.contains(ip.into()),
        Err(_) => false,
    }
}

/// Asks `ipnetwork`'s `Ipv6Network::contains` whether the network of
/// address `net` and prefix length `prefix` holds `ip`: it does where both
/// agree under the mask of `prefix` leading one bits.
#[verifier::external_body]
fn v6_contains(net: u128, prefix: u8, ip: u128) -> (r: bool)
    requires
        prefix <= 128,
    ensures
        r == same_prefix_v6(net, ip, prefix),
{
    match ipnetwork::Ipv6Network::new(net.into(), prefix) {
        Ok(n) => n.contains(ip.into()),
        Err(_) => false,
    }
}

/// The network that a parsed text stands for.
pub open spec fn network_of(parts: Option<(bool, u128, u8)>) -> Option<(IpAddress, u8)> {
    match parts {
        Some((true, bits, prefix)) => Some((IpAddress::V6(bits), prefix)),
        Some((false, bits, prefix)) => Some((IpAddress::V4(bits as u32), prefix)),
        None => None,
    }
}

impl IpNet {
    #[verifier::type_invariant]
    spec fn inv(self) -> bool {
        prefix_fits(self.addr, self.prefix)
    }

    /// The network's address.
    pub closed spec fn spec_addr(self) -> IpAddress {
        self.addr
    }

    /// The network's prefix length.
    pub closed spec fn spec_prefix(self) -> u8 {
        self.prefix
    }

    /// Whether `ip` lies inside the network: it is of the network's version
    /// and agrees with the network's address in the first `prefix` bits.
    pub open spec fn spec_contains(self, ip: IpAddress) -> bool {
        match (self.spec_addr(), ip) {
            (IpAddress::V4(net), IpAddress::V4(a)) => same_prefix_v4(net, a, self.spec_prefix()),
            (IpAddress::V6(net), IpAddress::V6(a)) => same_prefix_v6(net, a, self.spec_prefix()),
            _ => false,
        }
    }

    /// The network of address `addr` and prefix length `prefix`, where the
    /// length fits the address's version.
    pub fn new(addr: IpAddress, prefix: u8) -> (r: Option<Self>)
        ensures
            match r {
                Some(n) => prefix_fits(addr, prefix) && n.spec_addr() == addr && n.spec_prefix()
                    == prefix,
                None => !prefix_fits(addr, prefix),
            },
    {
        let fits = match addr {
            IpAddress::V4(_) => prefix <= 32,
            IpAddress::V6(_) => prefix <= 128,
        };
        if fits {
            Some(IpNet { addr, prefix })
        } else {
            None
        }
    }

    /// The network's address.
    pub fn addr(&self) -> (r: IpAddress)
        ensures
            r == self.spec_addr(),
    {
        self.addr
    }

    /// The network's prefix length.
    pub fn prefix(&self) -> (r: u8)
        ensures
            r == self.spec_prefix(),
            prefix_fits(self.spec_addr(), r),
    {
        proof {
            use_type_invariant(self);
        }
        self.prefix
    }

    /// Whether `ip` lies inside the network.
    pub fn contains(&self, ip: IpAddress) -> (r: bool)
        ensures
            r == self.spec_contains(ip),
    {
        proof {
            use_type_invariant(self);
        }
        match (self.addr, ip) {
            (IpAddress::V4(net), IpAddress::V4(a)) => v4_contains(net, self.prefix, a),
            (IpAddress::V6(net), IpAddress::V6(a)) => v6_contains(net, self.prefix, a),
            _ => false,
        }
    }

    /// The network that `s` writes: an address of either version, alone or
    /// followed by a slash and a prefix. A lone address is the network that
    /// holds just that address.
    pub fn parse(s: &str) -> (r: Option<Self>)
        ensures
            match r {
                Some(n) => network_of(parsed_network(s@)) == Some((n.spec_addr(), n.spec_prefix())),
                None => parsed_network(s@) is None,
            },
    {
        match parse_network_parts(s) {
            Some((true, bits, prefix)) => Some(IpNet { addr: IpAddress::V6(bits), prefix }),
            Some((false, bits, prefix)) => Some(IpNet { addr: IpAddress::V4(bits as u32), prefix }),
            None => None,
        }
    }
}

/// The address that `s` writes, of either version; `None` where `s` writes
/// none, or more than an address.
pub open spec fn spec_parse_address(s: Seq<char>) -> Option<IpAddress> {
    if crate::text::has_char(s, '/') {
        None
    } else {
        match network_of(parsed_network(s)) {
            Some((addr, _)) => Some(addr),
            None => None,
        }
    }
}

/// The address that `s` writes, of either version.
pub fn parse_address(s: &str) -> (r: Option<IpAddress>)
    ensures
        r == spec_parse_address(s@),
{
    let v = crate::text::chars_of(s);
    proof {
        assert(v@.skip(0) =~= v@);
    }
    if crate::text::find_char(&v, 0, '/') < v.len() {
        return None;
    }
    match IpNet::parse(s) {
        Some(n) => Some(n.addr()),
        None => None,
    }
}

/// Whether `s` writes an IP address or network.
pub fn is_valid_ip_or_network(s: &str) -> (r: bool)
    ensures
        r == parsed_network(s@) is Some,
{
    IpNet::parse(s).is_some()
}

} // verus!
