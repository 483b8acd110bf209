//! Addresses and the configuration shared by the client and the server.
use vstd::prelude::*;

verus! {

/// An IPv4 address, held as its 32-bit number (first octet highest).
#[derive(Clone, Copy, Debug, PartialEq, Eq, Structural, PartialOrd, Ord, Hash)]
pub struct Ipv4Addr {
    bits: u32,
}

/// The number of the address `a.b.c.d`.
pub open spec fn ipv4_bits(a: u8, b: u8, c: u8, d: u8) -> u32 {
    ((a as u32) << 24u32) | ((b as u32) << 16u32) | ((c as u32) << 8u32) | (d as u32)
}

/// The four octets of the address numbered `bits`, first octet first.
pub open spec fn ipv4_octets(bits: u32) -> [u8; 4] {
    [(bits >> 24u32) as u8, ((bits >> 16u32) & 0xff) as u8, ((bits >> 8u32) & 0xff) as u8, (bits
        & 0xff) as u8]
}

impl View for Ipv4Addr {
    type V = u32;

    closed spec fn view(&self) -> u32 {
        self.bits
    }
}

impl Ipv4Addr {
    /// The address `a.b.c.d`.
    pub fn new(a: u8, b: u8, c: u8, d: u8) -> (addr: Self)
        ensures
            addr@ == ipv4_bits(a, b, c, d),
    {
        Ipv4Addr {
            bits: ((a as u32) << 24u32) | ((b as u32) << 16u32) | ((c as u32) << 8u32) | (d as u32),
        }
    }

    /// The address numbered `bits`.
    pub fn from_bits(bits: u32) -> (addr: Self)
        ensures
            addr@ == bits,
    {
        Ipv4Addr { bits }
    }

    /// The number of the address.
    pub fn to_bits(&self) -> (bits: u32)
        ensures
            bits == self@,
    {
        self.bits
    }

    /// The four octets of the address, first octet first.
    pub fn octets(&self) -> (o: [u8; 4])
        ensures
            o == ipv4_octets(self@),
    {
        [(self.bits >> 24u32) as u8, ((self.bits >> 16u32) & 0xff) as u8, ((self.bits >> 8u32)
            & 0xff) as u8, (self.bits & 0xff) as u8]
    }

    /// The unspecified address `0.0.0.0`.
    pub fn unspecified() -> (addr: Self)
        ensures
            addr@ == 0,
    {
        Ipv4Addr { bits: 0 }
    }
}

/// Law: the octets of the address `a.b.c.d` are `a`, `b`, `c`, `d`.
pub proof fn lemma_octets_of_new(a: u8, b: u8, c: u8, d: u8)
    ensures
        ipv4_octets(ipv4_bits(a, b, c, d)) =~= [a, b, c, d],
{
    let x = ipv4_bits(a, b, c, d);
    assert((x >> 24u32) as u8 == a && ((x >> 16u32) & 0xff) as u8 == b && ((x >> 8u32) & 0xff) as u8
        == c && (x & 0xff) as u8 == d) by (bit_vector)
        requires
            x == ipv4_bits(a, b, c, d),
    ;
}

/// The default multicast group, `224.0.0.100`.
pub open spec fn default_multicast_bits() -> u32 {
    ipv4_bits(224, 0, 0, 100)
}

/// The default ports; several, in case one of them is taken.
pub open spec fn default_ports() -> Seq<u16> {
    seq![10001u16, 10010u16, 10100u16, 11000u16]
}

/// Configuration of discovery.
#[derive(Clone, Debug)]
pub struct DiscoverConfig {
    /// The multicast group.
    pub multicast_addr: Ipv4Addr,
    /// The ports to use, in order of preference.
    pub ports: Vec<u16>,
    /// The address the server listens on; `0.0.0.0` for any.
    pub listen_addr: Ipv4Addr,
}

/// Whether `c` is the default configuration.
pub open spec fn is_default_config(c: DiscoverConfig) -> bool {
    &&& c.multicast_addr@ == default_multicast_bits()
    &&& c.ports@ == default_ports()
    &&& c.listen_addr@ == 0
}

impl Default for DiscoverConfig {
    fn default() -> (c: Self)
        ensures
            is_default_config(c),
    {
        let ports: Vec<u16> = vec![10001, 10010, 10100, 11000];
        assert(ports@ =~= default_ports());
        DiscoverConfig {
            multicast_addr: Ipv4Addr::new(224, 0, 0, 100),
            ports,
            listen_addr: Ipv4Addr::unspecified(),
        }
    }
}

impl DiscoverConfig {
    /// A configuration with the default values.
    pub fn new() -> (c: Self)
        ensures
            is_default_config(c),
    {
        Self::default()
    }

    /// Sets the multicast group.
    pub fn set_multicast_addr(self, addr: Ipv4Addr) -> (c: Self)
        ensures
            c.multicast_addr == addr,
            c.ports@ == self.ports@,
            c.listen_addr == self.listen_addr,
    {
        let mut c = self;
        c.multicast_addr = addr;
        c
    }

    /// Sets the ports.
    pub fn set_ports(self, ports: Vec<u16>) -> (c: Self)
        ensures
            c.multicast_addr == self.multicast_addr,
            c.ports@ == ports@,
            c.listen_addr == self.listen_addr,
    {
        let mut c = self;
        c.ports = ports;
        c
    }

    /// Sets the address the server listens on.
    pub fn set_listen_addr(self, addr: Ipv4Addr) -> (c: Self)
        ensures
            c.multicast_addr == self.multicast_addr,
            c.ports@ == self.ports@,
            c.listen_addr == addr,
    {
        let mut c = self;
        c.listen_addr = addr;
        c
    }
}

} // verus!
