//! IP addresses and networks.
//!
//! An address is a number in its family and a network an address with the length
//! of its prefix. Reading and writing them as text, and the test whether a network
//! covers an address, are done by the `ipnetwork` crate.

use vstd::arithmetic::div_mod::{lemma_basic_div, lemma_fundamental_div_mod, lemma_mod_bound};
use vstd::arithmetic::power2::{lemma2_to64, lemma_pow2_adds, lemma_pow2_pos, pow2};
use vstd::prelude::*;

use crate::text::{contains_char, decimal, lemma_decimal_is_digits};

verus! {

/// An IP address: the number that its bits spell, the first octet most significant.
#[derive(Clone, Copy, Debug, PartialEq, Eq, Structural)]
pub enum IpAddr {
    V4(u32),
    V6(u128),
}

impl IpAddr {
    /// The number of bits of an address of this family.
    pub open spec fn width(self) -> nat {
        match self {
            IpAddr::V4(_) => 32,
            IpAddr::V6(_) => 128,
        }
    }

    /// The number that the bits of the address spell.
    pub open spec fn value(self) -> nat {
        match self {
            IpAddr::V4(bits) => bits as nat,
            IpAddr::V6(bits) => bits as nat,
        }
    }
}

/// An address and the number of its leading bits that name the network.
#[derive(Clone, Copy, Debug, PartialEq, Eq, Structural)]
pub struct IpNetwork {
    pub addr: IpAddr,
    pub prefix: u8,
}

impl IpNetwork {
    /// The prefix is no longer than the address.
    pub open spec fn wf(self) -> bool {
        self.prefix <= self.addr.width()
    }

    /// The network that consists of one address.
    pub open spec fn host(ip: IpAddr) -> IpNetwork {
        IpNetwork { addr: ip, prefix: ip.width() as u8 }
    }

    /// The network covers `ip`: same family, same leading bits.
    pub open spec fn covers(self, ip: IpAddr) -> bool {
        &&& self.addr.width() == ip.width()
        &&& same_above(
            self.addr.value(),
            ip.value(),
            (ip.width() - self.prefix) as nat,
        )
    }
}

/// `a` and `b` agree in all bits but the lowest `n`.
pub open spec fn same_above(a: nat, b: nat, n: nat) -> bool {
    a / pow2(n) == b / pow2(n)
}

/// One of `nets` covers `ip`.
pub open spec fn any_covers(nets: Seq<IpNetwork>, ip: IpAddr) -> bool {
    exists|i: int| 0 <= i < nets.len() && (#[trigger] nets[i]).covers(ip)
}

/// The four octets of an IPv4 address in decimal, with dots between them.
pub open spec fn dotted(bits: u32) -> Seq<char> {
    let b = bits as nat;
    decimal(b / 0x100_0000) + seq!['.'] + decimal((b / 0x1_0000) % 0x100) + seq!['.'] + decimal(
        (b / 0x100) % 0x100,
    ) + seq!['.'] + decimal(b % 0x100)
}

/// Dotted octets have no slash.
proof fn lemma_dotted_has_no_slash(bits: u32)
    ensures
        !dotted(bits).contains('/'),
{
    let b = bits as nat;
    lemma_decimal_is_digits(b / 0x100_0000);
    lemma_decimal_is_digits((b / 0x1_0000) % 0x100);
    lemma_decimal_is_digits((b / 0x100) % 0x100);
    lemma_decimal_is_digits(b % 0x100);
}

/// The characters that the text of an address is made of.
pub open spec fn is_address_char(c: char) -> bool {
    ||| '0' <= c <= '9'
    ||| 'a' <= c <= 'f'
    ||| c == '.'
    ||| c == ':'
}

/// What `ipnetwork` reads from `text`: a network, or nothing where it is none.
pub uninterp spec fn network_of_text(text: Seq<char>) -> Option<IpNetwork>;

/// The text of an address as the standard library writes it.
pub uninterp spec fn address_text(ip: IpAddr) -> Seq<char>;

/// The address that `text` spells; nothing where it spells none. A text with a slash
/// spells a network, not an address.
pub open spec fn ip_of_text(text: Seq<char>) -> Option<IpAddr> {
    if text.contains('/') {
        None
    } else {
        match network_of_text(text) {
            Some(net) => Some(net.addr),
            None => None,
        }
    }
}

/// `text` is the text of `ip`: dotted octets for IPv4, made of address characters, and read
/// back as `ip`.
pub open spec fn spells_address(text: Seq<char>, ip: IpAddr) -> bool {
    &&& text == address_text(ip)
    &&& ip matches IpAddr::V4(bits) ==> text == dotted(bits)
    &&& text.len() > 0
    &&& forall|i: int| 0 <= i < text.len() ==> is_address_char(#[trigger] text[i])
    &&& ip_of_text(text) == Some(ip)
}

/// The text of a network: its address, a slash, and the length of its prefix.
pub open spec fn network_text(net: IpNetwork) -> Seq<char> {
    address_text(net.addr) + seq!['/'] + decimal(net.prefix as nat)
}

/// `text` is `bare` with the length of a whole address of the family of `ip` behind it.
pub open spec fn spells_host_of(text: Seq<char>, bare: Seq<char>, ip: IpAddr) -> bool {
    text == bare + seq!['/'] + decimal(ip.width())
}

/// `<ipnetwork::IpNetwork as FromStr>::from_str`: reads an address with or without a
/// slash and a prefix length behind it. The prefix length is at most that of an
/// address of the family, and without a slash it is exactly that; written out behind
/// the address it makes no difference. Dotted decimal octets are read as the IPv4
/// address that they spell.
#[verifier::external_body]
fn parse_network(text: &str) -> (net: Option<IpNetwork>)
    ensures
        net == network_of_text(text@),
        net matches Some(n) ==> n.wf(),
        !text@.contains('/') ==> (net matches Some(n) ==> n == IpNetwork::host(n.addr)),
        forall|bits: u32|
            text@ == #[trigger] dotted(bits) ==> net == Some(IpNetwork::host(IpAddr::V4(bits))),
        forall|bare: Seq<char>|
            (#[trigger] ip_of_text(bare) matches Some(ip) && spells_host_of(text@, bare, ip))
                ==> net == network_of_text(bare),
{
    match text.parse::<ipnetwork::IpNetwork>() {
        Ok(ipnetwork::IpNetwork::V4(n)) => {
            Some(IpNetwork { addr: IpAddr::V4(n.ip().into()), prefix: n.prefix() })
        },
        Ok(ipnetwork::IpNetwork::V6(n)) => {
            Some(IpNetwork { addr: IpAddr::V6(n.ip().into()), prefix: n.prefix() })
        },
        Err(_) => None,
    }
}

/// `ipnetwork::IpNetwork::contains`: whether the leading bits of the address, as many
/// as the prefix is long, are those of the network.
#[verifier::external_body]
fn network_contains(net: IpNetwork, ip: IpAddr) -> (inside: bool)
    requires
        net.wf(),
    ensures
        inside == net.covers(ip),
{
    let p = net.prefix;
    let outer = match net.addr {
        IpAddr::V4(b) => ipnetwork::IpNetwork::V4(ipnetwork::Ipv4Network::new(b.into(), p).unwrap()),
        IpAddr::V6(b) => ipnetwork::IpNetwork::V6(ipnetwork::Ipv6Network::new(b.into(), p).unwrap()),
    };
    let host = match ip {
        IpAddr::V4(b) => ipnetwork::IpNetwork::V4(ipnetwork::Ipv4Network::new(b.into(), 32).unwrap()),
        IpAddr::V6(b) => ipnetwork::IpNetwork::V6(ipnetwork::Ipv6Network::new(b.into(), 128).unwrap()),
    };
    outer.contains(host.ip())
}

/// The `Display` of a standard library address, reached through the address of an
/// `ipnetwork` network: dotted decimal for IPv4, the canonical lower-case form for
/// IPv6. It consists of address characters, and reading it gives the address back.
#[verifier::external_body]
fn address_to_text(ip: IpAddr) -> (out: String)
    ensures
        out@ == address_text(ip),
        ip matches IpAddr::V4(bits) ==> out@ == dotted(bits),
        out@.len() > 0,
        forall|i: int| 0 <= i < out@.len() ==> is_address_char(#[trigger] out@[i]),
        network_of_text(out@) == Some(IpNetwork::host(ip)),
{
    match ip {
        IpAddr::V4(b) => ipnetwork::Ipv4Network::new(b.into(), 32).unwrap().ip().to_string(),
        IpAddr::V6(b) => ipnetwork::Ipv6Network::new(b.into(), 128).unwrap().ip().to_string(),
    }
}

/// The `Display` of `ipnetwork::IpNetwork`: the address, a slash, and the prefix length
/// in decimal.
#[verifier::external_body]
fn network_to_text(net: IpNetwork) -> (out: String)
    requires
        net.wf(),
    ensures
        out@ == network_text(net),
{
    match net.addr {
        IpAddr::V4(b) => ipnetwork::Ipv4Network::new(b.into(), net.prefix).unwrap().to_string(),
        IpAddr::V6(b) => ipnetwork::Ipv6Network::new(b.into(), net.prefix).unwrap().to_string(),
    }
}

impl IpAddr {
    /// The address that `text` spells.
    pub fn parse(text: &str) -> (ip: Option<IpAddr>)
        ensures
            ip == ip_of_text(text@),
            text@.contains('/') ==> ip is None,
            !text@.contains('/') ==> (ip is Some <==> network_of_text(text@) is Some),
            ip matches Some(a) ==> (network_of_text(text@) matches Some(net) && net.addr == a),
            forall|bits: u32| text@ == #[trigger] dotted(bits) ==> ip == Some(IpAddr::V4(bits)),
    {
        proof {
            assert forall|bits: u32| text@ == #[trigger] dotted(bits) implies !text@.contains(
                '/',
            ) by {
                lemma_dotted_has_no_slash(bits);
            }
        }
        if contains_char(text, '/') {
            None
        } else {
            match parse_network(text) {
                Some(net) => Some(net.addr),
                None => None,
            }
        }
    }

    /// The text of the address; `parse` reads it back.
    pub fn to_text(self) -> (out: String)
        ensures
            spells_address(out@, self),
            out@ == address_text(self),
            self matches IpAddr::V4(bits) ==> out@ == dotted(bits),
            ip_of_text(out@) == Some(self),
    {
        let out = address_to_text(self);
        assert(!out@.contains('/')) by {
            if out@.contains('/') {
                let i = choose|i: int| 0 <= i < out@.len() && out@[i] == '/';
                assert(is_address_char(out@[i]));
            }
        }
        out
    }
}

impl IpNetwork {
    /// The network that `text` spells. A bare address is the network of that one
    /// address.
    pub fn parse(text: &str) -> (net: Option<IpNetwork>)
        ensures
            net == network_of_text(text@),
            net matches Some(n) ==> n.wf(),
            !text@.contains('/') ==> net == (match ip_of_text(text@) {
                Some(ip) => Some(IpNetwork::host(ip)),
                None => None,
            }),
            forall|bits: u32|
                text@ == #[trigger] dotted(bits) ==> net == Some(
                    IpNetwork::host(IpAddr::V4(bits)),
                ),
            forall|bare: Seq<char>|
                (#[trigger] ip_of_text(bare) matches Some(ip)
                    && spells_host_of(text@, bare, ip)) ==> net == network_of_text(bare),
    {
        parse_network(text)
    }

    /// Whether the network covers `ip`.
    pub fn contains(self, ip: IpAddr) -> (inside: bool)
        requires
            self.wf(),
        ensures
            inside == self.covers(ip),
    {
        network_contains(self, ip)
    }

    /// The network as an address, a slash and the prefix length.
    pub fn to_text(self) -> (out: String)
        requires
            self.wf(),
        ensures
            out@ == network_text(self),
    {
        network_to_text(self)
    }
}

/// Whether one of `nets` covers `ip`.
pub fn any_contains(nets: &Vec<IpNetwork>, ip: IpAddr) -> (found: bool)
    requires
        forall|i: int| 0 <= i < nets@.len() ==> (#[trigger] nets@[i]).wf(),
    ensures
        found == any_covers(nets@, ip),
        found <==> exists|i: int| 0 <= i < nets@.len() && (#[trigger] nets@[i]).covers(ip),
{
    let mut i: usize = 0;
    while i < nets.len()
        invariant
            i <= nets.len(),
            forall|j: int| 0 <= j < nets@.len() ==> (#[trigger] nets@[j]).wf(),
            forall|j: int| 0 <= j < i ==> !(#[trigger] nets@[j]).covers(ip),
        decreases nets.len() - i,
    {
        if nets[i].contains(ip) {
            assert(nets@[i as int].covers(ip));
            return true;
        }
        i = i + 1;
    }
    false
}

/// A bare address in a list of networks stands for that address and no other.
pub proof fn law_host_covers_only_itself(ip: IpAddr, other: IpAddr)
    ensures
        IpNetwork::host(ip).covers(other) <==> ip == other,
{
    lemma2_to64();
    assert(ip.value() / pow2(0) == ip.value());
    assert(other.value() / pow2(0) == other.value());
}

/// A network is a block of neighbouring addresses of one family: as many as the bits behind
/// the prefix can tell apart, from one whose bits behind the prefix are all zero.
pub proof fn law_network_is_a_block(net: IpNetwork, ip: IpAddr)
    requires
        net.wf(),
    ensures
        ({
            let size = pow2((net.addr.width() - net.prefix) as nat) as int;
            let first = net.addr.value() - net.addr.value() as int % size;
            net.covers(ip) <==> (net.addr is V4 <==> ip is V4) && first <= ip.value() < first
                + size
        }),
{
    let n = (net.addr.width() - net.prefix) as nat;
    let size = pow2(n) as int;
    let a = net.addr.value() as int;
    let b = ip.value() as int;
    lemma_pow2_pos(n);
    lemma_fundamental_div_mod(a, size);
    lemma_fundamental_div_mod(b, size);
    lemma_mod_bound(a, size);
    lemma_mod_bound(b, size);
    let first = a - a % size;
    if a / size == b / size {
        assert(first <= b < first + size);
    } else if a / size < b / size {
        assert(size * (b / size) >= size * (a / size) + size) by (nonlinear_arith)
            requires
                b / size >= a / size + 1,
                size > 0,
        ;
    } else {
        assert(size * (a / size) >= size * (b / size) + size) by (nonlinear_arith)
            requires
                a / size >= b / size + 1,
                size > 0,
        ;
    }
}

/// An address is its family and its bits, and a network of one address has the length of
/// the whole address as its prefix.
pub proof fn law_address_is_its_family_and_bits(bits4: u32, bits6: u128)
    ensures
        IpAddr::V4(bits4).width() == 32 && IpAddr::V4(bits4).value() == bits4,
        IpAddr::V6(bits6).width() == 128 && IpAddr::V6(bits6).value() == bits6,
        IpNetwork::host(IpAddr::V4(bits4)).prefix == 32,
        IpNetwork::host(IpAddr::V6(bits6)).prefix == 128,
        IpNetwork::host(IpAddr::V4(bits4)).addr == IpAddr::V4(bits4),
        IpNetwork::host(IpAddr::V6(bits6)).addr == IpAddr::V6(bits6),
{
}

/// A list covers what its networks cover and nothing else: one more network adds exactly what
/// that network covers, wherever it stands.
pub proof fn law_list_covers_what_its_networks_cover(
    before: Seq<IpNetwork>,
    net: IpNetwork,
    behind: Seq<IpNetwork>,
    ip: IpAddr,
)
    ensures
        any_covers(before + seq![net] + behind, ip) <==> any_covers(before, ip) || net.covers(ip)
            || any_covers(behind, ip),
        !any_covers(Seq::<IpNetwork>::empty(), ip),
{
    let all = before + seq![net] + behind;
    let n = before.len() as int;
    if any_covers(all, ip) {
        let i = choose|i: int| 0 <= i < all.len() && (#[trigger] all[i]).covers(ip);
        if i < n {
            assert(before[i].covers(ip));
        } else if i > n {
            assert(behind[i - n - 1].covers(ip));
        }
    }
    if any_covers(before, ip) {
        let i = choose|i: int| 0 <= i < before.len() && (#[trigger] before[i]).covers(ip);
        assert(all[i].covers(ip));
    }
    if net.covers(ip) {
        assert(all[n].covers(ip));
    }
    if any_covers(behind, ip) {
        let i = choose|i: int| 0 <= i < behind.len() && (#[trigger] behind[i]).covers(ip);
        assert(all[n + 1 + i].covers(ip));
    }
}

/// A text is an address where it is read as one and has no slash; a text with a slash never is.
pub proof fn law_slash_makes_no_address(text: Seq<char>)
    ensures
        text.contains('/') ==> ip_of_text(text) is None,
        !text.contains('/') ==> match network_of_text(text) {
            Some(net) => ip_of_text(text) == Some(net.addr),
            None => ip_of_text(text) is None,
        },
{
}

/// An address has one text, and no two addresses have the same.
pub proof fn law_address_text_is_unique(s: Seq<char>, t: Seq<char>, a: IpAddr, b: IpAddr)
    requires
        spells_address(s, a),
        spells_address(t, b),
    ensures
        s == t <==> a == b,
        s == address_text(a),
        a matches IpAddr::V4(bits) ==> s == dotted(bits),
{
}

/// Every network covers the address that it was written with.
pub proof fn law_network_covers_its_address(net: IpNetwork)
    ensures
        net.covers(net.addr),
{
}

/// A network with an empty prefix covers every address of its family, and none of the
/// other.
pub proof fn law_empty_prefix_covers_family(addr: IpAddr, ip: IpAddr)
    ensures
        (IpNetwork { addr, prefix: 0 }).covers(ip) <==> addr.width() == ip.width(),
{
    lemma_u128_below_pow2_128();
    lemma2_to64();
    lemma_basic_div(addr.value() as int, pow2(addr.width()) as int);
    lemma_basic_div(ip.value() as int, pow2(ip.width()) as int);
}

/// The numbers of 128 bits are those below the 128th power of two.
proof fn lemma_u128_below_pow2_128()
    ensures
        pow2(128) == u128::MAX + 1,
{
    lemma2_to64();
    lemma_pow2_adds(64, 64);
    assert(0x1_0000_0000_0000_0000int * 0x1_0000_0000_0000_0000int == u128::MAX + 1);
}

} // verus!
