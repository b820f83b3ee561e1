//! Which addresses the proxy may connect to.
use vstd::prelude::*;

verus! {

/// An IP address: the octets of version 4 or the 16-bit groups of version 6.
#[derive(Debug, Clone, Copy, PartialEq, Eq)]
pub enum IpAddress {
    V4([u8; 4]),
    V6([u16; 8]),
}

/// An address to connect to.
#[derive(Debug, Clone, Copy, PartialEq, Eq)]
pub struct SocketAddress {
    pub ip: IpAddress,
    pub port: u16,
    /// The flow label of version 6, zero for version 4.
    pub flow_info: u32,
    /// The scope of version 6, zero for version 4.
    pub scope_id: u32,
}

/// How an address may be used.
#[derive(Debug, Clone, Copy, PartialEq, Eq, Structural)]
pub enum AddressClass {
    /// Open to every rule.
    Public,
    /// Open to rules that allow private addresses.
    PrivateRoutable,
    /// Open to no rule.
    AlwaysBlocked,
}

/// The class of a version 4 address.
pub open spec fn class_v4(octets: Seq<u8>) -> AddressClass {
    // loopback, link-local, multicast, unspecified and broadcast
    if octets[0] == 127 || (octets[0] == 169 && octets[1] == 254) || 224 <= octets[0] <= 239 || octets
        == seq![0u8, 0, 0, 0] || octets == seq![255u8, 255, 255, 255] {
        AddressClass::AlwaysBlocked
    } else if octets[0] == 10 || (octets[0] == 172 && 16 <= octets[1] <= 31) || (octets[0] == 192
        && octets[1] == 168)
    // shared address space
     || (octets[0] == 100 && 64 <= octets[1] <= 127) {
        AddressClass::PrivateRoutable
    } else {
        AddressClass::Public
    }
}

/// The version 4 address that a version 6 address maps, if it is `::ffff:a.b.c.d`.
pub open spec fn mapped_v4(groups: Seq<u16>) -> Option<Seq<u8>> {
    if groups.take(6) == seq![0u16, 0, 0, 0, 0, 0xffff] {
        Some(
            seq![
                (groups[6] / 256) as u8,
                (groups[6] % 256) as u8,
                (groups[7] / 256) as u8,
                (groups[7] % 256) as u8,
            ],
        )
    } else {
        None
    }
}

/// The class of a version 6 address.
pub open spec fn class_v6(groups: Seq<u16>) -> AddressClass {
    if let Some(octets) = mapped_v4(groups) {
        class_v4(octets)
    } else if groups == seq![0u16, 0, 0, 0, 0, 0, 0, 1] || groups == seq![0u16, 0, 0, 0, 0, 0, 0, 0]
    // multicast ff00::/8 and link-local fe80::/10
     || 0xff00 <= groups[0] || 0xfe80 <= groups[0] <= 0xfebf {
        AddressClass::AlwaysBlocked
    } else if 0xfc00 <= groups[0] <= 0xfdff {
        // unique local fc00::/7
        AddressClass::PrivateRoutable
    } else {
        AddressClass::Public
    }
}

/// The class of an address.
pub open spec fn class_of(ip: IpAddress) -> AddressClass {
    match ip {
        IpAddress::V4(octets) => class_v4(octets@),
        IpAddress::V6(groups) => class_v6(groups@),
    }
}

fn classify_v4(octets: [u8; 4]) -> (class: AddressClass)
    ensures
        class == class_v4(octets@),
{
    let a: u8 = octets[0];
    let b: u8 = octets[1];
    let c: u8 = octets[2];
    let d: u8 = octets[3];
    proof {
        assert((a == 0 && b == 0 && c == 0 && d == 0) == (octets@ =~= seq![0u8, 0, 0, 0]));
        assert((a == 255 && b == 255 && c == 255 && d == 255) == (octets@ =~= seq![
            255u8,
            255,
            255,
            255,
        ]));
    }
    if a == 127 || (a == 169 && b == 254) || (224 <= a && a <= 239) || (a == 0 && b == 0 && c == 0
        && d == 0) || (a == 255 && b == 255 && c == 255 && d == 255) {
        AddressClass::AlwaysBlocked
    } else if a == 10 || (a == 172 && 16 <= b && b <= 31) || (a == 192 && b == 168) || (a == 100
        && 64 <= b && b <= 127) {
        AddressClass::PrivateRoutable
    } else {
        AddressClass::Public
    }
}

fn classify_v6(groups: [u16; 8]) -> (class: AddressClass)
    ensures
        class == class_v6(groups@),
{
    let high_zero = groups[0] == 0 && groups[1] == 0 && groups[2] == 0 && groups[3] == 0 && groups[4]
        == 0;
    let mapped = high_zero && groups[5] == 0xffff;
    let low_zero = high_zero && groups[5] == 0 && groups[6] == 0;
    let first: u16 = groups[0];
    proof {
        assert(mapped == (groups@.take(6) =~= seq![0u16, 0, 0, 0, 0, 0xffff])) by {
            if mapped {
                assert(groups@.take(6) =~= seq![0u16, 0, 0, 0, 0, 0xffff]);
            }
            if groups@.take(6) =~= seq![0u16, 0, 0, 0, 0, 0xffff] {
                assert(forall|i: int| 0 <= i < 6 ==> groups@[i] == #[trigger] groups@.take(6)[i]);
                assert(groups@.take(6)[0] == 0 && groups@.take(6)[1] == 0 && groups@.take(6)[2] == 0
                    && groups@.take(6)[3] == 0 && groups@.take(6)[4] == 0 && groups@.take(6)[5]
                    == 0xffff);
            }
        }
        assert((low_zero && groups@[7] == 1) == (groups@ =~= seq![0u16, 0, 0, 0, 0, 0, 0, 1]));
        assert((low_zero && groups@[7] == 0) == (groups@ =~= seq![0u16, 0, 0, 0, 0, 0, 0, 0]));
    }
    if mapped {
        let octets: [u8; 4] = [
            (groups[6] / 256) as u8,
            (groups[6] % 256) as u8,
            (groups[7] / 256) as u8,
            (groups[7] % 256) as u8,
        ];
        assert(mapped_v4(groups@) == Some(octets@)) by {
            assert(mapped_v4(groups@).unwrap() =~= octets@);
        }
        return classify_v4(octets);
    }
    if (low_zero && groups[7] == 1) || (low_zero && groups[7] == 0) || 0xff00 <= first || (0xfe80
        <= first && first <= 0xfebf) {
        AddressClass::AlwaysBlocked
    } else if 0xfc00 <= first && first <= 0xfdff {
        AddressClass::PrivateRoutable
    } else {
        AddressClass::Public
    }
}

/// Classifies an address.
pub fn classify_ip(addr: &IpAddress) -> (class: AddressClass)
    ensures
        class == class_of(*addr),
{
    match addr {
        IpAddress::V4(octets) => classify_v4(*octets),
        IpAddress::V6(groups) => classify_v6(*groups),
    }
}

/// Whether an address is private or reserved.
pub fn is_private_ip(addr: &IpAddress) -> (private: bool)
    ensures
        private == (class_of(*addr) != AddressClass::Public),
{
    classify_ip(addr) != AddressClass::Public
}

/// Whether a rule lets the proxy connect to an address.
pub open spec fn address_allowed(ip: IpAddress, allow_private_ips: bool) -> bool {
    match class_of(ip) {
        AddressClass::Public => true,
        AddressClass::PrivateRoutable => allow_private_ips,
        AddressClass::AlwaysBlocked => false,
    }
}

/// The addresses that a rule lets the proxy connect to, in order.
pub open spec fn allowed_of(addrs: Seq<SocketAddress>, allow_private_ips: bool) -> Seq<
    SocketAddress,
> {
    addrs.filter(|addr: SocketAddress| address_allowed(addr.ip, allow_private_ips))
}

/// Keeps the addresses that a rule lets the proxy connect to.
pub fn allowed_target_addrs(addrs: &Vec<SocketAddress>, allow_private_ips: bool) -> (allowed: Vec<
    SocketAddress,
>)
    ensures
        allowed@ == allowed_of(addrs@, allow_private_ips),
{
    let mut allowed: Vec<SocketAddress> = Vec::new();
    let ghost keep = |addr: SocketAddress| address_allowed(addr.ip, allow_private_ips);
    proof {
        crate::lists::lemma_filter_ends(addrs@, keep);
    }
    for i in 0..addrs.len()
        invariant
            keep == (|addr: SocketAddress| address_allowed(addr.ip, allow_private_ips)),
            allowed@ == addrs@.take(i as int).filter(keep),
    {
        let addr = addrs[i];
        let yes = match classify_ip(&addr.ip) {
            AddressClass::Public => true,
            AddressClass::PrivateRoutable => allow_private_ips,
            AddressClass::AlwaysBlocked => false,
        };
        proof {
            crate::lists::lemma_filter_next(addrs@, keep, i as int);
            assert(keep(addr) == yes);
        }
        if yes {
            allowed.push(addr);
        }
    }
    allowed
}

/// No rule opens an address that is always blocked, and a private one only the rules that say so.
pub proof fn blocked_addresses_stay_out(
    addrs: Seq<SocketAddress>,
    allow_private_ips: bool,
    i: int,
)
    requires
        0 <= i < allowed_of(addrs, allow_private_ips).len(),
    ensures
        addrs.contains(allowed_of(addrs, allow_private_ips)[i]),
        class_of(allowed_of(addrs, allow_private_ips)[i].ip) != AddressClass::AlwaysBlocked,
        !allow_private_ips ==> class_of(allowed_of(addrs, allow_private_ips)[i].ip)
            == AddressClass::Public,
{
    let keep = |addr: SocketAddress| address_allowed(addr.ip, allow_private_ips);
    crate::lists::lemma_kept_was_there(addrs, keep, i);
}

/// The number that the octets of a version 4 address make.
pub open spec fn number_v4(octets: Seq<u8>) -> int {
    octets[0] * 0x1000000 + octets[1] * 0x10000 + octets[2] * 0x100 + octets[3]
}

/// The number that the groups of a version 6 address make.
pub open spec fn number_v6(groups: Seq<u16>) -> int {
    groups[0] * 0x10000_0000_0000_0000_0000_0000_0000 + groups[1]
        * 0x10000_0000_0000_0000_0000_0000 + groups[2] * 0x10000_0000_0000_0000_0000 + groups[3]
        * 0x10000_0000_0000_0000 + groups[4] * 0x10000_0000_0000 + groups[5] * 0x10000_0000
        + groups[6] * 0x10000 + groups[7]
}

/// Version 4 addresses are classed by the ranges that their numbers lie in. Always blocked are
/// 0.0.0.0, 127.0.0.0/8, 169.254.0.0/16, 224.0.0.0/4 and 255.255.255.255; private are 10.0.0.0/8,
/// 172.16.0.0/12, 192.168.0.0/16 and 100.64.0.0/10; every other one is public.
pub proof fn v4_ranges(octets: [u8; 4])
    ensures
        ({
            let n = number_v4(octets@);
            let class = class_of(IpAddress::V4(octets));
            let blocked = n == 0 || 0x7f00_0000 <= n <= 0x7fff_ffff || 0xa9fe_0000 <= n
                <= 0xa9fe_ffff || 0xe000_0000 <= n <= 0xefff_ffff || n == 0xffff_ffff;
            let private = 0x0a00_0000 <= n <= 0x0aff_ffff || 0xac10_0000 <= n <= 0xac1f_ffff
                || 0xc0a8_0000 <= n <= 0xc0a8_ffff || 0x6440_0000 <= n <= 0x647f_ffff;
            &&& class == AddressClass::AlwaysBlocked <==> blocked
            &&& class == AddressClass::PrivateRoutable <==> private
            &&& class == AddressClass::Public <==> !blocked && !private
        }),
{
    let zeros = seq![0u8, 0, 0, 0];
    let ones = seq![255u8, 255, 255, 255];
    let n = number_v4(octets@);
    assert(n == 0 <==> octets@ =~= zeros);
    assert(n == 0xffff_ffff <==> octets@ =~= ones);
}

/// Version 6 addresses are classed by the ranges that their numbers lie in. Those of
/// ::ffff:0:0/96 stand for a version 4 address and are classed as it is. Of the others, ::, ::1,
/// fe80::/10 and ff00::/8 are always blocked, fc00::/7 is private, and the rest is public.
pub proof fn v6_ranges(groups: [u16; 8])
    ensures
        ({
            let n = number_v6(groups@);
            let class = class_of(IpAddress::V6(groups));
            let mapped = 0xffff_0000_0000 <= n <= 0xffff_ffff_ffff;
            let blocked = n == 0 || n == 1 || 0xfe80_0000_0000_0000_0000_0000_0000_0000 <= n
                <= 0xfebf_ffff_ffff_ffff_ffff_ffff_ffff_ffff
                || 0xff00_0000_0000_0000_0000_0000_0000_0000 <= n;
            let private = 0xfc00_0000_0000_0000_0000_0000_0000_0000 <= n
                <= 0xfdff_ffff_ffff_ffff_ffff_ffff_ffff_ffff;
            &&& !mapped ==> (class == AddressClass::AlwaysBlocked <==> blocked)
            &&& !mapped ==> (class == AddressClass::PrivateRoutable <==> private)
            &&& !mapped ==> (class == AddressClass::Public <==> !blocked && !private)
        }),
        forall|octets: [u8; 4]|
            number_v6(groups@) == 0xffff_0000_0000 + #[trigger] number_v4(octets@) ==> class_of(
                IpAddress::V6(groups),
            ) == class_of(IpAddress::V4(octets)),
{
    let n = number_v6(groups@);
    let prefix = seq![0u16, 0, 0, 0, 0, 0xffff];
    assert(n == 0 <==> groups@ =~= seq![0u16, 0, 0, 0, 0, 0, 0, 0]);
    assert(n == 1 <==> groups@ =~= seq![0u16, 0, 0, 0, 0, 0, 0, 1]);
    assert((0xffff_0000_0000 <= n <= 0xffff_ffff_ffff) == (groups@.take(6) =~= prefix)) by {
        if groups@.take(6) =~= prefix {
            assert(forall|i: int| 0 <= i < 6 ==> groups@[i] == #[trigger] prefix[i]);
            assert(prefix[0] == 0 && prefix[1] == 0 && prefix[2] == 0 && prefix[3] == 0 && prefix[4]
                == 0 && prefix[5] == 0xffff);
        }
    }
    assert forall|octets: [u8; 4]|
        n == 0xffff_0000_0000 + #[trigger] number_v4(octets@) implies class_of(
        IpAddress::V6(groups),
    ) == class_of(IpAddress::V4(octets)) by {
        assert(mapped_v4(groups@)->0 =~= octets@);
    }
}

/// What a rule lets the proxy connect to is every public address, and every private one if the rule
/// says so, each as often as it was resolved and in the same order.
pub proof fn rules_open_addresses(
    addrs: Seq<SocketAddress>,
    more: Seq<SocketAddress>,
    addr: SocketAddress,
    allow_private_ips: bool,
)
    ensures
        allowed_of(Seq::empty(), allow_private_ips) == Seq::<SocketAddress>::empty(),
        allowed_of(seq![addr], allow_private_ips) == (if class_of(addr.ip) == AddressClass::Public
            || (allow_private_ips && class_of(addr.ip) == AddressClass::PrivateRoutable) {
            seq![addr]
        } else {
            Seq::empty()
        }),
        allowed_of(addrs + more, allow_private_ips) == allowed_of(addrs, allow_private_ips)
            + allowed_of(more, allow_private_ips),
{
    let keep = |addr: SocketAddress| address_allowed(addr.ip, allow_private_ips);
    reveal_with_fuel(Seq::filter, 3);
    assert(seq![addr].drop_last() =~= Seq::<SocketAddress>::empty());
    Seq::filter_distributes_over_add(addrs, more, keep);
}

} // verus!
