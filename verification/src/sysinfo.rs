//! Host identity and interface-address collector: trims the host-unique
//! identity value and picks the addresses of the first active, non-loopback
//! interface that carries any, by address family.
//!
//! The caller enumerates the machine's interfaces and reads the identity
//! file; the selection and trimming rules are decided and proved here.

use vstd::prelude::*;
use vstd::string::*;

verus! {

/// One address of an interface: its family and its textual form.
pub struct InterfaceAddress {
    pub is_v4: bool,
    pub text: String,
}

/// The mathematical value of an interface address.
pub struct InterfaceAddressView {
    pub is_v4: bool,
    pub text: Seq<char>,
}

impl View for InterfaceAddress {
    type V = InterfaceAddressView;

    open spec fn view(&self) -> InterfaceAddressView {
        InterfaceAddressView { is_v4: self.is_v4, text: self.text@ }
    }
}

/// One enumerated network interface: its name, state flags and addresses.
pub struct InterfaceInfo {
    pub name: String,
    pub up: bool,
    pub loopback: bool,
    pub addresses: Vec<InterfaceAddress>,
}

/// The mathematical value of an enumerated interface.
pub struct InterfaceInfoView {
    pub name: Seq<char>,
    pub up: bool,
    pub loopback: bool,
    pub addresses: Seq<InterfaceAddressView>,
}

impl View for InterfaceInfo {
    type V = InterfaceInfoView;

    open spec fn view(&self) -> InterfaceInfoView {
        InterfaceInfoView {
            name: self.name@,
            up: self.up,
            loopback: self.loopback,
            addresses: self.addresses@.map_values(|a: InterfaceAddress| a@),
        }
    }
}

/// An interface the collector reports from: up, not loopback, and holding
/// at least one address.
pub open spec fn iface_eligible(i: InterfaceInfoView) -> bool {
    i.up && !i.loopback && i.addresses.len() > 0
}

/// The first eligible interface of the enumeration, if any.
pub open spec fn pick_interface(ifs: Seq<InterfaceInfoView>) -> Option<InterfaceInfoView>
    decreases ifs.len(),
{
    if ifs.len() == 0 {
        None
    } else if iface_eligible(ifs[0]) {
        Some(ifs[0])
    } else {
        pick_interface(ifs.skip(1))
    }
}

/// The address texts of one family, in interface order.
pub open spec fn family_of(addrs: Seq<InterfaceAddressView>, want_v4: bool) -> Seq<Seq<char>>
    decreases addrs.len(),
{
    if addrs.len() == 0 {
        Seq::empty()
    } else {
        family_of(addrs.drop_last(), want_v4) + (if addrs.last().is_v4 == want_v4 {
            seq![addrs.last().text]
        } else {
            Seq::empty()
        })
    }
}

/// What the collector reports for one family: the matching addresses of
/// the first eligible interface, or nothing when no interface is eligible.
pub open spec fn addresses_spec(ifs: Seq<InterfaceInfoView>, want_v4: bool) -> Seq<Seq<char>> {
    match pick_interface(ifs) {
        None => Seq::empty(),
        Some(itf) => family_of(itf.addresses, want_v4),
    }
}

/// The selector names a family: a two-character word `v4` or `v6`, with
/// the leading letter in either case.
pub open spec fn is_family_word(v: Seq<char>, digit: char) -> bool {
    v.len() == 2 && (v[0] == 'v' || v[0] == 'V') && v[1] == digit
}

/// What an address query with the given selector yields: the first
/// eligible interface's addresses of the selected family, nothing for an
/// unknown selector.
pub open spec fn ipaddresses_spec(v: Seq<char>, ifs: Seq<InterfaceInfoView>) -> Seq<Seq<char>> {
    if is_family_word(v, '4') {
        addresses_spec(ifs, true)
    } else if is_family_word(v, '6') {
        addresses_spec(ifs, false)
    } else {
        Seq::empty()
    }
}

/// The identity value with a single trailing newline removed, if present.
pub open spec fn trim_newline(s: Seq<char>) -> Seq<char> {
    if s.len() > 0 && s.last() == '\n' {
        s.drop_last()
    } else {
        s
    }
}

fn collect_family(interfaces: &Vec<InterfaceInfo>, want_v4: bool) -> (r: Vec<String>)
    ensures
        r@.map_values(|s: String| s@) == addresses_spec(
            interfaces@.map_values(|i: InterfaceInfo| i@),
            want_v4,
        ),
{
    let ghost iview = interfaces@.map_values(|i: InterfaceInfo| i@);
    let n = interfaces.len();
    let mut idx: usize = 0;
    proof {
        assert(iview.skip(0) =~= iview);
    }
    while idx < n
        invariant
            n == interfaces@.len(),
            idx <= n,
            iview == interfaces@.map_values(|i: InterfaceInfo| i@),
            pick_interface(iview) == pick_interface(iview.skip(idx as int)),
            forall|j: int| 0 <= j < idx ==> !iface_eligible(iview[j]),
        decreases n - idx,
    {
        proof {
            assert(iview.skip(idx as int)[0] == iview[idx as int]);
            assert(iview.skip(idx as int).skip(1) =~= iview.skip(idx as int + 1));
            assert(iview[idx as int] == interfaces@[idx as int]@);
        }
        let itf = &interfaces[idx];
        if itf.up && !itf.loopback && itf.addresses.len() > 0 {
            proof {
                assert(iface_eligible(iview[idx as int]));
                assert(pick_interface(iview) == Some(iview[idx as int]));
            }
            let ghost aview = iview[idx as int].addresses;
            let m = itf.addresses.len();
            let mut out: Vec<String> = Vec::new();
            let mut j: usize = 0;
            proof {
                assert(aview.take(0) =~= Seq::<InterfaceAddressView>::empty());
                assert(out@.map_values(|s: String| s@) =~= Seq::<Seq<char>>::empty());
            }
            while j < m
                invariant
                    m == itf.addresses@.len(),
                    j <= m,
                    aview == itf@.addresses,
                    out@.map_values(|s: String| s@) == family_of(aview.take(j as int), want_v4),
                decreases m - j,
            {
                let ghost out_prev = out@.map_values(|s: String| s@);
                proof {
                    assert(aview.take(j as int + 1).drop_last() =~= aview.take(j as int));
                    assert(aview.take(j as int + 1).last() == aview[j as int]);
                    assert(aview[j as int] == itf.addresses@[j as int]@);
                }
                let a = &itf.addresses[j];
                if a.is_v4 == want_v4 {
                    out.push(a.text.clone());
                    proof {
                        assert(out@.map_values(|s: String| s@) =~= out_prev.push(
                            aview[j as int].text,
                        ));
                        assert(family_of(aview.take(j as int + 1), want_v4) =~= out_prev.push(
                            aview[j as int].text,
                        ));
                    }
                } else {
                    proof {
                        assert(family_of(aview.take(j as int + 1), want_v4) =~= out_prev);
                    }
                }
                j += 1;
            }
            proof {
                assert(aview.take(m as int) =~= aview);
            }
            return out;
        }
        idx += 1;
    }
    proof {
        assert(iview.skip(n as int) =~= Seq::<InterfaceInfoView>::empty());
    }
    Vec::new()
}

/// The host identity and interface addresses the agent announces.
pub struct SystemInfo {
    pub agent_id: String,
    pub hostname: String,
    pub ipv4_addresses: Vec<String>,
    pub ipv6_addresses: Vec<String>,
}

impl SystemInfo {
    /// Gathers the announcement from the values the caller read: the raw
    /// identity file content (trimmed of one trailing newline here), the
    /// hostname, and the interface enumeration, from which the first
    /// eligible interface's addresses are kept, split by family.
    pub fn new(machine_id: String, hostname: String, interfaces: &Vec<InterfaceInfo>) -> (r: Self)
        ensures
            r.agent_id@ == trim_newline(machine_id@),
            r.hostname == hostname,
            r.ipv4_addresses@.map_values(|s: String| s@) == addresses_spec(
                interfaces@.map_values(|i: InterfaceInfo| i@),
                true,
            ),
            r.ipv6_addresses@.map_values(|s: String| s@) == addresses_spec(
                interfaces@.map_values(|i: InterfaceInfo| i@),
                false,
            ),
    {
        let len = machine_id.as_str().unicode_len();
        let agent_id = if len > 0 && machine_id.as_str().get_char(len - 1) == '\n' {
            let trimmed = machine_id.as_str().substring_char(0, len - 1);
            proof {
                assert(trimmed@ =~= trim_newline(machine_id@));
            }
            String::from_str(trimmed)
        } else {
            machine_id
        };
        SystemInfo {
            agent_id,
            hostname,
            ipv4_addresses: collect_family(interfaces, true),
            ipv6_addresses: collect_family(interfaces, false),
        }
    }

    /// The addresses of the selected family (`v4` or `v6`, either case) on
    /// the first active, non-loopback interface that carries any; an
    /// unknown selector yields nothing.
    pub fn get_ipaddresses(v: &str, interfaces: &Vec<InterfaceInfo>) -> (r: Vec<String>)
        ensures
            r@.map_values(|s: String| s@) == ipaddresses_spec(
                v@,
                interfaces@.map_values(|i: InterfaceInfo| i@),
            ),
    {
        let len = v.unicode_len();
        if len != 2 {
            return Vec::new();
        }
        let c0 = v.get_char(0);
        let c1 = v.get_char(1);
        if (c0 == 'v' || c0 == 'V') && c1 == '4' {
            collect_family(interfaces, true)
        } else if (c0 == 'v' || c0 == 'V') && c1 == '6' {
            collect_family(interfaces, false)
        } else {
            Vec::new()
        }
    }
}

} // verus!
