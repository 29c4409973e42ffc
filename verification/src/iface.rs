//! Network interfaces: the system's interface list, modelled with
//! plain values, and verified selection over it.
//!
//! The platform enumeration itself comes from the datalink library; its
//! per-interface data is converted to plain values at that boundary and
//! everything that chooses among interfaces is verified.

use vstd::prelude::*;

use crate::ipv4::{spec_parse_ipv4, parse_ipv4};
use crate::strutil::{spec_contains, contains_str, str_eq, starts_with_str, spec_starts_with};
use crate::ports::{spec_find_char, find_char};
use crate::MacAddr;

verus! {

/// A network interface of the system, as plain values.
pub struct NetworkInterface {
    /// The interface name.
    pub name: String,
    /// The operating-system interface index.
    pub index: u32,
    /// The interface's MAC address, when it has one.
    pub mac: Option<MacAddr>,
    /// The interface's first IPv4 address, when it has one.
    pub ipv4: Option<u32>,
    /// Whether the interface is up.
    pub up: bool,
}

impl NetworkInterface {
    /// The mathematical value of this interface.
    pub open spec fn model(self) -> (Seq<char>, u32, Option<Seq<u8>>, Option<u32>, bool) {
        (
            self.name@,
            self.index,
            match self.mac {
                Some(m) => Some(m@),
                None => None,
            },
            self.ipv4,
            self.up,
        )
    }

    /// Copy this interface.
    pub fn duplicate(&self) -> (r: NetworkInterface)
        ensures
            r.model() == self.model(),
    {
        NetworkInterface {
            name: clone_str(&self.name),
            index: self.index,
            mac: self.mac,
            ipv4: self.ipv4,
            up: self.up,
        }
    }
}

/// Copy a string.
fn clone_str(s: &String) -> (r: String)
    ensures
        r@ == s@,
{
    s.clone()
}

/// Errors of interface resolution.
#[derive(Debug, Clone, PartialEq, Eq)]
pub enum IfaceError {
    /// No interface of the requested identity exists.
    NotFound,
    /// No interface is up with an IPv4 address.
    NoUpInterface,
    /// An input/output failure, with its message.
    Io(String),
    /// A platform-specific failure, with its message.
    Platform(String),
    /// The operation was not permitted, with the diagnostic.
    PermissionDenied(String),
    /// The interface exists but cannot be used, with the reason.
    InvalidInterface(String),
    /// Any other failure, with its message.
    Other(String),
}

/// One interface as the platform reports it: name, index, MAC, the
/// text of each of its networks (`address/prefix`), and the up flag.
pub type RawInterface = (String, u32, Option<MacAddr>, Vec<String>, bool);

/// Relies on the datalink library's interface enumeration: one entry
/// per system interface, with its name, index, MAC bytes, network list
/// (each network formatted as `address/prefix` text) and up flag.
/// What comes back depends on the machine.
#[verifier::external_body]
fn system_interfaces() -> (r: Vec<RawInterface>) {
    pnet_datalink::interfaces()
        .into_iter()
        .map(
            |i| {
                let up = i.is_up();
                let nets: Vec<String> = i.ips.iter().map(|n| n.to_string()).collect();
                (i.name, i.index, i.mac.map(|m| m.octets()), nets, up)
            },
        )
        .collect()
}

/// The IPv4 address a network text denotes: the dotted quad before the
/// slash (or the whole text without one).
pub open spec fn spec_net_text_v4(t: Seq<char>) -> Option<u32> {
    match spec_find_char(t, '/') {
        Some(i) => spec_parse_ipv4(t.take(i)),
        None => spec_parse_ipv4(t),
    }
}

/// The first IPv4 address among a list of network texts.
pub open spec fn spec_first_v4(ts: Seq<Seq<char>>) -> Option<u32>
    decreases ts.len(),
{
    if ts.len() == 0 {
        None
    } else if spec_net_text_v4(ts[0]) is Some {
        spec_net_text_v4(ts[0])
    } else {
        spec_first_v4(ts.drop_first())
    }
}

/// The IPv4 address of one network text.
fn net_text_v4(t: &str) -> (r: Option<u32>)
    ensures
        r == spec_net_text_v4(t@),
{
    let n = t.unicode_len();
    match find_char(t, '/') {
        Some(i) => {
            let head = t.substring_char(0, i);
            proof {
                assert(head@ =~= t@.take(i as int));
            }
            parse_ipv4(head)
        },
        None => parse_ipv4(t),
    }
}

/// The first IPv4 address among network texts.
fn first_v4(ts: &Vec<String>) -> (r: Option<u32>)
    ensures
        r == spec_first_v4(crate::strutil::views_of(ts@)),
{
    let n = ts.len();
    let ghost tvs = crate::strutil::views_of(ts@);
    let mut i: usize = 0;
    proof {
        assert(tvs.skip(0) =~= tvs);
    }
    while i < n
        invariant
            n == ts@.len(),
            tvs == crate::strutil::views_of(ts@),
            i <= n,
            spec_first_v4(tvs) == spec_first_v4(tvs.skip(i as int)),
        decreases n - i,
    {
        let t: &String = &ts[i];
        proof {
            assert(t@ == tvs[i as int]);
            assert(tvs.skip(i as int)[0] == tvs[i as int]);
            assert(tvs.skip(i as int).drop_first() =~= tvs.skip(i + 1));
        }
        match net_text_v4(t.as_str()) {
            Some(ip) => {
                return Some(ip);
            },
            None => {},
        }
        i = i + 1;
    }
    proof {
        assert(tvs.skip(n as int) =~= Seq::<Seq<char>>::empty());
    }
    None
}

/// Build the interface value of one platform entry: the fields are
/// carried over and the IPv4 address is the first one its network
/// texts denote.
fn interface_of_raw(raw: &RawInterface) -> (r: NetworkInterface)
    ensures
        r.name@ == raw.0@,
        r.index == raw.1,
        r.mac == raw.2,
        r.ipv4 == spec_first_v4(crate::strutil::views_of(raw.3@)),
        r.up == raw.4,
{
    NetworkInterface {
        name: clone_str(&raw.0),
        index: raw.1,
        mac: raw.2,
        ipv4: first_v4(&raw.3),
        up: raw.4,
    }
}

/// List the system's network interfaces.  Enumeration itself cannot
/// fail; what it holds depends on the machine.
pub fn list_interfaces() -> (r: Result<Vec<NetworkInterface>, IfaceError>)
    ensures
        r is Ok,
{
    let raw = system_interfaces();
    let n = raw.len();
    let mut out: Vec<NetworkInterface> = Vec::new();
    let mut i: usize = 0;
    while i < n
        invariant
            n == raw@.len(),
            i <= n,
        decreases n - i,
    {
        let iface = interface_of_raw(&raw[i]);
        out.push(iface);
        i = i + 1;
    }
    Ok(out)
}

/// The position of the first interface that is up, has an IPv4
/// address, and is not a loopback.
pub open spec fn spec_default_pos(ifs: Seq<NetworkInterface>) -> Option<int>
    decreases ifs.len(),
{
    if ifs.len() == 0 {
        None
    } else if ifs[0].up && ifs[0].ipv4 is Some && !spec_starts_with(ifs[0].name@, "lo"@) {
        Some(0int)
    } else {
        match spec_default_pos(ifs.drop_first()) {
            Some(i) => Some(i + 1),
            None => None,
        }
    }
}

/// Find the default interface in a list: the first one up, with IPv4,
/// not loopback.
pub fn find_default(ifs: &Vec<NetworkInterface>) -> (r: Option<usize>)
    ensures
        r matches Some(i) ==> spec_default_pos(ifs@) == Some(i as int) && i < ifs@.len(),
        r is None ==> spec_default_pos(ifs@) is None,
{
    let n = ifs.len();
    let mut i: usize = 0;
    while i < n
        invariant
            n == ifs@.len(),
            i <= n,
            forall|j: int|
                0 <= j < i ==> !((#[trigger] ifs@[j]).up && ifs@[j].ipv4 is Some
                    && !spec_starts_with(ifs@[j].name@, "lo"@)),
        decreases n - i,
    {
        let f: &NetworkInterface = &ifs[i];
        if f.up && f.ipv4.is_some() && !starts_with_str(f.name.as_str(), "lo") {
            proof {
                lemma_default_pos_at(ifs@, i as int);
            }
            return Some(i);
        }
        i = i + 1;
    }
    proof {
        lemma_default_pos_none(ifs@);
    }
    None
}

/// A position that qualifies, below which none does, is the default
/// position.
proof fn lemma_default_pos_at(ifs: Seq<NetworkInterface>, i: int)
    requires
        0 <= i < ifs.len(),
        ifs[i].up && ifs[i].ipv4 is Some && !spec_starts_with(ifs[i].name@, "lo"@),
        forall|j: int|
            0 <= j < i ==> !((#[trigger] ifs[j]).up && ifs[j].ipv4 is Some && !spec_starts_with(
                ifs[j].name@,
                "lo"@,
            )),
    ensures
        spec_default_pos(ifs) == Some(i),
    decreases i,
{
    if i > 0 {
        assert(forall|j: int|
            0 <= j < i - 1 ==> ifs.drop_first()[j] == ifs[j + 1]);
        lemma_default_pos_at(ifs.drop_first(), i - 1);
    }
}

/// With no qualifying interface there is no default position.
proof fn lemma_default_pos_none(ifs: Seq<NetworkInterface>)
    requires
        forall|j: int|
            0 <= j < ifs.len() ==> !((#[trigger] ifs[j]).up && ifs[j].ipv4 is Some
                && !spec_starts_with(ifs[j].name@, "lo"@)),
    ensures
        spec_default_pos(ifs) is None,
    decreases ifs.len(),
{
    if ifs.len() > 0 {
        assert(forall|j: int|
            0 <= j < ifs.drop_first().len() ==> ifs.drop_first()[j] == ifs[j + 1]);
        lemma_default_pos_none(ifs.drop_first());
    }
}

/// The system's primary interface: the first one up, with an IPv4
/// address, and not a loopback.
pub fn get_default_interface() -> (r: Result<NetworkInterface, IfaceError>)
    ensures
        r matches Ok(i) ==> i.up && i.ipv4 is Some && !spec_starts_with(i.name@, "lo"@),
        r matches Err(e) ==> e == IfaceError::NoUpInterface,
{
    let ifs = match list_interfaces() {
        Ok(v) => v,
        Err(_) => {
            return Err(IfaceError::NoUpInterface);
        },
    };
    match find_default(&ifs) {
        Some(i) => {
            proof {
                lemma_default_pos_props(ifs@, i as int);
            }
            Ok(ifs[i].duplicate())
        },
        None => Err(IfaceError::NoUpInterface),
    }
}

/// The interface at the default position qualifies.
proof fn lemma_default_pos_props(ifs: Seq<NetworkInterface>, i: int)
    requires
        spec_default_pos(ifs) == Some(i),
    ensures
        0 <= i < ifs.len(),
        ifs[i].up && ifs[i].ipv4 is Some && !spec_starts_with(ifs[i].name@, "lo"@),
    decreases ifs.len(),
{
    if ifs.len() > 0 {
        if !(ifs[0].up && ifs[0].ipv4 is Some && !spec_starts_with(ifs[0].name@, "lo"@)) {
            lemma_default_pos_props(ifs.drop_first(), i - 1);
        }
    }
}

/// Find an interface by name.
pub fn get_interface_by_name(name: &str) -> (r: Result<NetworkInterface, IfaceError>)
    ensures
        r matches Ok(i) ==> i.name@ == name@,
        r matches Err(e) ==> e == IfaceError::NotFound,
{
    let ifs = match list_interfaces() {
        Ok(v) => v,
        Err(_) => {
            return Err(IfaceError::NotFound);
        },
    };
    let n = ifs.len();
    let mut i: usize = 0;
    while i < n
        invariant
            n == ifs@.len(),
            i <= n,
        decreases n - i,
    {
        if str_eq(ifs[i].name.as_str(), name) {
            return Ok(ifs[i].duplicate());
        }
        i = i + 1;
    }
    Err(IfaceError::NotFound)
}

/// Find an interface by operating-system index.
pub fn get_interface_by_index(index: u32) -> (r: Result<NetworkInterface, IfaceError>)
    ensures
        r matches Ok(i) ==> i.index == index,
        r matches Err(e) ==> e == IfaceError::NotFound,
{
    let ifs = match list_interfaces() {
        Ok(v) => v,
        Err(_) => {
            return Err(IfaceError::NotFound);
        },
    };
    let n = ifs.len();
    let mut i: usize = 0;
    while i < n
        invariant
            n == ifs@.len(),
            i <= n,
        decreases n - i,
    {
        if ifs[i].index == index {
            return Ok(ifs[i].duplicate());
        }
        i = i + 1;
    }
    Err(IfaceError::NotFound)
}

/// Whether two MAC addresses hold the same bytes.
pub fn mac_eq(a: &MacAddr, b: &MacAddr) -> (r: bool)
    ensures
        r == (a@ =~= b@),
{
    broadcast use vstd::array::group_array_axioms;

    let r = a[0] == b[0] && a[1] == b[1] && a[2] == b[2] && a[3] == b[3] && a[4] == b[4] && a[5]
        == b[5];
    proof {
        if r {
            assert(a@ =~= b@);
        }
    }
    r
}

/// Find an interface by MAC address.
pub fn get_interface_by_mac(mac: MacAddr) -> (r: Result<NetworkInterface, IfaceError>)
    ensures
        r matches Ok(i) ==> i.mac matches Some(m) && m@ == mac@,
        r matches Err(e) ==> e == IfaceError::NotFound,
{
    let ifs = match list_interfaces() {
        Ok(v) => v,
        Err(_) => {
            return Err(IfaceError::NotFound);
        },
    };
    let n = ifs.len();
    let mut i: usize = 0;
    while i < n
        invariant
            n == ifs@.len(),
            i <= n,
        decreases n - i,
    {
        match &ifs[i].mac {
            Some(m) => {
                if mac_eq(m, &mac) {
                    return Ok(ifs[i].duplicate());
                }
            },
            None => {},
        }
        i = i + 1;
    }
    Err(IfaceError::NotFound)
}

/// Find an interface by IPv4 address.
pub fn get_interface_by_ipv4(ipv4: u32) -> (r: Result<NetworkInterface, IfaceError>)
    ensures
        r matches Ok(i) ==> i.ipv4 == Some(ipv4),
        r matches Err(e) ==> e == IfaceError::NotFound,
{
    let ifs = match list_interfaces() {
        Ok(v) => v,
        Err(_) => {
            return Err(IfaceError::NotFound);
        },
    };
    let n = ifs.len();
    let mut i: usize = 0;
    while i < n
        invariant
            n == ifs@.len(),
            i <= n,
        decreases n - i,
    {
        match ifs[i].ipv4 {
            Some(ip) => {
                if ip == ipv4 {
                    return Ok(ifs[i].duplicate());
                }
            },
            None => {},
        }
        i = i + 1;
    }
    Err(IfaceError::NotFound)
}

/// Find an interface by name when one is given, else by index.
pub fn get_interface_by_name_or_index(name: Option<&str>, index: Option<u32>) -> (r: Result<
    NetworkInterface,
    IfaceError,
>)
    ensures
        r matches Ok(i) ==> (match (name, index) {
            (Some(nm), _) => i.name@ == nm@,
            (None, Some(ix)) => i.index == ix,
            (None, None) => false,
        }),
        r matches Err(e) ==> e == IfaceError::NotFound,
{
    match name {
        Some(nm) => get_interface_by_name(nm),
        None => match index {
            Some(ix) => get_interface_by_index(ix),
            None => Err(IfaceError::NotFound),
        },
    }
}

/// Find an interface by MAC when one is given, else by IPv4 address.
pub fn get_interface_by_mac_or_ipv4(mac: Option<MacAddr>, ipv4: Option<u32>) -> (r: Result<
    NetworkInterface,
    IfaceError,
>)
    ensures
        r matches Ok(i) ==> (match (mac, ipv4) {
            (Some(m), _) => i.mac matches Some(im) && im@ == m@,
            (None, Some(ip)) => i.ipv4 == Some(ip),
            (None, None) => false,
        }),
        r matches Err(e) ==> e == IfaceError::NotFound,
{
    match mac {
        Some(m) => get_interface_by_mac(m),
        None => match ipv4 {
            Some(ip) => get_interface_by_ipv4(ip),
            None => Err(IfaceError::NotFound),
        },
    }
}

/// Find an interface by the first given identity: name, index, MAC, or
/// IPv4 address.
pub fn get_interface_by_name_index_mac_ipv4(
    name: Option<&str>,
    index: Option<u32>,
    mac: Option<MacAddr>,
    ipv4: Option<u32>,
) -> (r: Result<NetworkInterface, IfaceError>)
    ensures
        r matches Ok(i) ==> (match (name, index, mac, ipv4) {
            (Some(nm), _, _, _) => i.name@ == nm@,
            (None, Some(ix), _, _) => i.index == ix,
            (None, None, Some(m), _) => i.mac matches Some(im) && im@ == m@,
            (None, None, None, Some(ip)) => i.ipv4 == Some(ip),
            (None, None, None, None) => false,
        }),
        r matches Err(e) ==> e == IfaceError::NotFound,
{
    match name {
        Some(nm) => get_interface_by_name(nm),
        None => match index {
            Some(ix) => get_interface_by_index(ix),
            None => get_interface_by_mac_or_ipv4(mac, ipv4),
        },
    }
}

/// Resolve an interface name: the given one, else the default
/// interface's; empty when no default interface exists.
pub fn resolve_iface_name(interface: &Option<String>) -> (r: String)
    ensures
        interface matches Some(n) ==> r@ == n@,
{
    match interface {
        Some(name) => clone_str(name),
        None => match get_default_interface() {
            Ok(i) => i.name,
            Err(_) => String::new(),
        },
    }
}

/// The default network's range: the default interface's IPv4 address
/// with the prefix length of the network it belongs to, or a 24-bit
/// prefix when no network of that address is listed.
pub fn get_default_cidr() -> (r: Result<(u32, u8), IfaceError>)
    ensures
        r matches Ok(t) ==> t.1 <= 32,
        r matches Err(e) ==> e == IfaceError::NoUpInterface,
{
    let dflt = match get_default_interface() {
        Ok(i) => i,
        Err(_) => {
            return Err(IfaceError::NoUpInterface);
        },
    };
    let ipv4 = match dflt.ipv4 {
        Some(ip) => ip,
        None => {
            return Err(IfaceError::NoUpInterface);
        },
    };
    let raw = system_interfaces();
    let n = raw.len();
    let mut i: usize = 0;
    while i < n
        invariant
            n == raw@.len(),
            i <= n,
        decreases n - i,
    {
        if str_eq(raw[i].0.as_str(), dflt.name.as_str()) {
            match net_prefix_for(&raw[i].3, ipv4) {
                Some(p) => {
                    return Ok((ipv4, p));
                },
                None => {},
            }
        }
        i = i + 1;
    }
    Ok((ipv4, 24))
}

/// The prefix of the first network text whose address is `ip` and
/// whose prefix parses to at most 32.
fn net_prefix_for(ts: &Vec<String>, ip: u32) -> (r: Option<u8>)
    ensures
        r matches Some(p) ==> p <= 32,
{
    let n = ts.len();
    let mut i: usize = 0;
    while i < n
        invariant
            n == ts@.len(),
            i <= n,
        decreases n - i,
    {
        let t: &String = &ts[i];
        let tlen = t.as_str().unicode_len();
        match find_char(t.as_str(), '/') {
            Some(cut) => {
                let head = t.as_str().substring_char(0, cut);
                let tail = t.as_str().substring_char(cut + 1, tlen);
                match parse_ipv4(head) {
                    Some(addr) => {
                        if addr == ip {
                            match crate::strutil::parse_dec_u64(tail, 32) {
                                Some(p) => {
                                    return Some(p as u8);
                                },
                                None => {},
                            }
                        }
                    },
                    None => {},
                }
            },
            None => {},
        }
        i = i + 1;
    }
    None
}

/// The little-endian byte swap of a 32-bit value: the kernel's route
/// table prints gateway addresses as host-order hexadecimal.
pub open spec fn spec_swap_bytes(v: u32) -> int {
    (v as int % 0x100) * 0x1000000 + ((v as int / 0x100) % 0x100) * 0x10000 + ((v as int / 0x10000)
        % 0x100) * 0x100 + (v as int / 0x1000000)
}

/// The gateway of one kernel route-table line: at least three fields,
/// an all-zero destination, and a hexadecimal gateway field, whose
/// bytes are read little-endian.
pub open spec fn spec_gateway_line(l: Seq<char>) -> Option<u32> {
    let ws = crate::strutil::spec_words(l);
    if ws.len() >= 3 && ws[1] == "00000000"@ && ws[2].len() > 0 && crate::strutil::spec_all_hex(
        ws[2],
    ) && crate::strutil::spec_hex_val(ws[2]) <= u32::MAX {
        Some(spec_swap_bytes(crate::strutil::spec_hex_val(ws[2]) as u32) as u32)
    } else {
        None
    }
}

/// The default gateway that kernel route-table text denotes: the first
/// line after the header with an all-zero destination and a readable
/// gateway field.
pub open spec fn spec_default_gateway(s: Seq<char>) -> Option<u32> {
    crate::neighbors::spec_first_some(
        crate::neighbors::spec_lines(s).skip(1),
        |l: Seq<char>| spec_gateway_line(l),
    )
}

/// Parse kernel route-table text (header line first) for the default
/// gateway address.  Malformed lines are skipped.
pub fn parse_default_gateway(content: &str) -> (r: Option<u32>)
    ensures
        r == spec_default_gateway(content@),
{
    let ls = crate::neighbors::lines_of(content);
    let ghost lviews = crate::neighbors::spec_lines(content@);
    let ghost f = |l: Seq<char>| spec_gateway_line(l);
    let n = ls.len();
    let mut i: usize = 1;
    proof {
        assert(lviews.skip(1).skip(0) =~= lviews.skip(1));
    }
    while i < n
        invariant
            n == ls@.len(),
            lviews == crate::neighbors::spec_lines(content@),
            lviews == crate::strutil::views_of(ls@),
            1 <= i <= n || (n == 0 && i == 1),
            f == (|l: Seq<char>| spec_gateway_line(l)),
            crate::neighbors::spec_first_some(lviews.skip(1), f)
                == crate::neighbors::spec_first_some(lviews.skip(i as int), f),
        decreases n - i,
    {
        let line: &String = &ls[i];
        proof {
            assert(line@ == lviews[i as int]);
            assert(lviews.skip(i as int)[0] == lviews[i as int]);
            assert(lviews.skip(i as int).drop_first() =~= lviews.skip(i + 1));
        }
        let ws = crate::strutil::words(line.as_str());
        proof {
            assert(crate::strutil::views_of(ws@) == crate::strutil::spec_words(line@));
        }
        if ws.len() >= 3 {
            proof {
                assert(crate::strutil::views_of(ws@)[1] == ws@[1]@);
                assert(crate::strutil::views_of(ws@)[2] == ws@[2]@);
            }
            if str_eq(ws[1].as_str(), "00000000") {
                match crate::strutil::parse_hex_u64(ws[2].as_str(), 0xFFFF_FFFFu64) {
                    Some(v) => {
                        proof {
                            crate::strutil::lemma_hex_val_nonneg(ws@[2]@);
                        }
                        let v = v as u32;
                        let swapped: u32 = (v % 0x100) * 0x1000000 + ((v / 0x100) % 0x100)
                            * 0x10000 + ((v / 0x10000) % 0x100) * 0x100 + v / 0x1000000;
                        return Some(swapped);
                    },
                    None => {},
                }
            }
        }
        i = i + 1;
    }
    proof {
        if n == 0 {
            assert(lviews.skip(1).len() == 0);
        } else {
            assert(lviews.skip(n as int) =~= Seq::<Seq<char>>::empty());
        }
    }
    None
}

/// Whether an interface is unmanaged, judged from the gathered
/// evidence: managed when a lease file exists or the network manager's
/// report mentions a DHCP lease.
pub fn unmanaged_verdict(lease_found: bool, manager_report: Option<&str>) -> (r: bool)
    ensures
        r == !(lease_found || (manager_report matches Some(o) && spec_contains(o@, "DHCP4"@))),
{
    if lease_found {
        return false;
    }
    match manager_report {
        Some(o) => !contains_str(o, "DHCP4"),
        None => true,
    }
}

} // verus!
