//! Canonical discovery records and the discoverers that produce them.
//!
//! The record shape is stable: one observation of a host, with optional
//! service port, banner, MAC text, vendor and timestamp.  The live
//! sweep's results and the port scanner's reports are mapped into
//! records here.

use vstd::prelude::*;

use crate::ipv4::{spec_ipv4_str, format_ipv4};
use crate::mac::{spec_format_mac, format_mac};
use crate::portscan::PortResult;
use crate::MacAddr;

verus! {

/// A single discovery record: a host or service observation.
#[derive(Debug, Clone, PartialEq, Eq)]
pub struct DiscoveryRecord {
    /// The address, in dotted-quad text.
    pub ip: String,
    /// The observed service port, when one was scanned open.
    pub port: Option<u16>,
    /// A free-form banner or probe result.
    pub banner: Option<String>,
    /// The MAC address text, when resolved.
    pub mac: Option<String>,
    /// The vendor or manufacturer, when known.
    pub vendor: Option<String>,
    /// A timestamp from the source, when given.
    pub timestamp: Option<String>,
}

/// The mathematical value of an optional string.
pub open spec fn opt_view(o: Option<String>) -> Option<Seq<char>> {
    match o {
        Some(s) => Some(s@),
        None => None,
    }
}

/// The mathematical value of a record: its six fields, strings as
/// character sequences.
pub type RecordModel = (
    Seq<char>,
    Option<u16>,
    Option<Seq<char>>,
    Option<Seq<char>>,
    Option<Seq<char>>,
    Option<Seq<char>>,
);

impl DiscoveryRecord {
    /// The mathematical value of this record.
    pub open spec fn model(self) -> RecordModel {
        (
            self.ip@,
            self.port,
            opt_view(self.banner),
            opt_view(self.mac),
            opt_view(self.vendor),
            opt_view(self.timestamp),
        )
    }

    /// Construct a record from borrowed field values.
    pub fn new(
        ip: &str,
        port: Option<u16>,
        banner: Option<&str>,
        mac: Option<&str>,
        vendor: Option<&str>,
        timestamp: Option<&str>,
    ) -> (r: DiscoveryRecord)
        ensures
            r.ip@ == ip@,
            r.port == port,
            opt_view(r.banner) == spec_opt_str_view(banner),
            opt_view(r.mac) == spec_opt_str_view(mac),
            opt_view(r.vendor) == spec_opt_str_view(vendor),
            opt_view(r.timestamp) == spec_opt_str_view(timestamp),
    {
        DiscoveryRecord {
            ip: ip.to_owned(),
            port,
            banner: opt_str_owned(banner),
            mac: opt_str_owned(mac),
            vendor: opt_str_owned(vendor),
            timestamp: opt_str_owned(timestamp),
        }
    }

    /// Copy this record, field by field.
    pub fn duplicate(&self) -> (r: DiscoveryRecord)
        ensures
            r.model() == self.model(),
    {
        DiscoveryRecord {
            ip: clone_string(&self.ip),
            port: self.port,
            banner: opt_string_clone(&self.banner),
            mac: opt_string_clone(&self.mac),
            vendor: opt_string_clone(&self.vendor),
            timestamp: opt_string_clone(&self.timestamp),
        }
    }
}

/// The mathematical value of an optional string slice.
pub open spec fn spec_opt_str_view(o: Option<&str>) -> Option<Seq<char>> {
    match o {
        Some(s) => Some(s@),
        None => None,
    }
}

/// Turn an optional borrowed string into an owned one.
fn opt_str_owned(o: Option<&str>) -> (r: Option<String>)
    ensures
        opt_view(r) == spec_opt_str_view(o),
{
    match o {
        Some(s) => Some(s.to_owned()),
        None => None,
    }
}

/// Copy a string.
fn clone_string(s: &String) -> (r: String)
    ensures
        r@ == s@,
{
    s.clone()
}

/// Copy an optional string.
fn opt_string_clone(o: &Option<String>) -> (r: Option<String>)
    ensures
        opt_view(r) == opt_view(*o),
{
    match o {
        Some(s) => Some(clone_string(s)),
        None => None,
    }
}

/// A discoverer: performs discovery and returns canonical records.
pub trait Discover {
    /// The records this discoverer denotes.
    spec fn spec_discover(&self) -> Seq<RecordModel>;

    /// Perform discovery and return canonical records.
    fn discover(&self) -> (r: Vec<DiscoveryRecord>)
        ensures
            r@.map_values(|d: DiscoveryRecord| d.model()) == self.spec_discover(),
    ;
}

/// One source item of a simple discoverer:
/// (ip, port, banner, mac, vendor, timestamp).
pub type SimpleItem = (
    String,
    Option<u16>,
    Option<String>,
    Option<String>,
    Option<String>,
    Option<String>,
);

/// The record denoted by one source item.
pub open spec fn spec_item_model(it: SimpleItem) -> RecordModel {
    (it.0@, it.1, opt_view(it.2), opt_view(it.3), opt_view(it.4), opt_view(it.5))
}

/// A deterministic discoverer built from an explicit item list.
pub struct SimpleDiscover {
    /// The source items, one record each.
    pub items: Vec<SimpleItem>,
}

impl SimpleDiscover {
    /// Create a discoverer from its items.
    pub fn new(items: Vec<SimpleItem>) -> (r: SimpleDiscover)
        ensures
            r.items@ == items@,
    {
        SimpleDiscover { items }
    }
}

impl Discover for SimpleDiscover {
    open spec fn spec_discover(&self) -> Seq<RecordModel> {
        self.items@.map_values(|it: SimpleItem| spec_item_model(it))
    }

    fn discover(&self) -> (r: Vec<DiscoveryRecord>) {
        let n = self.items.len();
        let mut r: Vec<DiscoveryRecord> = Vec::new();
        let mut i: usize = 0;
        while i < n
            invariant
                n == self.items@.len(),
                i <= n,
                r@.len() == i,
                forall|j: int|
                    0 <= j < i ==> (#[trigger] r@[j]).model() == spec_item_model(self.items@[j]),
            decreases n - i,
        {
            let it: &SimpleItem = &self.items[i];
            let rec = DiscoveryRecord {
                ip: clone_string(&it.0),
                port: it.1,
                banner: opt_string_clone(&it.2),
                mac: opt_string_clone(&it.3),
                vendor: opt_string_clone(&it.4),
                timestamp: opt_string_clone(&it.5),
            };
            r.push(rec);
            i = i + 1;
        }
        proof {
            assert(r@.map_values(|d: DiscoveryRecord| d.model()) =~= self.spec_discover());
        }
        r
    }
}

/// Configuration of a live sweep: the range, the worker pool, the
/// active-probe switch and timeouts, and the optional port scan.
pub struct LiveArpDiscover {
    /// The CIDR range to sweep.
    pub cidr: String,
    /// How many workers resolve hosts concurrently.
    pub workers: usize,
    /// Whether the resolver may probe actively.
    pub perform_probe: bool,
    /// Per-lookup timeout, in seconds.
    pub timeout_secs: u64,
    /// Whether discovered hosts are port-scanned.
    pub portscan: bool,
    /// The ports to scan; the builtin list when absent.
    pub ports: Option<Vec<u16>>,
    /// How many connection attempts may be in flight at once.
    pub port_concurrency: usize,
    /// Per-port connection timeout, in seconds.
    pub port_timeout_secs: u64,
}

/// The mathematical value of a sweep configuration.
pub type LiveConfigModel = (Seq<char>, int, bool, int, bool, Option<Seq<u16>>, int, int);

impl LiveArpDiscover {
    /// The mathematical value of this configuration.
    pub open spec fn model(self) -> LiveConfigModel {
        (
            self.cidr@,
            self.workers as int,
            self.perform_probe,
            self.timeout_secs as int,
            self.portscan,
            match self.ports {
                Some(v) => Some(v@),
                None => None,
            },
            self.port_concurrency as int,
            self.port_timeout_secs as int,
        )
    }

    /// A sweep of `cidr` with the default settings: 64 workers, probe
    /// off, one-second timeouts, port scan off.
    pub fn new(cidr: &str) -> (r: LiveArpDiscover)
        ensures
            r.model() == (cidr@, 64int, false, 1int, false, None::<Seq<u16>>, 64int, 1int),
    {
        LiveArpDiscover {
            cidr: cidr.to_owned(),
            workers: 64,
            perform_probe: false,
            timeout_secs: 1,
            portscan: false,
            ports: None,
            port_concurrency: 64,
            port_timeout_secs: 1,
        }
    }

    /// Set the worker count.
    pub fn with_workers(self, w: usize) -> (r: LiveArpDiscover)
        ensures
            r.model() == (
                self.cidr@,
                w as int,
                self.perform_probe,
                self.timeout_secs as int,
                self.portscan,
                self.model().5,
                self.port_concurrency as int,
                self.port_timeout_secs as int,
            ),
    {
        LiveArpDiscover { workers: w, ..self }
    }

    /// Switch the active probe on or off.
    pub fn with_probe(self, probe: bool) -> (r: LiveArpDiscover)
        ensures
            r.model() == (
                self.cidr@,
                self.workers as int,
                probe,
                self.timeout_secs as int,
                self.portscan,
                self.model().5,
                self.port_concurrency as int,
                self.port_timeout_secs as int,
            ),
    {
        LiveArpDiscover { perform_probe: probe, ..self }
    }

    /// Set the per-lookup timeout, in seconds.
    pub fn with_timeout_secs(self, secs: u64) -> (r: LiveArpDiscover)
        ensures
            r.model() == (
                self.cidr@,
                self.workers as int,
                self.perform_probe,
                secs as int,
                self.portscan,
                self.model().5,
                self.port_concurrency as int,
                self.port_timeout_secs as int,
            ),
    {
        LiveArpDiscover { timeout_secs: secs, ..self }
    }

    /// Switch port scanning on or off (off by default).
    pub fn with_portscan(self, enabled: bool) -> (r: LiveArpDiscover)
        ensures
            r.model() == (
                self.cidr@,
                self.workers as int,
                self.perform_probe,
                self.timeout_secs as int,
                enabled,
                self.model().5,
                self.port_concurrency as int,
                self.port_timeout_secs as int,
            ),
    {
        LiveArpDiscover { portscan: enabled, ..self }
    }

    /// Set an explicit port list; with none, the builtin list is used.
    pub fn with_ports(self, ports: Option<Vec<u16>>) -> (r: LiveArpDiscover)
        ensures
            r.model() == (
                self.cidr@,
                self.workers as int,
                self.perform_probe,
                self.timeout_secs as int,
                self.portscan,
                match ports {
                    Some(v) => Some(v@),
                    None => None::<Seq<u16>>,
                },
                self.port_concurrency as int,
                self.port_timeout_secs as int,
            ),
    {
        LiveArpDiscover { ports, ..self }
    }

    /// Set the port-scan concurrency bound.
    pub fn with_port_concurrency(self, c: usize) -> (r: LiveArpDiscover)
        ensures
            r.model() == (
                self.cidr@,
                self.workers as int,
                self.perform_probe,
                self.timeout_secs as int,
                self.portscan,
                self.model().5,
                c as int,
                self.port_timeout_secs as int,
            ),
    {
        LiveArpDiscover { port_concurrency: c, ..self }
    }

    /// Set the per-port timeout, in seconds.
    pub fn with_port_timeout_secs(self, secs: u64) -> (r: LiveArpDiscover)
        ensures
            r.model() == (
                self.cidr@,
                self.workers as int,
                self.perform_probe,
                self.timeout_secs as int,
                self.portscan,
                self.model().5,
                self.port_concurrency as int,
                secs as int,
            ),
    {
        LiveArpDiscover { port_timeout_secs: secs, ..self }
    }
}

/// The record of one sweep result: the address as dotted-quad text,
/// the MAC formatted colon-delimited when resolved, nothing else.
pub open spec fn spec_sweep_record(ip: u32, mac: Option<MacAddr>) -> RecordModel {
    (
        spec_ipv4_str(ip),
        None::<u16>,
        None::<Seq<char>>,
        match mac {
            Some(m) => Some(spec_format_mac(m@, ':')),
            None => None,
        },
        None::<Seq<char>>,
        None::<Seq<char>>,
    )
}

/// Map the sweep's aggregate into canonical records, one per host, in
/// order.
pub fn records_from_sweep(results: &Vec<(u32, Option<MacAddr>)>) -> (r: Vec<DiscoveryRecord>)
    ensures
        r@.len() == results@.len(),
        forall|i: int|
            0 <= i < r@.len() ==> (#[trigger] r@[i]).model() == spec_sweep_record(
                results@[i].0,
                results@[i].1,
            ),
{
    let n = results.len();
    let mut r: Vec<DiscoveryRecord> = Vec::new();
    let mut i: usize = 0;
    while i < n
        invariant
            n == results@.len(),
            i <= n,
            r@.len() == i,
            forall|j: int|
                0 <= j < i ==> (#[trigger] r@[j]).model() == spec_sweep_record(
                    results@[j].0,
                    results@[j].1,
                ),
        decreases n - i,
    {
        let (ip, mac) = results[i];
        let mac_str = match &mac {
            Some(m) => Some(format_mac(m)),
            None => None,
        };
        let rec = DiscoveryRecord {
            ip: format_ipv4(ip),
            port: None,
            banner: None,
            mac: mac_str,
            vendor: None,
            timestamp: None,
        };
        r.push(rec);
        i = i + 1;
    }
    r
}

/// The record of one open port on a host: the host record with the
/// port and its banner filled in.
pub open spec fn spec_port_record(host: RecordModel, p: PortResult) -> RecordModel {
    (host.0, Some(p.port), opt_view(p.banner), host.3, host.4, host.5)
}

/// Expand one host record by its port-scan report: one record per open
/// port, with that port and its banner; a host with no open port keeps
/// its single host record.
pub fn expand_open_ports(rec: &DiscoveryRecord, report: &Vec<PortResult>) -> (r: Vec<
    DiscoveryRecord,
>)
    ensures
        ({
            let opens = report@.filter(|p: PortResult| p.open);
            &&& opens.len() == 0 ==> r@.len() == 1 && r@[0].model() == rec.model()
            &&& opens.len() > 0 ==> r@.len() == opens.len() && (forall|i: int|
                0 <= i < r@.len() ==> (#[trigger] r@[i]).model() == spec_port_record(
                    rec.model(),
                    opens[i],
                ))
        }),
{
    broadcast use vstd::seq_lib::group_filter_ensures, Seq::lemma_filter_push;

    let pred = |p: PortResult| p.open;
    let n = report.len();
    let mut out: Vec<DiscoveryRecord> = Vec::new();
    let mut i: usize = 0;
    proof {
        assert(report@.take(0) =~= Seq::<PortResult>::empty());
    }
    while i < n
        invariant
            n == report@.len(),
            i <= n,
            out@.len() == report@.take(i as int).filter(|p: PortResult| p.open).len(),
            forall|j: int|
                0 <= j < out@.len() ==> (#[trigger] out@[j]).model() == spec_port_record(
                    rec.model(),
                    report@.take(i as int).filter(|p: PortResult| p.open)[j],
                ),
        decreases n - i,
    {
        let p: &PortResult = &report[i];
        proof {
            assert(report@.take(i + 1) =~= report@.take(i as int).push(report@[i as int]));
            report@.take(i as int).lemma_filter_push(report@[i as int], |p: PortResult| p.open);
        }
        if p.open {
            let mut one = rec.duplicate();
            one.port = Some(p.port);
            one.banner = opt_string_clone(&p.banner);
            out.push(one);
        }
        i = i + 1;
    }
    proof {
        assert(report@.take(n as int) =~= report@);
    }
    if out.len() == 0 {
        let mut single: Vec<DiscoveryRecord> = Vec::new();
        single.push(rec.duplicate());
        return single;
    }
    out
}

} // verus!
