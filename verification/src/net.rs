//! The network: interfaces, ports, routes and connections.

use vstd::prelude::*;

use crate::number;
use crate::text;

pub mod addr;
pub mod addr_laws;
pub mod conn;
pub mod laws;
pub mod ports;
pub mod view;
pub mod view_laws;

pub use addr::{fmt_ip_port, ipv4_from_hex, ipv6_from_hex, IpAddr, Ipv4Addr, Ipv6Addr};
pub use conn::{parse_local, parse_net_conns, Proto, RawConn};
pub use view::{format_rate, print, print_interface, print_ports, print_rates};
pub use ports::{collect_ports, socket_inode, socket_process_map, tcp_counts, Port, Proc, Tables};

verus! {

/// How long the rates are sampled, in seconds.
pub const SAMPLE_SECS: u64 = 1;

/// A picture of the network.
#[derive(Debug)]
pub struct NetInfo {
    pub hostname: String,
    /// How long the rates were sampled, in seconds.
    pub sample_secs: u64,
    /// The bytes per second of all interfaces but the loopback, received and sent.
    pub total_rx_rate: u64,
    pub total_tx_rate: u64,
    /// The bytes of all interfaces but the loopback since the machine was started.
    pub total_rx: u64,
    pub total_tx: u64,
    pub interfaces: Vec<Interface>,
    /// The ports that are listened on or bound, by number.
    pub ports: Vec<Port>,
    /// How many TCP sockets listen, are connected, and are there at all.
    pub tcp_listen: usize,
    pub tcp_established: usize,
    pub tcp_total: usize,
    pub gateway: Option<Gateway>,
    pub dns: Vec<String>,
}

/// A network interface.
#[derive(Debug)]
pub struct Interface {
    pub name: String,
    pub mac: String,
    /// The addresses, each with the length of its prefix.
    pub ips: Vec<String>,
    pub rx_rate: u64,
    pub tx_rate: u64,
    pub total_rx: u64,
    pub total_tx: u64,
    pub is_loopback: bool,
}

/// The default gateway.
#[derive(Debug)]
pub struct Gateway {
    pub iface: String,
    pub addr: Ipv4Addr,
}

/// What a picture of the network is made of; a text that could not be read is none.
#[derive(Debug)]
pub struct Sources {
    pub hostname: Option<String>,
    pub interfaces: Vec<Interface>,
    /// The interfaces to take where there are no others.
    pub fallback: Vec<Interface>,
    pub tables: Tables,
    pub procs: Vec<Proc>,
    pub route: Option<String>,
    pub resolv: Option<String>,
}

/// One of the numbers that an interface counts.
#[derive(Clone, Copy, Debug, PartialEq, Eq, Structural)]
pub enum Counter {
    RxRate,
    TxRate,
    Rx,
    Tx,
}

/// A number that an interface counts.
pub open spec fn count_of(i: Interface, c: Counter) -> u64 {
    match c {
        Counter::RxRate => i.rx_rate,
        Counter::TxRate => i.tx_rate,
        Counter::Rx => i.total_rx,
        Counter::Tx => i.total_tx,
    }
}

/// What all interfaces but the loopback count together.
pub open spec fn total_of(v: Seq<Interface>, c: Counter) -> nat
    decreases v.len(),
{
    if v.len() == 0 {
        0
    } else {
        total_of(v.drop_last(), c) + if v.last().is_loopback {
            0
        } else {
            count_of(v.last(), c) as nat
        }
    }
}

/// The name of the machine.
pub open spec fn hostname_in(content: Option<Seq<char>>) -> Seq<char> {
    match content {
        Some(s) => text::trimmed(s),
        None => "unknown"@,
    }
}

/// Whether a line is that of the default route: to everywhere, over a gateway.
pub open spec fn is_default_route(line: Seq<char>) -> bool {
    let f = text::words_of(line);
    f.len() >= 3 && f[1] == "00000000"@ && f[2] != "00000000"@
}

/// The interface and the address of the gateway on the first line with the default route; none if
/// the address there cannot be read.
pub open spec fn gateway_on(lines: Seq<Seq<char>>) -> Option<(Seq<char>, Seq<u8>)>
    decreases lines.len(),
{
    if lines.len() == 0 {
        None
    } else if is_default_route(lines[0]) {
        match addr::ipv4_in(text::words_of(lines[0])[2]) {
            Some(a) => Some((text::words_of(lines[0])[0], a)),
            None => None,
        }
    } else {
        gateway_on(lines.drop_first())
    }
}

/// The default gateway in a table of routes.
pub open spec fn gateway_in(content: Option<Seq<char>>) -> Option<(Seq<char>, Seq<u8>)> {
    match content {
        Some(c) => gateway_on(conn::below_head(text::lines_of(c))),
        None => None,
    }
}

/// What a gateway holds.
pub open spec fn gateway_view(g: Option<Gateway>) -> Option<(Seq<char>, Seq<u8>)> {
    match g {
        Some(x) => Some((x.iface@, x.addr@)),
        None => None,
    }
}

/// The name server on a line.
pub open spec fn server_on(line: Seq<char>) -> Option<Seq<char>> {
    let t = text::trimmed(line);
    if text::has_prefix(t, "nameserver"@) {
        let server = text::trimmed(t.skip("nameserver"@.len() as int));
        if server.len() == 0 {
            None
        } else {
            Some(server)
        }
    } else {
        None
    }
}

/// The name servers on lines.
pub open spec fn servers_on(lines: Seq<Seq<char>>) -> Seq<Seq<char>>
    decreases lines.len(),
{
    if lines.len() == 0 {
        Seq::empty()
    } else {
        match server_on(lines.last()) {
            Some(s) => servers_on(lines.drop_last()).push(s),
            None => servers_on(lines.drop_last()),
        }
    }
}

/// The name servers in a configuration.
pub open spec fn servers_in(content: Option<Seq<char>>) -> Seq<Seq<char>> {
    match content {
        Some(c) => servers_on(text::lines_of(c)),
        None => Seq::empty(),
    }
}

/// The address of version 6, with the length of its prefix, that a line lists for an interface: the
/// digits of the address first, the length in hexadecimal third, the name last.
pub open spec fn v6_on(line: Seq<char>, name: Seq<char>) -> Option<Seq<char>> {
    let f = text::words_of(line);
    if f.len() >= 4 && f.last() == name && f[0].len() == 32 && number::all_digits(f[0], 16) {
        match number::number_in(f[2], 16, u8::MAX as nat) {
            Some(n) => Some(
                addr::v6_text(addr::segments_in(f[0])) + "/"@ + number::decimal(n),
            ),
            None => None,
        }
    } else {
        None
    }
}

/// The addresses of version 6 that lines list for an interface.
pub open spec fn v6_on_lines(lines: Seq<Seq<char>>, name: Seq<char>) -> Seq<Seq<char>>
    decreases lines.len(),
{
    if lines.len() == 0 {
        Seq::empty()
    } else {
        match v6_on(lines.last(), name) {
            Some(s) => v6_on_lines(lines.drop_last(), name).push(s),
            None => v6_on_lines(lines.drop_last(), name),
        }
    }
}

/// The addresses of version 6 that a table lists for an interface.
pub open spec fn v6_listed(name: Seq<char>, content: Option<Seq<char>>) -> Seq<Seq<char>> {
    match content {
        Some(c) => v6_on_lines(text::lines_of(c), name),
        None => Seq::empty(),
    }
}

/// Whether the interfaces that are told to be the loopback are those with its name.
pub open spec fn loopback_is_named(v: Seq<Interface>) -> bool {
    forall|k: int|
        0 <= k < v.len() ==> (#[trigger] v[k]).is_loopback == (v[k].name@ == "lo"@)
}

impl Sources {
    /// The interfaces that are shown.
    pub open spec fn shown(self) -> Vec<Interface> {
        if self.interfaces@.len() == 0 {
            self.fallback
        } else {
            self.interfaces
        }
    }

    /// Whether a picture can be made: the loopback goes by its name, no address is torn, and no sum
    /// is too great.
    pub open spec fn wf(self) -> bool {
        &&& loopback_is_named(self.shown()@)
        &&& !self.tables.is_torn()
        &&& self.tables.tcp@.len() + self.tables.tcp6@.len() <= usize::MAX
        &&& total_of(self.shown()@, Counter::RxRate) <= u64::MAX
        &&& total_of(self.shown()@, Counter::TxRate) <= u64::MAX
        &&& total_of(self.shown()@, Counter::Rx) <= u64::MAX
        &&& total_of(self.shown()@, Counter::Tx) <= u64::MAX
    }

    /// Tells whether a picture can be made.
    pub fn sound(&self) -> (r: bool)
        ensures
            r == self.wf(),
    {
        let shown: &Vec<Interface> = if self.interfaces.len() == 0 {
            &self.fallback
        } else {
            &self.interfaces
        };
        let tcp: usize = self.tables.tcp.as_str().unicode_len();
        let tcp6: usize = self.tables.tcp6.as_str().unicode_len();
        loopback_by_name(shown) && !self.tables.torn() && tcp <= usize::MAX - tcp6 && add_up(shown, Counter::RxRate).is_some()
            && add_up(shown, Counter::TxRate).is_some() && add_up(shown, Counter::Rx).is_some()
            && add_up(shown, Counter::Tx).is_some()
    }
}

/// Tells whether the interfaces that are told to be the loopback are those with its name.
fn loopback_by_name(v: &Vec<Interface>) -> (r: bool)
    ensures
        r == loopback_is_named(v@),
{
    for i in 0..v.len()
        invariant
            loopback_is_named(v@.take(i as int)),
    {
        if v[i].is_loopback != text::same_text(v[i].name.as_str(), "lo") {
            assert(v@[i as int].is_loopback != (v@[i as int].name@ == "lo"@));
            return false;
        }
        assert forall|k: int| 0 <= k < i + 1 implies (#[trigger] v@.take(i + 1)[k]).is_loopback
            == (v@.take(i + 1)[k].name@ == "lo"@) by {
            if k < i {
                assert(v@.take(i as int)[k] == v@[k]);
            }
        }
    }
    assert(v@.take(v@.len() as int) == v@);
    true
}

/// Loopback traffic does not count: the totals are those of the other interfaces.
pub proof fn law_loopback_does_not_count(v: Seq<Interface>, i: Interface, c: Counter)
    ensures
        i.is_loopback ==> total_of(v.push(i), c) == total_of(v, c),
        !i.is_loopback ==> total_of(v.push(i), c) == total_of(v, c) + count_of(i, c),
{
    assert(v.push(i).drop_last() =~= v);
}

/// The first part of the interfaces counts no more than all.
proof fn lemma_total_grows(v: Seq<Interface>, n: int, c: Counter)
    requires
        0 <= n <= v.len(),
    ensures
        total_of(v.take(n), c) <= total_of(v, c),
    decreases v.len(),
{
    if n == v.len() {
        assert(v.take(n) == v);
    } else {
        lemma_total_grows(v.drop_last(), n, c);
        assert(v.drop_last().take(n) == v.take(n));
    }
}

/// Adds up what all interfaces but the loopback count; none where the sum does not fit.
pub fn add_up(v: &Vec<Interface>, c: Counter) -> (r: Option<u64>)
    ensures
        r is Some <==> total_of(v@, c) <= u64::MAX,
        r matches Some(n) ==> n == total_of(v@, c),
{
    let mut sum: u64 = 0;
    for i in 0..v.len()
        invariant
            sum == total_of(v@.take(i as int), c),
    {
        assert(v@.take(i + 1).drop_last() == v@.take(i as int));
        proof {
            lemma_total_grows(v@, i + 1, c);
        }
        if !v[i].is_loopback {
            let n: u64 = match c {
                Counter::RxRate => v[i].rx_rate,
                Counter::TxRate => v[i].tx_rate,
                Counter::Rx => v[i].total_rx,
                Counter::Tx => v[i].total_tx,
            };
            if n > u64::MAX - sum {
                return None;
            }
            sum += n;
        }
    }
    assert(v@.take(v@.len() as int) == v@);
    Some(sum)
}

impl Interface {
    /// An interface with its addresses, rates and counts.
    pub fn new(
        name: String,
        mac: String,
        ips: Vec<String>,
        rx_rate: u64,
        tx_rate: u64,
        total_rx: u64,
        total_tx: u64,
    ) -> (i: Interface)
        ensures
            i.name == name,
            i.mac == mac,
            i.ips == ips,
            i.rx_rate == rx_rate,
            i.tx_rate == tx_rate,
            i.total_rx == total_rx,
            i.total_tx == total_tx,
            i.is_loopback == (name@ == "lo"@),
    {
        let is_loopback: bool = text::same_text(name.as_str(), "lo");
        Interface { name, mac, ips, rx_rate, tx_rate, total_rx, total_tx, is_loopback }
    }

    /// An interface of which only the name, the hardware address and the addresses of version 6 are
    /// known.
    pub fn bare(name: String, address: Option<&str>, if_inet6: Option<&str>) -> (i: Interface)
        ensures
            i.name == name,
            i.mac@ == match address {
                Some(s) => text::trimmed(s@),
                None => ""@,
            },
            text::texts(i.ips@) == v6_listed(name@, ports::slice_of(if_inet6)),
            i.rx_rate == 0 && i.tx_rate == 0 && i.total_rx == 0 && i.total_tx == 0,
            i.is_loopback == (name@ == "lo"@),
    {
        let mac: String = match address {
            Some(s) => text::string_of(text::trim(text::chars_of(s).as_slice())),
            None => "".to_string(),
        };
        let ips: Vec<String> = read_sysfs_ips(name.as_str(), if_inet6);
        Interface::new(name, mac, ips, 0, 0, 0, 0)
    }
}

/// Reads the address of version 6 that a line lists for an interface.
fn read_v6(line: &[char], name: &[char]) -> (r: Option<String>)
    ensures
        r is Some <==> v6_on(line@, name@) is Some,
        r matches Some(s) ==> v6_on(line@, name@) == Some(s@),
{
    let f: Vec<Vec<char>> = text::words(line);
    let ghost w = text::words_of(line@);
    assert(w.len() == f@.len());
    assert(forall|k: int| 0 <= k < f@.len() ==> w[k] == (#[trigger] f@[k])@);
    if f.len() < 4 || !text::same(f[f.len() - 1].as_slice(), name) {
        return None;
    }
    let a: Ipv6Addr = match addr::segments_of_digits(f[0].as_slice()) {
        Some(a) => a,
        None => {
            return None;
        },
    };
    match number::parse(f[2].as_slice(), 16, u8::MAX as u64) {
        Some(n) => {
            let mut s = String::new();
            addr::append_ipv6(&mut s, &a);
            s.append("/");
            number::append_decimal(&mut s, n);
            assert(s@ =~= addr::v6_text(a@) + "/"@ + number::decimal(n as nat));
            Some(s)
        },
        None => None,
    }
}

/// Reads the addresses of version 6 that a table lists for an interface.
pub fn read_sysfs_ips(name: &str, if_inet6: Option<&str>) -> (ips: Vec<String>)
    ensures
        text::texts(ips@) == v6_listed(name@, ports::slice_of(if_inet6)),
{
    let mut ips: Vec<String> = Vec::new();
    let table: &str = match if_inet6 {
        Some(c) => c,
        None => {
            assert(text::texts(ips@) =~= Seq::<Seq<char>>::empty());
            return ips;
        },
    };
    let lines: Vec<Vec<char>> = text::lines(text::chars_of(table).as_slice());
    let ghost all = text::lines_of(table@);
    let wanted: Vec<char> = text::chars_of(name);
    assert(text::texts(ips@) =~= v6_on_lines(all.take(0), name@));
    for i in 0..lines.len()
        invariant
            all == text::pieces(lines@),
            wanted@ == name@,
            text::texts(ips@) == v6_on_lines(all.take(i as int), name@),
    {
        assert(all.take(i + 1).drop_last() == all.take(i as int));
        assert(all.take(i + 1).last() == lines@[i as int]@);
        let ghost before = text::texts(ips@);
        if let Some(s) = read_v6(lines[i].as_slice(), wanted.as_slice()) {
            let ghost shown = s@;
            ips.push(s);
            assert(text::texts(ips@) =~= before.push(shown));
        }
    }
    assert(all.take(all.len() as int) == all);
    ips
}

/// The name of the machine.
pub fn read_hostname(content: Option<&str>) -> (s: String)
    ensures
        s@ == hostname_in(ports::slice_of(content)),
{
    match content {
        Some(c) => text::string_of(text::trim(text::chars_of(c).as_slice())),
        None => "unknown".to_string(),
    }
}

/// Reads the default gateway out of a table of routes.
pub fn default_gateway(content: Option<&str>) -> (r: Option<Gateway>)
    ensures
        gateway_view(r) == gateway_in(ports::slice_of(content)),
{
    let table: &str = match content {
        Some(c) => c,
        None => {
            return None;
        },
    };
    let lines: Vec<Vec<char>> = conn::body_of(table);
    let ghost all = conn::below_head(text::lines_of(table@));
    let zero: Vec<char> = text::chars_of("00000000");
    let mut i: usize = 0;
    assert(all.skip(0) == all);
    while i < lines.len()
        invariant
            0 <= i <= lines@.len(),
            content == Some(table),
            all == conn::below_head(text::lines_of(table@)),
            all == text::pieces(lines@),
            zero@ == "00000000"@,
            gateway_on(all) == gateway_on(all.skip(i as int)),
        decreases lines@.len() - i,
    {
        assert(all.skip(i as int)[0] == lines@[i as int]@);
        assert(all.skip(i as int).drop_first() == all.skip(i + 1));
        let f: Vec<Vec<char>> = text::words(lines[i].as_slice());
        let ghost w = text::words_of(lines@[i as int]@);
        assert(w.len() == f@.len());
        assert(forall|k: int| 0 <= k < f@.len() ==> w[k] == (#[trigger] f@[k])@);
        if f.len() >= 3 && text::same(f[1].as_slice(), zero.as_slice()) && !text::same(
            f[2].as_slice(),
            zero.as_slice(),
        ) {
            return match addr::ipv4_of(f[2].as_slice()) {
                Some(a) => Some(Gateway { iface: text::string_of(f[0].as_slice()), addr: a }),
                None => None,
            };
        }
        i += 1;
    }
    None
}

/// Reads the name servers out of a configuration.
pub fn dns_servers(content: Option<&str>) -> (out: Vec<String>)
    ensures
        text::texts(out@) == servers_in(ports::slice_of(content)),
{
    let mut out: Vec<String> = Vec::new();
    let content: &str = match content {
        Some(c) => c,
        None => {
            assert(text::texts(out@) =~= Seq::<Seq<char>>::empty());
            return out;
        },
    };
    let lines: Vec<Vec<char>> = text::lines(text::chars_of(content).as_slice());
    let ghost all = text::lines_of(content@);
    let key: Vec<char> = text::chars_of("nameserver");
    assert(text::texts(out@) =~= servers_on(all.take(0)));
    for i in 0..lines.len()
        invariant
            all == text::pieces(lines@),
            key@ == "nameserver"@,
            text::texts(out@) == servers_on(all.take(i as int)),
    {
        assert(all.take(i + 1).drop_last() == all.take(i as int));
        assert(all.take(i + 1).last() == lines@[i as int]@);
        let ghost before = text::texts(out@);
        let t: &[char] = text::trim(lines[i].as_slice());
        if text::starts_with(t, key.as_slice()) {
            let rest: &[char] = &t[key.len()..t.len()];
            assert(rest@ =~= t@.skip("nameserver"@.len() as int));
            let server: &[char] = text::trim(rest);
            if server.len() > 0 {
                out.push(text::string_of(server));
                assert(text::texts(out@) =~= before.push(server@));
            }
        }
    }
    assert(all.take(all.len() as int) == all);
    out
}

/// The text of an optional string.
fn slice<'a>(s: &'a Option<String>) -> (r: Option<&'a str>)
    ensures
        ports::slice_of(r) == ports::text_of(*s),
{
    match s {
        Some(x) => Some(x.as_str()),
        None => None,
    }
}

/// Makes a picture of the network.
pub fn collect(sources: Sources) -> (net: NetInfo)
    requires
        sources.wf(),
    ensures
        net.hostname@ == hostname_in(ports::text_of(sources.hostname)),
        net.sample_secs == SAMPLE_SECS,
        net.interfaces == sources.shown(),
        forall|k: int|
            0 <= k < net.interfaces@.len() ==> (#[trigger] net.interfaces@[k]).is_loopback == (
            net.interfaces@[k].name@ == "lo"@),
        net.total_rx_rate == total_of(sources.shown()@, Counter::RxRate),
        net.total_tx_rate == total_of(sources.shown()@, Counter::TxRate),
        net.total_rx == total_of(sources.shown()@, Counter::Rx),
        net.total_tx == total_of(sources.shown()@, Counter::Tx),
        ports::is_port_list(
            ports::ports_of(net.ports@),
            ports::listening(sources.tables.sockets()),
            sources.procs@,
        ),
        ({
            let states = ports::states_in(Some(sources.tables.tcp@)) + ports::states_in(
                Some(sources.tables.tcp6@),
            );
            &&& net.tcp_listen == ports::tally(states, ports::LISTEN)
            &&& net.tcp_established == ports::tally(states, ports::ESTABLISHED)
            &&& net.tcp_total == states.len()
        }),
        gateway_view(net.gateway) == gateway_in(ports::text_of(sources.route)),
        text::texts(net.dns@) == servers_in(ports::text_of(sources.resolv)),
{
    let Sources { hostname, interfaces, fallback, tables, procs, route, resolv } = sources;
    let interfaces: Vec<Interface> = if interfaces.len() == 0 {
        fallback
    } else {
        interfaces
    };
    let counts: (usize, usize, usize) = tcp_counts(
        Some(tables.tcp.as_str()),
        Some(tables.tcp6.as_str()),
    );
    NetInfo {
        hostname: read_hostname(slice(&hostname)),
        sample_secs: SAMPLE_SECS,
        total_rx_rate: known(add_up(&interfaces, Counter::RxRate)),
        total_tx_rate: known(add_up(&interfaces, Counter::TxRate)),
        total_rx: known(add_up(&interfaces, Counter::Rx)),
        total_tx: known(add_up(&interfaces, Counter::Tx)),
        ports: collect_ports(&tables, &procs),
        tcp_listen: counts.0,
        tcp_established: counts.1,
        tcp_total: counts.2,
        gateway: default_gateway(slice(&route)),
        dns: dns_servers(slice(&resolv)),
        interfaces,
    }
}

/// A number that is known to be there.
fn known(n: Option<u64>) -> (r: u64)
    requires
        n is Some,
    ensures
        n == Some(r),
{
    match n {
        Some(x) => x,
        None => 0,
    }
}

} // verus!
