//! The ports that are listened on or bound, with the processes behind them.

use std::collections::HashMap;
use vstd::prelude::*;

use crate::net::addr;
use crate::net::conn;
use crate::net::conn::{Conn, Proto, RawConn};
use crate::number;
use crate::order;
use crate::text;

verus! {

/// The state of a TCP socket that listens.
pub const LISTEN: u8 = 0x0A;

/// The state of a UDP socket that is bound.
pub const BOUND: u8 = 0x07;

/// The state of a TCP socket with a connection.
pub const ESTABLISHED: u8 = 0x01;

/// The tables of the sockets as the kernel writes them; a table that could not be read is empty.
#[derive(Debug)]
pub struct Tables {
    pub tcp: String,
    pub tcp6: String,
    pub udp: String,
    pub udp6: String,
}

/// A process.
#[derive(Debug)]
pub struct Proc {
    pub pid: u32,
    pub uid: u32,
    /// Its name, if it could be read.
    pub comm: Option<String>,
    /// Where its open files lead, if that could be read.
    pub links: Option<Vec<String>>,
}

/// A port that is listened on or bound.
#[derive(Debug)]
pub struct Port {
    /// The table it is listed in.
    pub proto: String,
    /// The address with the port; the address that stands for all is a star.
    pub addr: String,
    pub port: u16,
    /// The process behind it, if it is known.
    pub process: Option<String>,
}

/// What a port holds.
pub struct PortInfo {
    pub proto: Seq<char>,
    pub addr: Seq<char>,
    pub port: u16,
    pub process: Option<Seq<char>>,
}

/// The text of an optional string.
pub open spec fn text_of(s: Option<String>) -> Option<Seq<char>> {
    match s {
        Some(x) => Some(x@),
        None => None,
    }
}

impl View for Port {
    type V = PortInfo;

    open spec fn view(&self) -> PortInfo {
        PortInfo {
            proto: self.proto@,
            addr: self.addr@,
            port: self.port,
            process: text_of(self.process),
        }
    }
}

/// What the ports hold.
pub open spec fn ports_of(v: Seq<Port>) -> Seq<PortInfo> {
    v.map_values(|p: Port| p@)
}

impl Tables {
    /// Whether an address in one of the tables is torn.
    pub open spec fn is_torn(self) -> bool {
        ||| conn::table_is_torn(self.tcp@, false)
        ||| conn::table_is_torn(self.tcp6@, true)
        ||| conn::table_is_torn(self.udp@, false)
        ||| conn::table_is_torn(self.udp6@, true)
    }

    /// The sockets of all tables.
    pub open spec fn sockets(self) -> Seq<Conn> {
        conn::conns_in(self.tcp@, Proto::Tcp, false) + conn::conns_in(
            self.tcp6@,
            Proto::Tcp6,
            true,
        ) + conn::conns_in(self.udp@, Proto::Udp, false) + conn::conns_in(
            self.udp6@,
            Proto::Udp6,
            true,
        )
    }
}

/// Whether a socket listens or is bound.
pub open spec fn listens(c: Conn) -> bool {
    c.state == LISTEN || c.state == BOUND
}

/// The sockets that listen or are bound.
pub open spec fn listening(all: Seq<Conn>) -> Seq<Conn> {
    all.filter(|c: Conn| listens(c))
}

/// The inode in the name of a socket.
pub open spec fn inode_in(target: Seq<char>) -> Option<nat> {
    let prefix = "socket:["@;
    if text::has_prefix(target, prefix) && target.len() > prefix.len() && target.last() == ']' {
        number::number_in(
            target.subrange(prefix.len() as int, target.len() - 1),
            10,
            u64::MAX as nat,
        )
    } else {
        None
    }
}

/// Whether a user has one of the sockets.
pub open spec fn has_user(sockets: Seq<Conn>, uid: u32) -> bool {
    exists|i: int| 0 <= i < sockets.len() && (#[trigger] sockets[i]).uid == uid
}

/// Whether an inode is one of the sockets'.
pub open spec fn has_inode(sockets: Seq<Conn>, inode: u64) -> bool {
    exists|i: int| 0 <= i < sockets.len() && (#[trigger] sockets[i]).inode == inode
}

/// Whether a process has a socket open.
pub open spec fn holds(p: Proc, inode: u64) -> bool {
    p.links matches Some(links) && exists|k: int|
        0 <= k < links@.len() && inode_in((#[trigger] links@[k])@) == Some(inode as nat)
}

/// A process as it is shown: its name and its number.
pub open spec fn process_text(p: Proc) -> Seq<char> {
    text::trimmed(
        match p.comm {
            Some(s) => s@,
            None => Seq::empty(),
        },
    ) + " (pid "@ + number::decimal(p.pid as nat) + ")"@
}

/// The process behind a socket: the last one that has it open, among those of users that have
/// sockets.
pub open spec fn owner(procs: Seq<Proc>, sockets: Seq<Conn>, inode: u64) -> Option<Seq<char>>
    decreases procs.len(),
{
    if procs.len() == 0 {
        None
    } else if has_user(sockets, procs.last().uid) && holds(procs.last(), inode) {
        Some(process_text(procs.last()))
    } else {
        owner(procs.drop_last(), sockets, inode)
    }
}

/// Whether a map gives the process of every socket for which one is known.
pub open spec fn maps_owners(
    map: Map<u64, String>,
    procs: Seq<Proc>,
    sockets: Seq<Conn>,
) -> bool {
    &&& forall|inode: u64| #[trigger]
        map.contains_key(inode) <==> has_inode(sockets, inode) && owner(procs, sockets, inode)
            is Some
    &&& forall|inode: u64| #[trigger]
        map.contains_key(inode) ==> owner(procs, sockets, inode) == Some(map[inode]@)
}

/// The port of a socket.
pub open spec fn port_of(c: Conn, process: Option<Seq<char>>) -> PortInfo {
    PortInfo {
        proto: conn::proto_text(c.proto),
        addr: addr::endpoint_text(c.ip, c.port as nat),
        port: c.port,
        process,
    }
}

/// The keys by which ports are put in order.
pub open spec fn port_keys(sockets: Seq<Conn>) -> Seq<u64> {
    sockets.map_values(|c: Conn| c.port as u64)
}

/// The ports of sockets in the order of the places.
pub open spec fn placed(sockets: Seq<Conn>, procs: Seq<Proc>, places: Seq<usize>) -> Seq<PortInfo> {
    places.map_values(
        |p: usize|
            port_of(sockets[p as int], owner(procs, sockets, sockets[p as int].inode)),
    )
}

/// Whether ports are those of the sockets, by number, with the same numbers as they are listed.
pub open spec fn is_port_list(
    ports: Seq<PortInfo>,
    sockets: Seq<Conn>,
    procs: Seq<Proc>,
) -> bool {
    exists|places: Seq<usize>| #[trigger]
        order::orders(places, port_keys(sockets)) && ports == placed(sockets, procs, places)
}

/// The state on a line.
pub open spec fn state_on(line: Seq<char>) -> Option<nat> {
    let f = text::words_of(line);
    if f.len() < 4 {
        None
    } else {
        number::number_in(f[3], 16, u8::MAX as nat)
    }
}

/// The states on lines; a line without one counts for nothing.
pub open spec fn states_on(lines: Seq<Seq<char>>) -> Seq<u8>
    decreases lines.len(),
{
    if lines.len() == 0 {
        Seq::empty()
    } else {
        match state_on(lines.last()) {
            Some(st) => states_on(lines.drop_last()).push(st as u8),
            None => states_on(lines.drop_last()),
        }
    }
}

/// The states in a table; none where it could not be read.
pub open spec fn states_in(content: Option<Seq<char>>) -> Seq<u8> {
    match content {
        Some(c) => states_on(conn::below_head(text::lines_of(c))),
        None => Seq::empty(),
    }
}

/// How often a state occurs.
pub open spec fn tally(states: Seq<u8>, state: u8) -> nat
    decreases states.len(),
{
    if states.len() == 0 {
        0
    } else {
        tally(states.drop_last(), state) + if states.last() == state {
            1nat
        } else {
            0nat
        }
    }
}

/// Ports come in the order of their numbers.
pub proof fn law_ports_ascend(
    ports: Seq<PortInfo>,
    sockets: Seq<Conn>,
    procs: Seq<Proc>,
    i: int,
    j: int,
)
    requires
        is_port_list(ports, sockets, procs),
        0 <= i < j < ports.len(),
    ensures
        ports[i].port <= ports[j].port,
{
    let places = choose|places: Seq<usize>| #[trigger]
        order::orders(places, port_keys(sockets)) && ports == placed(sockets, procs, places);
    assert(order::before(port_keys(sockets), places[i] as int, places[j] as int));
}

/// Ports with the same number come in the order of their sockets.
pub proof fn law_ports_keep_ties(
    ports: Seq<PortInfo>,
    sockets: Seq<Conn>,
    procs: Seq<Proc>,
    i: int,
    j: int,
)
    requires
        is_port_list(ports, sockets, procs),
        0 <= i < j < sockets.len(),
        sockets[i].port == sockets[j].port,
    ensures
        exists|p: int, q: int|
            0 <= p < q < ports.len() && #[trigger] ports[p] == port_of(
                sockets[i],
                owner(procs, sockets, sockets[i].inode),
            ) && #[trigger] ports[q] == port_of(
                sockets[j],
                owner(procs, sockets, sockets[j].inode),
            ),
{
    let places = choose|places: Seq<usize>| #[trigger]
        order::orders(places, port_keys(sockets)) && ports == placed(sockets, procs, places);
    let (p, q) = order::law_ties_stay(places, port_keys(sockets), i, j);
    assert(ports[p] == port_of(sockets[i], owner(procs, sockets, sockets[i].inode)));
    assert(ports[q] == port_of(sockets[j], owner(procs, sockets, sockets[j].inode)));
}

/// Every socket has its port in the list, and every port in the list is one of a socket.
pub proof fn law_ports_are_complete(
    ports: Seq<PortInfo>,
    sockets: Seq<Conn>,
    procs: Seq<Proc>,
)
    requires
        is_port_list(ports, sockets, procs),
    ensures
        ports.len() == sockets.len(),
        forall|i: int|
            0 <= i < sockets.len() ==> ports.contains(
                port_of(#[trigger] sockets[i], owner(procs, sockets, sockets[i].inode)),
            ),
        forall|i: int|
            0 <= i < ports.len() ==> exists|k: int|
                0 <= k < sockets.len() && #[trigger] ports[i] == port_of(
                    #[trigger] sockets[k],
                    owner(procs, sockets, sockets[k].inode),
                ),
{
    let places = choose|places: Seq<usize>| #[trigger]
        order::orders(places, port_keys(sockets)) && ports == placed(sockets, procs, places);
    assert forall|i: int| 0 <= i < sockets.len() implies ports.contains(
        port_of(#[trigger] sockets[i], owner(procs, sockets, sockets[i].inode)),
    ) by {
        assert(places.contains(i as usize));
        let k = places.index_of(i as usize);
        assert(ports[k] == port_of(sockets[i], owner(procs, sockets, sockets[i].inode)));
    }
    assert forall|i: int| 0 <= i < ports.len() implies exists|k: int|
        0 <= k < sockets.len() && #[trigger] ports[i] == port_of(
            #[trigger] sockets[k],
            owner(procs, sockets, sockets[k].inode),
        ) by {
        let k = places[i] as int;
        assert(ports[i] == port_of(sockets[k], owner(procs, sockets, sockets[k].inode)));
    }
}

/// Only sockets that listen or are bound are taken, and all of them.
pub proof fn law_listening_only(all: Seq<Conn>, c: Conn)
    ensures
        listening(all).contains(c) <==> all.contains(c) && listens(c),
    decreases all.len(),
{
    reveal(Seq::filter);
    if all.len() > 0 {
        let before = all.drop_last();
        law_listening_only(before, c);
        order::lemma_push_contains(before, all.last(), c);
        order::lemma_push_contains(listening(before), all.last(), c);
        assert(all =~= before.push(all.last()));
    }
}

/// No more sockets listen or are connected than there are.
pub proof fn law_tallies_add_up(states: Seq<u8>)
    ensures
        tally(states, LISTEN) + tally(states, ESTABLISHED) <= states.len(),
    decreases states.len(),
{
    if states.len() > 0 {
        law_tallies_add_up(states.drop_last());
    }
}

/// Reads the inode out of the name of a socket.
pub fn socket_inode(target: &str) -> (r: Option<u64>)
    ensures
        r is Some <==> inode_in(target@) is Some,
        r matches Some(n) ==> inode_in(target@) == Some(n as nat),
{
    let chars: Vec<char> = text::chars_of(target);
    let prefix: Vec<char> = text::chars_of("socket:[");
    if !text::starts_with(chars.as_slice(), prefix.as_slice()) {
        return None;
    }
    let n: usize = chars.len();
    if n > prefix.len() && chars[n - 1] == ']' {
        number::parse(&chars.as_slice()[prefix.len()..n - 1], 10, u64::MAX)
    } else {
        None
    }
}

/// Reads the number of a process out of the name of its directory: digits and nothing else.
pub fn parse_pid(name: &str) -> (r: Option<u32>)
    ensures
        r is Some <==> name@.len() > 0 && number::all_digits(name@, 10) && number::value_of(
            name@,
            10,
        ) <= u32::MAX,
        r matches Some(n) ==> n == number::value_of(name@, 10),
{
    let chars: Vec<char> = text::chars_of(name);
    if chars.len() > 0 && chars[0] == '+' {
        assert(number::digit_value(name@[0]) == 16);
        return None;
    }
    number::parse_u32(chars.as_slice())
}

/// Tells whether a user has one of the sockets.
pub fn wants_user(sockets: &Vec<RawConn>, uid: u32) -> (r: bool)
    ensures
        r == has_user(conn::conns(sockets@), uid),
{
    let ghost all = conn::conns(sockets@);
    for i in 0..sockets.len()
        invariant
            all == conn::conns(sockets@),
            forall|j: int| 0 <= j < i ==> (#[trigger] all[j]).uid != uid,
    {
        assert(all[i as int] == sockets@[i as int]@);
        if sockets[i].uid == uid {
            return true;
        }
    }
    false
}

/// Tells whether an inode is one of the sockets'.
fn wants_inode(sockets: &Vec<RawConn>, inode: u64) -> (r: bool)
    ensures
        r == has_inode(conn::conns(sockets@), inode),
{
    let ghost all = conn::conns(sockets@);
    for i in 0..sockets.len()
        invariant
            all == conn::conns(sockets@),
            forall|j: int| 0 <= j < i ==> (#[trigger] all[j]).inode != inode,
    {
        assert(all[i as int] == sockets@[i as int]@);
        if sockets[i].inode == inode {
            return true;
        }
    }
    false
}

/// Writes a process: its name and its number.
pub fn describe(p: &Proc) -> (s: String)
    ensures
        s@ == process_text(*p),
{
    let comm: Vec<char> = match &p.comm {
        Some(c) => text::chars_of(c.as_str()),
        None => Vec::new(),
    };
    let mut s: String = text::string_of(text::trim(comm.as_slice()));
    s.append(" (pid ");
    number::append_decimal(&mut s, p.pid as u64);
    s.append(")");
    assert(s@ =~= process_text(*p));
    s
}

/// Whether one of the first links of a process leads to a socket.
spec fn links_to(links: Seq<String>, n: int, inode: u64) -> bool {
    exists|k: int| 0 <= k < n && inode_in((#[trigger] links[k])@) == Some(inode as nat)
}

/// Gives the sockets that a process has open to it.
fn claim(map: &mut HashMap<u64, String>, sockets: &Vec<RawConn>, p: &Proc)
    ensures
        forall|inode: u64| #[trigger]
            final(map)@.contains_key(inode) <==> old(map)@.contains_key(inode) || has_inode(
                conn::conns(sockets@),
                inode,
            ) && holds(*p, inode),
        forall|inode: u64| #[trigger]
            final(map)@.contains_key(inode) ==> final(map)@[inode]@ == if has_inode(
                conn::conns(sockets@),
                inode,
            ) && holds(*p, inode) {
                process_text(*p)
            } else {
                old(map)@[inode]@
            },
{
    broadcast use vstd::std_specs::hash::group_hash_axioms;

    let ghost all = conn::conns(sockets@);
    let ghost start = map@;
    let links: &Vec<String> = match &p.links {
        Some(v) => v,
        None => {
            return ;
        },
    };
    let name: String = describe(p);
    for i in 0..links.len()
        invariant
            all == conn::conns(sockets@),
            name@ == process_text(*p),
            forall|inode: u64| #[trigger]
                map@.contains_key(inode) <==> start.contains_key(inode) || has_inode(all, inode)
                    && links_to(links@, i as int, inode),
            forall|inode: u64| #[trigger]
                map@.contains_key(inode) ==> map@[inode]@ == if has_inode(all, inode) && links_to(
                    links@,
                    i as int,
                    inode,
                ) {
                    name@
                } else {
                    start[inode]@
                },
    {
        broadcast use vstd::std_specs::hash::group_hash_axioms;

        let ghost before = map@;
        let found: Option<u64> = socket_inode(links[i].as_str());
        proof {
            assert forall|inode: u64|
                #[trigger] links_to(links@, i + 1, inode) <==> links_to(links@, i as int, inode)
                    || found == Some(inode) by {
                lemma_one_link_more(links@, i as int, inode);
            }
        }
        if let Some(n) = found {
            if wants_inode(sockets, n) {
                map.insert(n, name.clone());
            }
        }
        assert forall|inode: u64| #[trigger] map@.contains_key(inode) <==> start.contains_key(inode)
            || has_inode(all, inode) && links_to(links@, i + 1, inode) by {
            assert(before.contains_key(inode) <==> start.contains_key(inode) || has_inode(
                all,
                inode,
            ) && links_to(links@, i as int, inode));
            assert(links_to(links@, i + 1, inode) <==> links_to(links@, i as int, inode) || found
                == Some(inode));
        }
        assert forall|inode: u64| #[trigger] map@.contains_key(inode) implies map@[inode]@
            == if has_inode(all, inode) && links_to(links@, i + 1, inode) {
            name@
        } else {
            start[inode]@
        } by {
            assert(links_to(links@, i + 1, inode) <==> links_to(links@, i as int, inode) || found
                == Some(inode));
            if before.contains_key(inode) {
            }
        }
    }
    assert forall|inode: u64| holds(*p, inode) <==> #[trigger] links_to(
        links@,
        links@.len() as int,
        inode,
    ) by {}
    assert forall|inode: u64| #[trigger] map@.contains_key(inode) <==> start.contains_key(inode)
        || has_inode(all, inode) && holds(*p, inode) by {
        assert(holds(*p, inode) <==> links_to(links@, links@.len() as int, inode));
    }
    assert forall|inode: u64| #[trigger] map@.contains_key(inode) implies map@[inode]@
        == if has_inode(all, inode) && holds(*p, inode) {
        process_text(*p)
    } else {
        start[inode]@
    } by {
        assert(holds(*p, inode) <==> links_to(links@, links@.len() as int, inode));
    }
}

/// One link more leads to a socket if that link does.
proof fn lemma_one_link_more(links: Seq<String>, n: int, inode: u64)
    requires
        0 <= n < links.len(),
    ensures
        links_to(links, n + 1, inode) <==> links_to(links, n, inode) || inode_in(links[n]@) == Some(
            inode as nat,
        ),
{
}

/// Finds the processes behind the sockets.
pub fn socket_process_map(sockets: &Vec<RawConn>, procs: &Vec<Proc>) -> (map: HashMap<u64, String>)
    ensures
        maps_owners(map@, procs@, conn::conns(sockets@)),
{
    broadcast use vstd::std_specs::hash::group_hash_axioms;

    let ghost all = conn::conns(sockets@);
    let mut map: HashMap<u64, String> = HashMap::new();
    for i in 0..procs.len()
        invariant
            all == conn::conns(sockets@),
            maps_owners(map@, procs@.take(i as int), all),
    {
        let ghost before = map@;
        assert(procs@.take(i + 1).drop_last() == procs@.take(i as int));
        assert(procs@.take(i + 1).last() == procs@[i as int]);
        let p: &Proc = &procs[i];
        if wants_user(sockets, p.uid) {
            claim(&mut map, sockets, p);
        }
        assert forall|inode: u64| #[trigger] map@.contains_key(inode) <==> has_inode(all, inode)
            && owner(procs@.take(i + 1), all, inode) is Some by {
            assert(before.contains_key(inode) <==> has_inode(all, inode) && owner(
                procs@.take(i as int),
                all,
                inode,
            ) is Some);
        }
        assert forall|inode: u64| #[trigger] map@.contains_key(inode) implies owner(
            procs@.take(i + 1),
            all,
            inode,
        ) == Some(map@[inode]@) by {
            assert(before.contains_key(inode) ==> owner(procs@.take(i as int), all, inode) == Some(
                before[inode]@,
            ));
        }
    }
    assert(procs@.take(procs@.len() as int) == procs@);
    map
}

/// Takes the sockets that listen or are bound.
fn keep_listening(out: &mut Vec<RawConn>, sockets: &Vec<RawConn>)
    ensures
        conn::conns(final(out)@) == conn::conns(old(out)@) + listening(conn::conns(sockets@)),
{
    let ghost start = conn::conns(out@);
    let ghost all = conn::conns(sockets@);
    proof {
        reveal(Seq::filter);
    }
    assert(conn::conns(out@) =~= start + listening(all.take(0)));
    for i in 0..sockets.len()
        invariant
            all == conn::conns(sockets@),
            conn::conns(out@) == start + listening(all.take(i as int)),
    {
        proof {
            reveal(Seq::filter);
        }
        assert(all.take(i + 1).drop_last() == all.take(i as int));
        assert(all.take(i + 1).last() == sockets@[i as int]@);
        let ghost before = conn::conns(out@);
        let c: RawConn = sockets[i];
        if c.state == LISTEN || c.state == BOUND {
            out.push(c);
            assert(conn::conns(out@) =~= before.push(c@));
            assert(conn::conns(out@) =~= start + listening(all.take(i + 1)));
        }
    }
    assert(all.take(all.len() as int) == all);
}

impl Tables {
    /// Tells whether an address in one of the tables is torn.
    pub fn torn(&self) -> (r: bool)
        ensures
            r == self.is_torn(),
    {
        conn::torn_table(self.tcp.as_str(), false) || conn::torn_table(self.tcp6.as_str(), true)
            || conn::torn_table(self.udp.as_str(), false) || conn::torn_table(
            self.udp6.as_str(),
            true,
        )
    }

    /// The sockets that listen or are bound, in the order of the tables.
    pub fn listening_sockets(&self) -> (out: Vec<RawConn>)
        requires
            !self.is_torn(),
        ensures
            conn::conns(out@) == listening(self.sockets()),
    {
        let mut out: Vec<RawConn> = Vec::new();
        keep_listening(&mut out, &conn::parse_net_conns(self.tcp.as_str(), Proto::Tcp, false));
        keep_listening(&mut out, &conn::parse_net_conns(self.tcp6.as_str(), Proto::Tcp6, true));
        keep_listening(&mut out, &conn::parse_net_conns(self.udp.as_str(), Proto::Udp, false));
        keep_listening(&mut out, &conn::parse_net_conns(self.udp6.as_str(), Proto::Udp6, true));
        proof {
            let a = conn::conns_in(self.tcp@, Proto::Tcp, false);
            let b = conn::conns_in(self.tcp6@, Proto::Tcp6, true);
            let c = conn::conns_in(self.udp@, Proto::Udp, false);
            let d = conn::conns_in(self.udp6@, Proto::Udp6, true);
            let keep = |x: Conn| listens(x);
            Seq::filter_distributes_over_add(a, b, keep);
            Seq::filter_distributes_over_add(a + b, c, keep);
            Seq::filter_distributes_over_add(a + b + c, d, keep);
            assert(conn::conns(out@) =~= listening(a) + listening(b) + listening(c) + listening(d));
        }
        out
    }
}

/// Makes the port of a socket.
fn make_port(c: &RawConn, map: &HashMap<u64, String>) -> (p: Port)
    ensures
        p@ == port_of(
            c@,
            if map@.contains_key(c.inode) {
                Some(map@[c.inode]@)
            } else {
                None
            },
        ),
{
    broadcast use vstd::std_specs::hash::group_hash_axioms;

    Port {
        proto: c.proto.name(),
        addr: addr::fmt_ip_port(c.ip, c.port),
        port: c.port,
        process: match map.get(&c.inode) {
            Some(s) => Some(s.clone()),
            None => None,
        },
    }
}

/// Lists the ports of the sockets by number.
fn list_ports(sockets: &Vec<RawConn>, procs: &Vec<Proc>) -> (ports: Vec<Port>)
    ensures
        is_port_list(ports_of(ports@), conn::conns(sockets@), procs@),
{
    let ghost all = conn::conns(sockets@);
    let map: HashMap<u64, String> = socket_process_map(sockets, procs);
    let mut keys: Vec<u64> = Vec::new();
    for i in 0..sockets.len()
        invariant
            all == conn::conns(sockets@),
            keys@ == port_keys(all).take(i as int),
    {
        keys.push(sockets[i].port as u64);
        assert(port_keys(all).take(i + 1) =~= port_keys(all).take(i as int).push(
            port_keys(all)[i as int],
        ));
    }
    assert(keys@ =~= port_keys(all));
    let places: Vec<usize> = order::order_by(&keys);
    let ghost full = placed(all, procs@, places@);
    let mut ports: Vec<Port> = Vec::new();
    for i in 0..places.len()
        invariant
            all == conn::conns(sockets@),
            full == placed(all, procs@, places@),
            order::orders(places@, port_keys(all)),
            maps_owners(map@, procs@, all),
            ports_of(ports@) == full.take(i as int),
    {
        let ghost before = ports_of(ports@);
        let c: &RawConn = &sockets[places[i]];
        assert(all[places@[i as int] as int] == c@);
        assert(has_inode(all, c.inode));
        assert(map@.contains_key(c.inode) <==> owner(procs@, all, c.inode) is Some);
        let p = make_port(c, &map);
        assert(p@ == full[i as int]);
        ports.push(p);
        assert(ports_of(ports@) =~= before.push(p@));
        assert(full.take(i + 1) =~= before.push(full[i as int]));
    }
    assert(ports_of(ports@) =~= full);
    ports
}

/// Lists the ports that are listened on or bound, by number, with the processes behind them.
pub fn collect_ports(tables: &Tables, procs: &Vec<Proc>) -> (ports: Vec<Port>)
    requires
        !tables.is_torn(),
    ensures
        is_port_list(ports_of(ports@), listening(tables.sockets()), procs@),
{
    list_ports(&tables.listening_sockets(), procs)
}

/// The text of an optional string slice.
pub open spec fn slice_of(s: Option<&str>) -> Option<Seq<char>> {
    match s {
        Some(x) => Some(x@),
        None => None,
    }
}

/// The length of an optional text.
pub open spec fn len_of(s: Option<Seq<char>>) -> nat {
    match s {
        Some(x) => x.len(),
        None => 0,
    }
}

/// There are no more states than characters.
proof fn lemma_states_len(content: Option<Seq<char>>)
    ensures
        states_in(content).len() <= len_of(content),
{
    if let Some(c) = content {
        text::lemma_lines_len(c);
        lemma_states_on_len(conn::below_head(text::lines_of(c)));
    }
}

/// There are no more states than lines.
proof fn lemma_states_on_len(lines: Seq<Seq<char>>)
    ensures
        states_on(lines).len() <= lines.len(),
    decreases lines.len(),
{
    if lines.len() > 0 {
        lemma_states_on_len(lines.drop_last());
    }
}

/// Counts the states in a table: how many sockets listen, are connected, and are there at all.
fn count_states(content: Option<&str>) -> (r: (usize, usize, usize))
    ensures
        r.0 == tally(states_in(slice_of(content)), LISTEN),
        r.1 == tally(states_in(slice_of(content)), ESTABLISHED),
        r.2 == states_in(slice_of(content)).len(),
{
    let content: &str = match content {
        Some(c) => c,
        None => {
            return (0, 0, 0);
        },
    };
    let lines: Vec<Vec<char>> = conn::body_of(content);
    let ghost all = conn::below_head(text::lines_of(content@));
    let mut listen: usize = 0;
    let mut est: usize = 0;
    let mut total: usize = 0;
    for i in 0..lines.len()
        invariant
            all == text::pieces(lines@),
            listen == tally(states_on(all.take(i as int)), LISTEN),
            est == tally(states_on(all.take(i as int)), ESTABLISHED),
            total == states_on(all.take(i as int)).len(),
            total <= i,
            listen <= i,
            est <= i,
    {
        assert(all.take(i + 1).drop_last() == all.take(i as int));
        assert(all.take(i + 1).last() == lines@[i as int]@);
        let f: Vec<Vec<char>> = text::words(lines[i].as_slice());
        let ghost w = text::words_of(lines@[i as int]@);
        assert(w.len() == f@.len());
        if f.len() >= 4 {
            assert(w[3] == f@[3]@);
            if let Some(st) = number::parse(f[3].as_slice(), 16, u8::MAX as u64) {
                let ghost states = states_on(all.take(i as int));
                assert(states_on(all.take(i + 1)) == states.push(st as u8));
                assert(states.push(st as u8).drop_last() =~= states);
                total += 1;
                if st as u8 == LISTEN {
                    listen += 1;
                } else if st as u8 == ESTABLISHED {
                    est += 1;
                }
            }
        }
    }
    assert(all.take(all.len() as int) == all);
    (listen, est, total)
}

/// Counts the TCP sockets: how many listen, are connected, and are there at all.
pub fn tcp_counts(tcp: Option<&str>, tcp6: Option<&str>) -> (r: (usize, usize, usize))
    requires
        len_of(slice_of(tcp)) + len_of(slice_of(tcp6)) <= usize::MAX,
    ensures
        ({
            let states = states_in(slice_of(tcp)) + states_in(slice_of(tcp6));
            &&& r.0 == tally(states, LISTEN)
            &&& r.1 == tally(states, ESTABLISHED)
            &&& r.2 == states.len()
        }),
{
    let a: (usize, usize, usize) = count_states(tcp);
    let b: (usize, usize, usize) = count_states(tcp6);
    proof {
        lemma_states_len(slice_of(tcp));
        lemma_states_len(slice_of(tcp6));
        law_tallies_add_up(states_in(slice_of(tcp)));
        law_tallies_add_up(states_in(slice_of(tcp6)));
        lemma_tally_adds(states_in(slice_of(tcp)), states_in(slice_of(tcp6)), LISTEN);
        lemma_tally_adds(states_in(slice_of(tcp)), states_in(slice_of(tcp6)), ESTABLISHED);
    }
    (a.0 + b.0, a.1 + b.1, a.2 + b.2)
}

/// A state occurs in two parts as often as in each together.
pub(crate) proof fn lemma_tally_adds(a: Seq<u8>, b: Seq<u8>, state: u8)
    ensures
        tally(a + b, state) == tally(a, state) + tally(b, state),
    decreases b.len(),
{
    if b.len() == 0 {
        assert(a + b == a);
    } else {
        lemma_tally_adds(a, b.drop_last(), state);
        assert((a + b).drop_last() == a + b.drop_last());
    }
}

} // verus!
