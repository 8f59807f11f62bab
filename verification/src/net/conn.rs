//! Sockets as the kernel lists them.

use vstd::prelude::*;

use crate::net::addr;
use crate::net::addr::{Address, IpAddr};
use crate::number;
use crate::text;

verus! {

/// The table in which a socket is listed.
#[derive(Clone, Copy, Debug, PartialEq, Eq, Structural)]
pub enum Proto {
    Tcp,
    Tcp6,
    Udp,
    Udp6,
}

/// A socket as the kernel lists it.
#[derive(Clone, Copy, Debug, PartialEq, Eq)]
pub struct RawConn {
    pub state: u8,
    pub ip: IpAddr,
    pub port: u16,
    pub uid: u32,
    pub inode: u64,
    pub proto: Proto,
}

/// What a socket holds.
pub struct Conn {
    pub state: u8,
    pub ip: Address,
    pub port: u16,
    pub uid: u32,
    pub inode: u64,
    pub proto: Proto,
}

impl View for RawConn {
    type V = Conn;

    open spec fn view(&self) -> Conn {
        Conn {
            state: self.state,
            ip: self.ip@,
            port: self.port,
            uid: self.uid,
            inode: self.inode,
            proto: self.proto,
        }
    }
}

/// What the sockets hold.
pub open spec fn conns(v: Seq<RawConn>) -> Seq<Conn> {
    v.map_values(|c: RawConn| c@)
}

/// The name of a table.
pub open spec fn proto_text(p: Proto) -> Seq<char> {
    match p {
        Proto::Tcp => "tcp"@,
        Proto::Tcp6 => "tcp6"@,
        Proto::Udp => "udp"@,
        Proto::Udp6 => "udp6"@,
    }
}

/// The lines below the head of a table.
pub open spec fn below_head(lines: Seq<Seq<char>>) -> Seq<Seq<char>> {
    if lines.len() == 0 {
        lines
    } else {
        lines.drop_first()
    }
}

/// The address and the port that a text gives, both in hexadecimal, with a colon between them.
pub open spec fn local_in(s: Seq<char>, is_v6: bool) -> Option<(Address, u16)> {
    match text::split_at_first(s, ':') {
        None => None,
        Some((address, port)) => match number::number_in(port, 16, u16::MAX as nat) {
            None => None,
            Some(p) => if is_v6 {
                match addr::ipv6_in(address) {
                    None => None,
                    Some(a) => Some((Address::V6(a), p as u16)),
                }
            } else {
                match addr::ipv4_in(address) {
                    None => None,
                    Some(a) => Some((Address::V4(a), p as u16)),
                }
            },
        },
    }
}

/// Whether the address that is to be read out of a text is torn.
pub open spec fn local_is_torn(s: Seq<char>, is_v6: bool) -> bool {
    is_v6 && match text::split_at_first(s, ':') {
        None => false,
        Some((address, port)) => number::number_in(port, 16, u16::MAX as nat) is Some
            && addr::is_torn(address),
    }
}

/// Whether the fields of a line other than the address can be read.
pub open spec fn is_complete(line: Seq<char>) -> bool {
    let f = text::words_of(line);
    &&& f.len() >= 10
    &&& number::number_in(f[3], 16, u8::MAX as nat) is Some
    &&& number::number_in(f[7], 10, u32::MAX as nat) is Some
    &&& number::number_in(f[9], 10, u64::MAX as nat) is Some
}

/// The socket on a line.
pub open spec fn conn_on(line: Seq<char>, proto: Proto, is_v6: bool) -> Option<Conn> {
    let f = text::words_of(line);
    if !is_complete(line) {
        None
    } else {
        match local_in(f[1], is_v6) {
            None => None,
            Some((ip, port)) => Some(
                Conn {
                    state: number::number_in(f[3], 16, u8::MAX as nat)->0 as u8,
                    ip,
                    port,
                    uid: number::number_in(f[7], 10, u32::MAX as nat)->0 as u32,
                    inode: number::number_in(f[9], 10, u64::MAX as nat)->0 as u64,
                    proto,
                },
            ),
        }
    }
}

/// Whether the address on a line is torn.
pub open spec fn line_is_torn(line: Seq<char>, is_v6: bool) -> bool {
    is_complete(line) && local_is_torn(text::words_of(line)[1], is_v6)
}

/// The sockets on lines, one after the other; a line that cannot be read counts for nothing.
pub open spec fn conns_on(lines: Seq<Seq<char>>, proto: Proto, is_v6: bool) -> Seq<Conn>
    decreases lines.len(),
{
    if lines.len() == 0 {
        Seq::empty()
    } else {
        match conn_on(lines.last(), proto, is_v6) {
            Some(c) => conns_on(lines.drop_last(), proto, is_v6).push(c),
            None => conns_on(lines.drop_last(), proto, is_v6),
        }
    }
}

/// The sockets in a table.
pub open spec fn conns_in(content: Seq<char>, proto: Proto, is_v6: bool) -> Seq<Conn> {
    conns_on(below_head(text::lines_of(content)), proto, is_v6)
}

/// Whether an address in a table is torn.
pub open spec fn table_is_torn(content: Seq<char>, is_v6: bool) -> bool {
    exists|i: int|
        0 <= i < below_head(text::lines_of(content)).len() && line_is_torn(
            #[trigger] below_head(text::lines_of(content))[i],
            is_v6,
        )
}

impl Proto {
    /// The name of the table.
    pub fn name(self) -> (s: String)
        ensures
            s@ == proto_text(self),
    {
        match self {
            Proto::Tcp => "tcp".to_string(),
            Proto::Tcp6 => "tcp6".to_string(),
            Proto::Udp => "udp".to_string(),
            Proto::Udp6 => "udp6".to_string(),
        }
    }
}

/// The lines below the head of a table.
pub(crate) fn body_of(content: &str) -> (lines: Vec<Vec<char>>)
    ensures
        text::pieces(lines@) == below_head(text::lines_of(content@)),
{
    let mut lines: Vec<Vec<char>> = text::lines(text::chars_of(content).as_slice());
    let ghost all = lines@;
    if lines.len() > 0 {
        let _head: Vec<char> = lines.remove(0);
        assert(text::pieces(lines@) =~= text::pieces(all).drop_first());
    }
    lines
}

/// Reads an address and a port.
pub fn parse_local(local: &str, is_v6: bool) -> (r: Option<(IpAddr, u16)>)
    requires
        !local_is_torn(local@, is_v6),
    ensures
        r is Some <==> local_in(local@, is_v6) is Some,
        r matches Some((ip, port)) ==> local_in(local@, is_v6) == Some((ip@, port)),
{
    read_local(text::chars_of(local).as_slice(), is_v6)
}

/// Reads an address and a port.
fn read_local(local: &[char], is_v6: bool) -> (r: Option<(IpAddr, u16)>)
    ensures
        r is Some <==> local_in(local@, is_v6) is Some,
        r matches Some((ip, port)) ==> local_in(local@, is_v6) == Some((ip@, port)),
{
    let (address, port): (&[char], &[char]) = match text::split_once(local, ':') {
        Some((a, p)) => (a, p),
        None => {
            return None;
        },
    };
    let port: u16 = match number::parse(port, 16, u16::MAX as u64) {
        Some(n) => n as u16,
        None => {
            return None;
        },
    };
    if is_v6 {
        match addr::ipv6_of(address) {
            Some(a) => Some((IpAddr::V6(a), port)),
            None => None,
        }
    } else {
        match addr::ipv4_of(address) {
            Some(a) => Some((IpAddr::V4(a), port)),
            None => None,
        }
    }
}

/// Tells whether the address that is to be read out of a text is torn.
pub fn torn_local(local: &str, is_v6: bool) -> (r: bool)
    ensures
        r == local_is_torn(local@, is_v6),
{
    has_torn_address(text::chars_of(local).as_slice(), is_v6)
}

/// Tells whether the address that is to be read out of a text is torn.
fn has_torn_address(local: &[char], is_v6: bool) -> (r: bool)
    ensures
        r == local_is_torn(local@, is_v6),
{
    if !is_v6 {
        return false;
    }
    match text::split_once(local, ':') {
        Some((a, p)) => number::parse(p, 16, u16::MAX as u64).is_some() && addr::hex_is_torn(a),
        None => false,
    }
}

/// The fields of a line that are numbers: the state, the user and the inode.
fn numbers_on(f: &Vec<Vec<char>>, line: &[char]) -> (r: Option<(u8, u32, u64)>)
    requires
        text::pieces(f@) == text::words_of(line@),
    ensures
        r is Some <==> is_complete(line@),
        r matches Some((state, uid, inode)) ==> {
            let w = text::words_of(line@);
            &&& number::number_in(w[3], 16, u8::MAX as nat) == Some(state as nat)
            &&& number::number_in(w[7], 10, u32::MAX as nat) == Some(uid as nat)
            &&& number::number_in(w[9], 10, u64::MAX as nat) == Some(inode as nat)
        },
{
    let ghost w = text::words_of(line@);
    assert(w.len() == f@.len());
    assert(forall|k: int| 0 <= k < f@.len() ==> w[k] == (#[trigger] f@[k])@);
    if f.len() < 10 {
        return None;
    }
    let state: u8 = match number::parse(f[3].as_slice(), 16, u8::MAX as u64) {
        Some(n) => n as u8,
        None => {
            return None;
        },
    };
    let uid: u32 = match number::parse_u32(f[7].as_slice()) {
        Some(n) => n,
        None => {
            return None;
        },
    };
    match number::parse(f[9].as_slice(), 10, u64::MAX) {
        Some(inode) => Some((state, uid, inode)),
        None => None,
    }
}

/// Reads the socket on a line.
fn read_conn(line: &[char], proto: Proto, is_v6: bool) -> (r: Option<RawConn>)
    ensures
        r is Some <==> conn_on(line@, proto, is_v6) is Some,
        r matches Some(c) ==> conn_on(line@, proto, is_v6) == Some(c@),
{
    let f: Vec<Vec<char>> = text::words(line);
    match numbers_on(&f, line) {
        None => None,
        Some((state, uid, inode)) => {
            assert(text::words_of(line@)[1] == f@[1]@);
            match read_local(f[1].as_slice(), is_v6) {
                None => None,
                Some((ip, port)) => Some(RawConn { state, ip, port, uid, inode, proto }),
            }
        },
    }
}

/// Tells whether the address on a line is torn.
fn torn_line(line: &[char], is_v6: bool) -> (r: bool)
    ensures
        r == line_is_torn(line@, is_v6),
{
    let f: Vec<Vec<char>> = text::words(line);
    if numbers_on(&f, line).is_none() {
        return false;
    }
    assert(text::words_of(line@)[1] == f@[1]@);
    has_torn_address(f[1].as_slice(), is_v6)
}

/// Tells whether an address in a table is torn.
pub fn torn_table(content: &str, is_v6: bool) -> (r: bool)
    ensures
        r == table_is_torn(content@, is_v6),
{
    let lines: Vec<Vec<char>> = body_of(content);
    let ghost all = below_head(text::lines_of(content@));
    for i in 0..lines.len()
        invariant
            all == text::pieces(lines@),
            all == below_head(text::lines_of(content@)),
            forall|j: int| 0 <= j < i ==> !line_is_torn(#[trigger] all[j], is_v6),
    {
        assert(all[i as int] == lines@[i as int]@);
        if torn_line(lines[i].as_slice(), is_v6) {
            return true;
        }
    }
    false
}

/// Reads the sockets out of a table.
pub fn parse_net_conns(content: &str, proto: Proto, is_v6: bool) -> (out: Vec<RawConn>)
    requires
        !table_is_torn(content@, is_v6),
    ensures
        conns(out@) == conns_in(content@, proto, is_v6),
{
    let lines: Vec<Vec<char>> = body_of(content);
    let ghost all = below_head(text::lines_of(content@));
    let mut out: Vec<RawConn> = Vec::new();
    assert(conns(out@) =~= conns_on(all.take(0), proto, is_v6));
    for i in 0..lines.len()
        invariant
            all == text::pieces(lines@),
            conns(out@) == conns_on(all.take(i as int), proto, is_v6),
    {
        let ghost before = conns(out@);
        assert(all.take(i + 1).drop_last() == all.take(i as int));
        assert(all.take(i + 1).last() == lines@[i as int]@);
        if let Some(c) = read_conn(lines[i].as_slice(), proto, is_v6) {
            out.push(c);
            assert(conns(out@) =~= before.push(c@));
        }
    }
    assert(all.take(all.len() as int) == all);
    out
}

} // verus!
