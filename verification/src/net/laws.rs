//! What holds of a picture of the network as a whole.

use vstd::prelude::*;

use super::addr;
use super::addr::Address;
use super::conn;
use super::conn::{Conn, Proto, RawConn};
use super::ports;
use super::ports::{Port, PortInfo, Proc, Tables};
use crate::net;
use crate::net::{Counter, Gateway, Interface, Sources};
use crate::number;
use crate::text;
use crate::text_laws;

verus! {

/// The lines of a table but for the first, which is its head.
pub open spec fn body(content: Seq<char>) -> Seq<Seq<char>> {
    let lines = text::lines_of(content);
    if lines.len() == 0 {
        lines
    } else {
        lines.skip(1)
    }
}

/// Whether a line reads as a socket that listens or is bound.
pub open spec fn is_heard(line: Seq<char>, proto: Proto, v6: bool) -> bool {
    conn::conn_on(line, proto, v6) matches Some(c) && (c.state == 0x0A || c.state == 0x07)
}

/// How many of the lines read as sockets that listen or are bound.
pub open spec fn heard(lines: Seq<Seq<char>>, proto: Proto, v6: bool) -> nat
    decreases lines.len(),
{
    if lines.len() == 0 {
        0
    } else {
        heard(lines.drop_last(), proto, v6) + if is_heard(lines.last(), proto, v6) {
            1nat
        } else {
            0nat
        }
    }
}

/// Whether a port is the one of a socket, listed under the name of its table.
pub open spec fn is_port_of(p: PortInfo, c: Conn, name: Seq<char>) -> bool {
    p.proto == name && p.addr == addr::endpoint_text(c.ip, c.port as nat) && p.port == c.port
}

/// Whether each of the lines that reads as a socket that listens or is bound has its port in a list.
pub open spec fn are_listed(
    lines: Seq<Seq<char>>,
    proto: Proto,
    v6: bool,
    name: Seq<char>,
    ports: Seq<PortInfo>,
) -> bool {
    forall|i: int|
        0 <= i < lines.len() && is_heard(#[trigger] lines[i], proto, v6) ==> exists|k: int|
            0 <= k < ports.len() && is_port_of(
                #[trigger] ports[k],
                conn::conn_on(lines[i], proto, v6)->0,
                name,
            )
}

/// Whether a port is that of one of the lines.
pub open spec fn comes_from(
    p: PortInfo,
    lines: Seq<Seq<char>>,
    proto: Proto,
    v6: bool,
    name: Seq<char>,
) -> bool {
    exists|i: int|
        0 <= i < lines.len() && is_heard(#[trigger] lines[i], proto, v6) && is_port_of(
            p,
            conn::conn_on(lines[i], proto, v6)->0,
            name,
        )
}

/// Every socket of each of the four tables that listens or is bound has its port in the list, under
/// the name of its table, with its address and its number. The list is as long as the tables have
/// such sockets together, and every port in it is that of such a socket.
pub proof fn law_every_table_is_listed(tables: Tables, procs: Seq<Proc>, list: Seq<PortInfo>)
    requires
        ports::is_port_list(list, ports::listening(tables.sockets()), procs),
    ensures
        are_listed(body(tables.tcp@), Proto::Tcp, false, "tcp"@, list),
        are_listed(body(tables.tcp6@), Proto::Tcp6, true, "tcp6"@, list),
        are_listed(body(tables.udp@), Proto::Udp, false, "udp"@, list),
        are_listed(body(tables.udp6@), Proto::Udp6, true, "udp6"@, list),
        list.len() == heard(body(tables.tcp@), Proto::Tcp, false) + heard(
            body(tables.tcp6@),
            Proto::Tcp6,
            true,
        ) + heard(body(tables.udp@), Proto::Udp, false) + heard(
            body(tables.udp6@),
            Proto::Udp6,
            true,
        ),
        forall|k: int|
            0 <= k < list.len() ==> {
                ||| comes_from(#[trigger] list[k], body(tables.tcp@), Proto::Tcp, false, "tcp"@)
                ||| comes_from(list[k], body(tables.tcp6@), Proto::Tcp6, true, "tcp6"@)
                ||| comes_from(list[k], body(tables.udp@), Proto::Udp, false, "udp"@)
                ||| comes_from(list[k], body(tables.udp6@), Proto::Udp6, true, "udp6"@)
            },
{
    let sockets = ports::listening(tables.sockets());
    ports::law_ports_are_complete(list, sockets, procs);
    lemma_body(tables.tcp@);
    lemma_body(tables.tcp6@);
    lemma_body(tables.udp@);
    lemma_body(tables.udp6@);
    let a = conn::conns_in(tables.tcp@, Proto::Tcp, false);
    let b = conn::conns_in(tables.tcp6@, Proto::Tcp6, true);
    let c = conn::conns_in(tables.udp@, Proto::Udp, false);
    let d = conn::conns_in(tables.udp6@, Proto::Udp6, true);
    let keep = |x: Conn| ports::listens(x);
    Seq::filter_distributes_over_add(a, b, keep);
    Seq::filter_distributes_over_add(a + b, c, keep);
    Seq::filter_distributes_over_add(a + b + c, d, keep);
    lemma_heard(body(tables.tcp@), Proto::Tcp, false);
    lemma_heard(body(tables.tcp6@), Proto::Tcp6, true);
    lemma_heard(body(tables.udp@), Proto::Udp, false);
    lemma_heard(body(tables.udp6@), Proto::Udp6, true);
    assert(sockets =~= ports::listening(a) + ports::listening(b) + ports::listening(c)
        + ports::listening(d));
    assert forall|x: Conn| #[trigger] tables.sockets().contains(x) <==> a.contains(x) || b.contains(
        x,
    ) || c.contains(x) || d.contains(x) by {
        lemma_sum_contains(a, b, x);
        lemma_sum_contains(a + b, c, x);
        lemma_sum_contains(a + b + c, d, x);
    }
    lemma_are_listed(tables, procs, list, tables.tcp@, Proto::Tcp, false);
    lemma_are_listed(tables, procs, list, tables.tcp6@, Proto::Tcp6, true);
    lemma_are_listed(tables, procs, list, tables.udp@, Proto::Udp, false);
    lemma_are_listed(tables, procs, list, tables.udp6@, Proto::Udp6, true);
    assert forall|k: int| 0 <= k < list.len() implies {
        ||| comes_from(#[trigger] list[k], body(tables.tcp@), Proto::Tcp, false, "tcp"@)
        ||| comes_from(list[k], body(tables.tcp6@), Proto::Tcp6, true, "tcp6"@)
        ||| comes_from(list[k], body(tables.udp@), Proto::Udp, false, "udp"@)
        ||| comes_from(list[k], body(tables.udp6@), Proto::Udp6, true, "udp6"@)
    } by {
        let m = choose|m: int|
            0 <= m < sockets.len() && list[k] == ports::port_of(
                #[trigger] sockets[m],
                ports::owner(procs, sockets, sockets[m].inode),
            );
        let x = sockets[m];
        assert(sockets.contains(x));
        ports::law_listening_only(tables.sockets(), x);
        if a.contains(x) {
            let i = lemma_conn_has_line(body(tables.tcp@), Proto::Tcp, false, x);
            assert(is_heard(body(tables.tcp@)[i], Proto::Tcp, false));
        } else if b.contains(x) {
            let i = lemma_conn_has_line(body(tables.tcp6@), Proto::Tcp6, true, x);
            assert(is_heard(body(tables.tcp6@)[i], Proto::Tcp6, true));
        } else if c.contains(x) {
            let i = lemma_conn_has_line(body(tables.udp@), Proto::Udp, false, x);
            assert(is_heard(body(tables.udp@)[i], Proto::Udp, false));
        } else {
            let i = lemma_conn_has_line(body(tables.udp6@), Proto::Udp6, true, x);
            assert(is_heard(body(tables.udp6@)[i], Proto::Udp6, true));
        }
    }
}

/// What stands below the head of a table.
proof fn lemma_body(content: Seq<char>)
    ensures
        conn::below_head(text::lines_of(content)) == body(content),
{
    let lines = text::lines_of(content);
    assert(conn::below_head(lines) =~= body(content));
}

/// Two parts hold what each of them holds.
proof fn lemma_sum_contains<A>(a: Seq<A>, b: Seq<A>, x: A)
    ensures
        (a + b).contains(x) <==> a.contains(x) || b.contains(x),
{
    let s = a + b;
    if a.contains(x) {
        assert(s[a.index_of(x)] == x);
    }
    if b.contains(x) {
        assert(s[a.len() + b.index_of(x)] == x);
    }
    if s.contains(x) {
        let k = s.index_of(x);
        if k < a.len() {
            assert(a[k] == x);
        } else {
            assert(b[k - a.len()] == x);
        }
    }
}

/// As many sockets listen or are bound as there are lines that say so.
proof fn lemma_heard(lines: Seq<Seq<char>>, proto: Proto, v6: bool)
    ensures
        ports::listening(conn::conns_on(lines, proto, v6)).len() == heard(lines, proto, v6),
    decreases lines.len(),
{
    reveal(Seq::filter);
    if lines.len() > 0 {
        lemma_heard(lines.drop_last(), proto, v6);
        if let Some(c) = conn::conn_on(lines.last(), proto, v6) {
            let all = conn::conns_on(lines, proto, v6);
            assert(all.drop_last() =~= conn::conns_on(lines.drop_last(), proto, v6));
            assert(all.last() == c);
        }
    }
}

/// The socket of a line is among those of its table.
proof fn lemma_line_has_conn(lines: Seq<Seq<char>>, proto: Proto, v6: bool, i: int)
    requires
        0 <= i < lines.len(),
        conn::conn_on(lines[i], proto, v6) is Some,
    ensures
        conn::conns_on(lines, proto, v6).contains(conn::conn_on(lines[i], proto, v6)->0),
    decreases lines.len(),
{
    let all = conn::conns_on(lines, proto, v6);
    let before = conn::conns_on(lines.drop_last(), proto, v6);
    let c = conn::conn_on(lines[i], proto, v6)->0;
    if i < lines.len() - 1 {
        lemma_line_has_conn(lines.drop_last(), proto, v6, i);
        let k = before.index_of(c);
        assert(all[k] == c);
    } else {
        assert(all[before.len() as int] == c);
    }
}

/// Every socket of a table has its line.
proof fn lemma_conn_has_line(lines: Seq<Seq<char>>, proto: Proto, v6: bool, c: Conn) -> (i: int)
    requires
        conn::conns_on(lines, proto, v6).contains(c),
    ensures
        0 <= i < lines.len(),
        conn::conn_on(lines[i], proto, v6) == Some(c),
    decreases lines.len(),
{
    let all = conn::conns_on(lines, proto, v6);
    let before = conn::conns_on(lines.drop_last(), proto, v6);
    let k = all.index_of(c);
    if lines.len() == 0 {
        0
    } else if conn::conn_on(lines.last(), proto, v6) == Some(c) {
        lines.len() - 1
    } else {
        assert(before[k] == c);
        lemma_conn_has_line(lines.drop_last(), proto, v6, c)
    }
}

/// The lines of one table have their ports in the list.
proof fn lemma_are_listed(
    tables: Tables,
    procs: Seq<Proc>,
    list: Seq<PortInfo>,
    content: Seq<char>,
    proto: Proto,
    v6: bool,
)
    requires
        ports::is_port_list(list, ports::listening(tables.sockets()), procs),
        forall|x: Conn| #[trigger]
            conn::conns_in(content, proto, v6).contains(x) ==> tables.sockets().contains(x),
    ensures
        are_listed(body(content), proto, v6, conn::proto_text(proto), list),
{
    let sockets = ports::listening(tables.sockets());
    let lines = body(content);
    lemma_body(content);
    ports::law_ports_are_complete(list, sockets, procs);
    assert forall|i: int| 0 <= i < lines.len() && is_heard(#[trigger] lines[i], proto, v6) implies exists|
        k: int,
    |
        0 <= k < list.len() && is_port_of(
            #[trigger] list[k],
            conn::conn_on(lines[i], proto, v6)->0,
            conn::proto_text(proto),
        ) by {
        let c = conn::conn_on(lines[i], proto, v6)->0;
        lemma_line_has_conn(lines, proto, v6, i);
        assert(conn::conns_in(content, proto, v6).contains(c));
        ports::law_listening_only(tables.sockets(), c);
        let m = sockets.index_of(c);
        let p = ports::port_of(sockets[m], ports::owner(procs, sockets, sockets[m].inode));
        assert(list.contains(p));
        let k = list.index_of(p);
        assert(is_port_of(list[k], c, conn::proto_text(proto)));
    }
}

/// The colon in an address with its port is the first one.
proof fn lemma_local_splits(address: Seq<char>, port: Seq<char>)
    requires
        !address.contains(':'),
    ensures
        text::split_at_first(address + ":"@ + port, ':') == Some((address, port)),
{
    reveal_strlit(":");
    let s = address + ":"@ + port;
    let n = address.len() as int;
    assert forall|i: int| 0 <= i < n implies #[trigger] s[i] != ':' by {
        assert(s[i] == address[i]);
    }
    assert(s[n] == ':');
    text::lemma_first_is(s, ':', n);
    assert(s.take(n) =~= address);
    assert(s.skip(n + 1) =~= port);
}

/// Digits in hexadecimal are no colon.
proof fn lemma_digits_lack_colon(s: Seq<char>)
    requires
        number::all_digits(s, 16),
    ensures
        !s.contains(':'),
{
    assert forall|i: int| 0 <= i < s.len() implies s[i] != ':' by {
        assert(number::digit_value(s[i]) < 16);
    }
}

/// An address of version 4 with its port is read back from what the kernel writes for it.
pub proof fn law_local_v4_reads_back(a: u8, b: u8, c: u8, d: u8, port: u16)
    ensures
        conn::local_in(
            addr::kernel_word(a, b, c, d) + ":"@ + number::padded(port as nat, 4, true),
            false,
        ) == Some((Address::V4(seq![a, b, c, d]), port)),
{
    let address = addr::kernel_word(a, b, c, d);
    reveal_with_fuel(number::room, 9);
    number::law_padded_round_trip(addr::number_of(a, b, c, d), 8, true, u32::MAX as nat);
    number::law_padded_round_trip(port as nat, 4, true, u16::MAX as nat);
    lemma_digits_lack_colon(address);
    lemma_local_splits(address, number::padded(port as nat, 4, true));
    addr::law_ipv4_reads_back(a, b, c, d);
}

/// An address of version 6 with its port is read back from what the kernel writes for it.
pub proof fn law_local_v6_reads_back(s: Seq<u16>, port: u16)
    requires
        s.len() == 8,
    ensures
        conn::local_in(
            addr::kernel_segments(s) + ":"@ + number::padded(port as nat, 4, true),
            true,
        ) == Some((Address::V6(s), port)),
{
    let address = addr::kernel_segments(s);
    reveal_with_fuel(number::room, 9);
    addr::lemma_kernel_segments_are_digits(s);
    number::law_padded_round_trip(port as nat, 4, true, u16::MAX as nat);
    lemma_digits_lack_colon(address);
    lemma_local_splits(address, number::padded(port as nat, 4, true));
    addr::law_ipv6_reads_back(s);
}

/// Whether the second word of a line gives the address and the port, the fourth the state, the
/// eighth the user and the tenth the inode of a socket.
pub open spec fn gives(line: Seq<char>, c: Conn, v6: bool) -> bool {
    let f = text::words_of(line);
    &&& f.len() >= 10
    &&& conn::local_in(f[1], v6) == Some((c.ip, c.port))
    &&& number::number_in(f[3], 16, 255) == Some(c.state as nat)
    &&& number::number_in(f[7], 10, 0xffff_ffff) == Some(c.uid as nat)
    &&& number::number_in(f[9], 10, 0xffff_ffff_ffff_ffff) == Some(c.inode as nat)
}

/// A line reads as a socket just where its words give all that a socket has.
pub proof fn law_socket_of_a_line(line: Seq<char>, c: Conn, v6: bool)
    ensures
        conn::conn_on(line, c.proto, v6) == Some(c) <==> gives(line, c, v6),
        conn::conn_on(line, c.proto, v6) is Some ==> gives(
            line,
            conn::conn_on(line, c.proto, v6)->0,
            v6,
        ) && conn::conn_on(line, c.proto, v6)->0.proto == c.proto,
{
}

/// A line as the kernel writes it reads as the socket that it was written for.
pub proof fn law_socket_line_reads_back(line: Seq<char>, c: Conn, v6: bool)
    requires
        ({
            let f = text::words_of(line);
            &&& f.len() >= 10
            &&& match c.ip {
                Address::V4(o) => !v6 && o.len() == 4 && f[1] == addr::kernel_word(
                    o[0],
                    o[1],
                    o[2],
                    o[3],
                ) + ":"@ + number::padded(c.port as nat, 4, true),
                Address::V6(s) => v6 && s.len() == 8 && f[1] == addr::kernel_segments(s) + ":"@
                    + number::padded(c.port as nat, 4, true),
            }
            &&& f[3] == number::padded(c.state as nat, 2, true)
            &&& f[7] == number::decimal(c.uid as nat)
            &&& f[9] == number::decimal(c.inode as nat)
        }),
    ensures
        conn::conn_on(line, c.proto, v6) == Some(c),
{
    let f = text::words_of(line);
    match c.ip {
        Address::V4(o) => {
            law_local_v4_reads_back(o[0], o[1], o[2], o[3], c.port);
            assert(seq![o[0], o[1], o[2], o[3]] =~= o);
        },
        Address::V6(s) => law_local_v6_reads_back(s, c.port),
    }
    reveal_with_fuel(number::room, 9);
    number::law_padded_round_trip(c.state as nat, 2, true, 255);
    number::law_number_round_trip(c.uid as nat, 10, u32::MAX as nat);
    number::law_number_round_trip(c.inode as nat, 10, u64::MAX as nat);
}

/// The name of a link to a socket: its inode in decimal, in brackets.
pub open spec fn link_name(inode: u64) -> Seq<char> {
    "socket:["@ + number::decimal(inode as nat) + "]"@
}

/// The inode of a socket is read back from the name of the link to it.
pub proof fn law_inode_reads_back(inode: u64)
    ensures
        ports::inode_in(link_name(inode)) == Some(inode as nat),
{
    reveal_strlit("socket:[");
    reveal_strlit("]");
    let d = number::decimal(inode as nat);
    let s = link_name(inode);
    number::law_number_round_trip(inode as nat, 10, u64::MAX as nat);
    assert(s.subrange(0, 8) =~= "socket:["@);
    assert(s.subrange(8, s.len() - 1) =~= d);
}

/// Only the name of a link to a socket has an inode in it: a number between the brackets.
pub proof fn law_inode_only_in_links(target: Seq<char>)
    ensures
        ports::inode_in(target) matches Some(n) ==> exists|d: Seq<char>|
            target == "socket:["@ + d + "]"@ && #[trigger] number::number_in(
                d,
                10,
                0xffff_ffff_ffff_ffff,
            ) == Some(n),
{
    reveal_strlit("socket:[");
    reveal_strlit("]");
    if let Some(n) = ports::inode_in(target) {
        let d = target.subrange(8, target.len() - 1);
        assert(target =~= target.subrange(0, 8) + d + "]"@);
        assert(target == "socket:["@ + d + "]"@);
        assert(number::number_in(d, 10, 0xffff_ffff_ffff_ffff) == Some(n));
    }
}

/// Whether a process of one of the users has a link to a socket with the inode.
pub open spec fn has_open(p: Proc, users: Seq<Conn>, inode: u64) -> bool {
    &&& exists|i: int| 0 <= i < users.len() && (#[trigger] users[i]).uid == p.uid
    &&& p.links matches Some(links) && exists|k: int|
        0 <= k < links@.len() && ports::inode_in((#[trigger] links@[k])@) == Some(inode as nat)
}

/// The process behind a socket is the last one that has it open, among those of users that have
/// sockets; it is shown by its name and its number. Where no such process has it open, none is
/// known.
pub proof fn law_owner_has_the_socket_open(procs: Seq<Proc>, sockets: Seq<Conn>, inode: u64)
    ensures
        match ports::owner(procs, sockets, inode) {
            None => forall|k: int|
                0 <= k < procs.len() ==> !has_open(#[trigger] procs[k], sockets, inode),
            Some(text) => exists|k: int|
                0 <= k < procs.len() && has_open(#[trigger] procs[k], sockets, inode) && (forall|
                    m: int,
                |
                    k < m < procs.len() ==> !has_open(#[trigger] procs[m], sockets, inode))
                    && text == ports::process_text(procs[k]),
        },
    decreases procs.len(),
{
    if procs.len() > 0 {
        let last = procs.len() - 1;
        assert(has_open(procs[last], sockets, inode) <==> ports::has_user(
            sockets,
            procs[last].uid,
        ) && ports::holds(procs[last], inode));
        if !has_open(procs[last], sockets, inode) {
            let before = procs.drop_last();
            law_owner_has_the_socket_open(before, sockets, inode);
            match ports::owner(before, sockets, inode) {
                None => {
                    assert forall|k: int| 0 <= k < procs.len() implies !has_open(
                        #[trigger] procs[k],
                        sockets,
                        inode,
                    ) by {
                        if k < last {
                            assert(before[k] == procs[k]);
                        }
                    }
                },
                Some(text) => {
                    let k = choose|k: int|
                        0 <= k < before.len() && has_open(#[trigger] before[k], sockets, inode) && (
                        forall|m: int|
                            k < m < before.len() ==> !has_open(
                                #[trigger] before[m],
                                sockets,
                                inode,
                            )) && text == ports::process_text(before[k]);
                    assert(before[k] == procs[k]);
                    assert forall|m: int| k < m < procs.len() implies !has_open(
                        #[trigger] procs[m],
                        sockets,
                        inode,
                    ) by {
                        if m < last {
                            assert(before[m] == procs[m]);
                        }
                    }
                },
            }
        }
    }
}

/// A process is shown by its name, without white space around it, and its number.
pub proof fn law_process_is_named(p: Proc)
    ensures
        match p.comm {
            Some(s) => ports::process_text(p) == text::trimmed(s@) + " (pid "@ + number::decimal(
                p.pid as nat,
            ) + ")"@,
            None => ports::process_text(p) == " (pid "@ + number::decimal(p.pid as nat) + ")"@,
        },
{
    if p.comm is None {
        assert(text::trimmed(Seq::<char>::empty()) =~= Seq::<char>::empty());
        assert(ports::process_text(p) =~= " (pid "@ + number::decimal(p.pid as nat) + ")"@);
    }
}

/// In the list, the process of each port is the one behind its socket.
pub proof fn law_ports_have_their_processes(
    tables: Tables,
    procs: Seq<Proc>,
    list: Seq<PortInfo>,
    k: int,
)
    requires
        ports::is_port_list(list, ports::listening(tables.sockets()), procs),
        0 <= k < list.len(),
    ensures
        exists|c: Conn| #[trigger]
            ports::listening(tables.sockets()).contains(c) && list[k].port == c.port
                && list[k].addr == addr::endpoint_text(c.ip, c.port as nat) && list[k].process
                == ports::owner(procs, ports::listening(tables.sockets()), c.inode),
{
    let sockets = ports::listening(tables.sockets());
    ports::law_ports_are_complete(list, sockets, procs);
    let m = choose|m: int|
        0 <= m < sockets.len() && list[k] == ports::port_of(
            #[trigger] sockets[m],
            ports::owner(procs, sockets, sockets[m].inode),
        );
    assert(sockets.contains(sockets[m]));
}

/// How many of the lines have four words or more and a state in the fourth; and of these, how many
/// the given one.
pub open spec fn in_state(lines: Seq<Seq<char>>, state: Option<nat>) -> nat
    decreases lines.len(),
{
    if lines.len() == 0 {
        0
    } else {
        let f = text::words_of(lines.last());
        let counts = f.len() >= 4 && match state {
            None => number::number_in(f[3], 16, 255) is Some,
            Some(n) => number::number_in(f[3], 16, 255) == Some(n),
        };
        in_state(lines.drop_last(), state) + if counts {
            1nat
        } else {
            0nat
        }
    }
}

/// The lines of a table that may not be there.
pub open spec fn body_of(content: Option<Seq<char>>) -> Seq<Seq<char>> {
    match content {
        Some(c) => body(c),
        None => Seq::empty(),
    }
}

/// The TCP sockets are counted line by line in both tables: those that listen, those with a
/// connection, and all.
pub proof fn law_tcp_sockets_are_counted(tcp: Option<Seq<char>>, tcp6: Option<Seq<char>>)
    ensures
        ({
            let states = ports::states_in(tcp) + ports::states_in(tcp6);
            &&& ports::tally(states, ports::LISTEN) == in_state(body_of(tcp), Some(0x0A))
                + in_state(body_of(tcp6), Some(0x0A))
            &&& ports::tally(states, ports::ESTABLISHED) == in_state(body_of(tcp), Some(0x01))
                + in_state(body_of(tcp6), Some(0x01))
            &&& states.len() == in_state(body_of(tcp), None) + in_state(body_of(tcp6), None)
        }),
{
    lemma_states_of(tcp, 0x0A);
    lemma_states_of(tcp6, 0x0A);
    lemma_states_of(tcp, 0x01);
    lemma_states_of(tcp6, 0x01);
    ports::lemma_tally_adds(ports::states_in(tcp), ports::states_in(tcp6), 0x0A);
    ports::lemma_tally_adds(ports::states_in(tcp), ports::states_in(tcp6), 0x01);
}

/// The states of a table are those of its lines.
proof fn lemma_states_of(content: Option<Seq<char>>, state: u8)
    ensures
        ports::tally(ports::states_in(content), state) == in_state(
            body_of(content),
            Some(state as nat),
        ),
        ports::states_in(content).len() == in_state(body_of(content), None),
{
    if let Some(c) = content {
        lemma_body(c);
        lemma_states_on(body(c), state);
    }
}

/// The states of lines are counted.
proof fn lemma_states_on(lines: Seq<Seq<char>>, state: u8)
    ensures
        ports::tally(ports::states_on(lines), state) == in_state(lines, Some(state as nat)),
        ports::states_on(lines).len() == in_state(lines, None),
    decreases lines.len(),
{
    if lines.len() > 0 {
        lemma_states_on(lines.drop_last(), state);
        if let Some(st) = ports::state_on(lines.last()) {
            let before = ports::states_on(lines.drop_last());
            assert(before.push(st as u8).drop_last() =~= before);
        }
    }
}

/// Whether the words of a line say that it is the default route: to everywhere, and over a gateway.
pub open spec fn is_default(line: Seq<char>) -> bool {
    let f = text::words_of(line);
    f.len() >= 3 && f[1] == "00000000"@ && f[2] != "00000000"@
}

/// The first default route decides: the first word of its line is the interface, and the third the
/// address of the gateway.
pub proof fn law_first_default_route_decides(lines: Seq<Seq<char>>, k: int)
    requires
        0 <= k < lines.len(),
        is_default(lines[k]),
        forall|j: int| 0 <= j < k ==> !is_default(#[trigger] lines[j]),
    ensures
        ({
            let f = text::words_of(lines[k]);
            net::gateway_on(lines) == match addr::ipv4_in(f[2]) {
                Some(a) => Some((f[0], a)),
                None => None,
            }
        }),
    decreases k,
{
    if k > 0 {
        let rest = lines.drop_first();
        assert(!is_default(lines[0]));
        assert forall|j: int| 0 <= j < k - 1 implies !is_default(#[trigger] rest[j]) by {
            assert(rest[j] == lines[j + 1]);
        }
        law_first_default_route_decides(rest, k - 1);
    }
}

/// Without a default route there is no gateway.
pub proof fn law_no_default_route_no_gateway(lines: Seq<Seq<char>>)
    requires
        forall|j: int| 0 <= j < lines.len() ==> !is_default(#[trigger] lines[j]),
    ensures
        net::gateway_on(lines) is None,
    decreases lines.len(),
{
    if lines.len() > 0 {
        let rest = lines.drop_first();
        assert(!is_default(lines[0]));
        assert forall|j: int| 0 <= j < rest.len() implies !is_default(#[trigger] rest[j]) by {
            assert(rest[j] == lines[j + 1]);
        }
        law_no_default_route_no_gateway(rest);
    }
}

/// The gateway is read back from the line that the kernel writes for its route.
pub proof fn law_gateway_reads_back(
    lines: Seq<Seq<char>>,
    k: int,
    iface: Seq<char>,
    a: u8,
    b: u8,
    c: u8,
    d: u8,
    more: Seq<Seq<char>>,
)
    requires
        0 <= k < lines.len(),
        forall|j: int| 0 <= j < k ==> !is_default(#[trigger] lines[j]),
        text::words_of(lines[k]) == seq![iface, "00000000"@, addr::kernel_word(a, b, c, d)] + more,
        a != 0 || b != 0 || c != 0 || d != 0,
    ensures
        net::gateway_on(lines) == Some((iface, seq![a, b, c, d])),
{
    let word = addr::kernel_word(a, b, c, d);
    addr::law_ipv4_reads_back(a, b, c, d);
    assert(word != "00000000"@) by {
        if word == "00000000"@ {
            reveal_strlit("00000000");
            reveal_with_fuel(number::room, 9);
            addr::law_ipv4_reads_back(0, 0, 0, 0);
            lemma_zeros();
            assert(seq![a, b, c, d][0] == seq![0u8, 0, 0, 0][0]);
            assert(seq![a, b, c, d][1] == seq![0u8, 0, 0, 0][1]);
            assert(seq![a, b, c, d][2] == seq![0u8, 0, 0, 0][2]);
            assert(seq![a, b, c, d][3] == seq![0u8, 0, 0, 0][3]);
        }
    }
    assert(is_default(lines[k]));
    law_first_default_route_decides(lines, k);
}

/// What the kernel writes for four bytes of zero.
proof fn lemma_zeros()
    ensures
        addr::kernel_word(0, 0, 0, 0) == "00000000"@,
{
    reveal_strlit("00000000");
    reveal_with_fuel(number::padded, 9);
    assert(addr::number_of(0, 0, 0, 0) == 0);
    assert(number::padded(0, 8, true) =~= "00000000"@);
}

/// The routes stand below the head of their table; where it could not be read there is no gateway.
pub proof fn law_routes_below_the_head(content: Seq<char>)
    ensures
        net::gateway_in(Some(content)) == net::gateway_on(body(content)),
        net::gateway_in(None) is None,
{
    lemma_body(content);
}

/// Name servers are read line by line: what stands behind the key, without white space around it,
/// is a server, and a line without the key or with nothing behind it gives none.
pub proof fn law_name_servers_line_by_line(
    lines: Seq<Seq<char>>,
    line: Seq<char>,
    rest: Seq<char>,
)
    ensures
        net::servers_on(Seq::<Seq<char>>::empty()) == Seq::<Seq<char>>::empty(),
        text::trimmed(line) == "nameserver"@ + rest && text::trimmed(rest).len() > 0
            ==> net::servers_on(lines.push(line)) == net::servers_on(lines).push(
            text::trimmed(rest),
        ),
        text::trimmed(line) == "nameserver"@ + rest && text::trimmed(rest).len() == 0
            ==> net::servers_on(lines.push(line)) == net::servers_on(lines),
        (forall|r: Seq<char>| text::trimmed(line) != #[trigger] ("nameserver"@ + r))
            ==> net::servers_on(lines.push(line)) == net::servers_on(lines),
{
    let t = text::trimmed(line);
    let key = "nameserver"@;
    assert(lines.push(line).drop_last() =~= lines);
    text_laws::law_holding(t, key);
    if t == key + rest {
        assert(t.skip(key.len() as int) =~= rest);
    }
}

/// All lines of the configuration count; where it could not be read there are no servers.
pub proof fn law_name_servers_of_a_text(content: Seq<char>)
    ensures
        net::servers_in(Some(content)) == net::servers_on(text::lines_of(content)),
        net::servers_in(None) == Seq::<Seq<char>>::empty(),
{
}

/// The name of the machine is what was read, without white space around it.
pub proof fn law_hostname(content: Seq<char>)
    ensures
        net::hostname_in(Some(content)) == text::trimmed(content),
        net::hostname_in(None) == "unknown"@,
{
}

/// The totals grow by what each interface but the loopback counts.
pub proof fn law_totals_add_up(v: Seq<Interface>, i: Interface)
    ensures
        forall|c: Counter| #[trigger] net::total_of(Seq::<Interface>::empty(), c) == 0,
        i.is_loopback ==> forall|c: Counter| #[trigger]
            net::total_of(v.push(i), c) == net::total_of(v, c),
        !i.is_loopback ==> {
            &&& net::total_of(v.push(i), Counter::RxRate) == net::total_of(v, Counter::RxRate)
                + i.rx_rate
            &&& net::total_of(v.push(i), Counter::TxRate) == net::total_of(v, Counter::TxRate)
                + i.tx_rate
            &&& net::total_of(v.push(i), Counter::Rx) == net::total_of(v, Counter::Rx) + i.total_rx
            &&& net::total_of(v.push(i), Counter::Tx) == net::total_of(v, Counter::Tx) + i.total_tx
        },
{
    assert(v.push(i).drop_last() =~= v);
}

/// The interfaces that are shown are those that were found, or else those to fall back on.
pub proof fn law_shown_interfaces(sources: Sources)
    ensures
        sources.interfaces@.len() > 0 ==> sources.shown() == sources.interfaces,
        sources.interfaces@.len() == 0 ==> sources.shown() == sources.fallback,
{
}

/// An address of version 6 is read back from the line that the kernel lists for an interface, and
/// shown with the length of its prefix.
pub proof fn law_listed_line_reads_back(
    line: Seq<char>,
    name: Seq<char>,
    s: Seq<u16>,
    prefix: u8,
)
    requires
        s.len() == 8,
        ({
            let f = text::words_of(line);
            &&& f.len() >= 4
            &&& f[0] == addr::listed_segments(s)
            &&& f[2] == number::padded(prefix as nat, 2, false)
            &&& f.last() == name
        }),
    ensures
        net::v6_on(line, name) == Some(addr::v6_text(s) + "/"@ + number::decimal(prefix as nat)),
{
    addr::law_listed_address_reads_back(s);
    reveal_with_fuel(number::room, 3);
    number::law_padded_round_trip(prefix as nat, 2, false, 255);
}

/// Only a line with the name of the interface at its end and the digits of an address in front lists
/// an address of it; the lines are read one after the other.
pub proof fn law_listed_lines(lines: Seq<Seq<char>>, line: Seq<char>, name: Seq<char>)
    ensures
        net::v6_on(line, name) is Some ==> {
            let f = text::words_of(line);
            &&& f.len() >= 4
            &&& f.last() == name
            &&& f[0].len() == 32
            &&& number::all_digits(f[0], 16)
        },
        net::v6_on_lines(Seq::<Seq<char>>::empty(), name) == Seq::<Seq<char>>::empty(),
        match net::v6_on(line, name) {
            Some(s) => net::v6_on_lines(lines.push(line), name) == net::v6_on_lines(
                lines,
                name,
            ).push(s),
            None => net::v6_on_lines(lines.push(line), name) == net::v6_on_lines(lines, name),
        },
        net::v6_listed(name, None) == Seq::<Seq<char>>::empty(),
        net::v6_listed(name, Some(line)) == net::v6_on_lines(text::lines_of(line), name),
{
    assert(lines.push(line).drop_last() =~= lines);
}

/// A socket, a port and an address are what their fields hold.
pub proof fn law_sockets_and_ports_hold_their_fields(
    c: RawConn,
    p: Port,
    a: addr::Ipv4Addr,
    b: addr::Ipv6Addr,
)
    ensures
        c@.state == c.state && c@.port == c.port && c@.uid == c.uid && c@.inode == c.inode
            && c@.proto == c.proto && c@.ip == c.ip@,
        p@.proto == p.proto@ && p@.addr == p.addr@ && p@.port == p.port,
        p.process is None <==> p@.process is None,
        p.process matches Some(s) ==> p@.process == Some(s@),
        a@ == a.octets@,
        b@ == b.segments@,
        addr::IpAddr::V4(a)@ == Address::V4(a.octets@),
        addr::IpAddr::V6(b)@ == Address::V6(b.segments@),
{
}

/// A text that is there is what it holds, and a gateway is its interface and its address.
pub proof fn law_optional_texts(a: String, b: &str, g: Gateway)
    ensures
        ports::text_of(Some(a)) == Some(a@),
        ports::text_of(None) is None,
        ports::slice_of(Some(b)) == Some(b@),
        ports::slice_of(None) is None,
        net::gateway_view(Some(g)) == Some((g.iface@, g.addr.octets@)),
        net::gateway_view(None) is None,
        net::SAMPLE_SECS == 1,
{
}

/// The sockets of a table are those of the lines below its head, in their order: each line gives its
/// socket, or none.
pub proof fn law_sockets_line_by_line(
    content: Seq<char>,
    lines: Seq<Seq<char>>,
    line: Seq<char>,
    proto: Proto,
    v6: bool,
)
    ensures
        conn::conns_in(content, proto, v6) == conn::conns_on(body(content), proto, v6),
        conn::conns_on(Seq::<Seq<char>>::empty(), proto, v6).len() == 0,
        match conn::conn_on(line, proto, v6) {
            Some(c) => conn::conns_on(lines.push(line), proto, v6) == conn::conns_on(
                lines,
                proto,
                v6,
            ).push(c),
            None => conn::conns_on(lines.push(line), proto, v6) == conn::conns_on(
                lines,
                proto,
                v6,
            ),
        },
{
    lemma_body(content);
    assert(lines.push(line).drop_last() =~= lines);
}

/// The map of processes has the inode of a socket just where one of them has it open, and gives the
/// process behind it.
pub proof fn law_map_gives_the_processes(
    map: Map<u64, String>,
    procs: Seq<Proc>,
    sockets: Seq<Conn>,
    inode: u64,
)
    requires
        ports::maps_owners(map, procs, sockets),
    ensures
        map.contains_key(inode) <==> (exists|i: int|
            0 <= i < sockets.len() && (#[trigger] sockets[i]).inode == inode) && (exists|k: int|
            0 <= k < procs.len() && has_open(#[trigger] procs[k], sockets, inode)),
        map.contains_key(inode) ==> ports::owner(procs, sockets, inode) == Some(map[inode]@),
{
    law_owner_has_the_socket_open(procs, sockets, inode);
    assert(map.contains_key(inode) <==> ports::has_inode(sockets, inode) && ports::owner(
        procs,
        sockets,
        inode,
    ) is Some);
}

/// Whether a text is made of the characters of ASCII.
pub open spec fn is_ascii(s: Seq<char>) -> bool {
    forall|i: int| 0 <= i < s.len() ==> (#[trigger] s[i] as u32) < 0x80
}

/// An address can only be torn where it is of version 6, takes 32 bytes and has a character beyond
/// ASCII.
pub proof fn law_ascii_is_never_torn(hex: Seq<char>, local: Seq<char>, content: Seq<char>)
    ensures
        is_ascii(hex) ==> !addr::is_torn(hex),
        text::utf8_len(hex) != 32 ==> !addr::is_torn(hex),
        !conn::local_is_torn(local, false),
        is_ascii(local) ==> !conn::local_is_torn(local, true),
        !conn::table_is_torn(content, false),
        (forall|i: int|
            0 <= i < body(content).len() ==> is_ascii(
                #[trigger] text::words_of(body(content)[i])[1],
            )) ==> !conn::table_is_torn(content, true),
{
    lemma_body(content);
    if is_ascii(hex) {
        addr::lemma_ascii_is_whole(hex);
    }
    if is_ascii(local) {
        lemma_ascii_local(local);
    }
    if forall|i: int|
        0 <= i < body(content).len() ==> is_ascii(#[trigger] text::words_of(body(content)[i])[1]) {
        assert forall|i: int| 0 <= i < body(content).len() implies !conn::line_is_torn(
            #[trigger] body(content)[i],
            true,
        ) by {
            let word = text::words_of(body(content)[i])[1];
            assert(is_ascii(word));
            lemma_ascii_local(word);
        }
    }
}

/// An address with a port in ASCII is not torn.
proof fn lemma_ascii_local(local: Seq<char>)
    requires
        is_ascii(local),
    ensures
        !conn::local_is_torn(local, true),
{
    if let Some((address, port)) = text::split_at_first(local, ':') {
        text::lemma_first(local, ':');
        assert forall|i: int| 0 <= i < address.len() implies (#[trigger] address[i] as u32)
            < 0x80 by {
            assert(address[i] == local[i]);
        }
        addr::lemma_ascii_is_whole(address);
    }
}

/// A picture can be made where the loopback is told by its name, no address is torn, the tables are
/// not too long to be counted, and the totals fit into their numbers.
pub proof fn law_sound_sources(s: Sources)
    ensures
        s.wf() <==> {
            &&& forall|k: int|
                0 <= k < s.shown()@.len() ==> (#[trigger] s.shown()@[k]).is_loopback == (
                s.shown()@[k].name@ == "lo"@)
            &&& !conn::table_is_torn(s.tables.tcp6@, true)
            &&& !conn::table_is_torn(s.tables.udp6@, true)
            &&& s.tables.tcp@.len() + s.tables.tcp6@.len() <= usize::MAX
            &&& net::total_of(s.shown()@, Counter::RxRate) <= 0xffff_ffff_ffff_ffff
            &&& net::total_of(s.shown()@, Counter::TxRate) <= 0xffff_ffff_ffff_ffff
            &&& net::total_of(s.shown()@, Counter::Rx) <= 0xffff_ffff_ffff_ffff
            &&& net::total_of(s.shown()@, Counter::Tx) <= 0xffff_ffff_ffff_ffff
        },
{
    law_ascii_is_never_torn(Seq::empty(), Seq::empty(), s.tables.tcp@);
    law_ascii_is_never_torn(Seq::empty(), Seq::empty(), s.tables.udp@);
}

} // verus!
