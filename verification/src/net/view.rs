//! How a picture of the network is laid out.

use vstd::prelude::*;

use crate::net::{addr, ports, Interface, NetInfo, Port};
use crate::number;
use crate::style;
use crate::style::{Color, Line, Style};
use crate::text;
use crate::ui;
use crate::width;

verus! {

/// The width of the keys of an interface.
pub const KEY_WIDTH: usize = 8;

/// The width of the keys of the routes and connections.
pub const ROUTE_KEY_WIDTH: usize = 10;

/// The least width of a column of the ports.
pub const PORT_COLUMN_MIN: usize = 4;

/// A text with spaces behind it up to a width.
pub open spec fn padded(s: Seq<char>, target: nat) -> Seq<char> {
    width::filled(s, width::display_width(s) as nat, target)
}

/// A rate as it is shown.
pub open spec fn rate_text(bytes_per_sec: u64) -> Seq<char> {
    ui::bytes_text(bytes_per_sec) + "/s"@
}

/// A key, indented and padded, and its value.
pub open spec fn pair(key: Seq<char>, target: nat, value: (Seq<char>, Style)) -> Seq<
    (Seq<char>, Style),
> {
    seq![style::plain("    "@ + padded(key, target)), value]
}

/// What goes in and what goes out.
pub open spec fn in_and_out(rx: Seq<char>, tx: Seq<char>) -> Seq<char> {
    "↓ "@ + rx + "   ↑ "@ + tx
}

/// The head of a section.
pub open spec fn head(title: Seq<char>) -> Seq<(Seq<char>, Style)> {
    seq![style::plain("  "@), (title, style::bold(style::colored(Color::Cyan)))]
}

/// The lines of the rates.
pub open spec fn rate_lines(net: NetInfo) -> Seq<Seq<(Seq<char>, Style)>> {
    seq![
        seq![
            style::plain("    "@),
            ("↓ 下载"@, style::bold(style::colored(Color::Green))),
            style::plain("  "@),
            (text::right_aligned(rate_text(net.total_rx_rate), 12), style::colored(Color::Green)),
        ],
        seq![
            style::plain("    "@),
            ("↑ 上传"@, style::bold(style::colored(Color::Yellow))),
            style::plain("  "@),
            (text::right_aligned(rate_text(net.total_tx_rate), 12), style::colored(Color::Yellow)),
        ],
        seq![
            style::plain("    "@),
            (
                "累计 "@ + in_and_out(ui::bytes_text(net.total_rx), ui::bytes_text(net.total_tx)),
                style::faint(),
            ),
        ],
    ]
}

/// Whether an address is one of version 6.
pub open spec fn is_v6(ip: Seq<char>) -> bool {
    ip.contains(':')
}

/// The lines of the addresses of one version, as they come.
pub open spec fn ip_lines(ips: Seq<Seq<char>>, v6: bool) -> Seq<Seq<(Seq<char>, Style)>>
    decreases ips.len(),
{
    if ips.len() == 0 {
        Seq::empty()
    } else if is_v6(ips.last()) == v6 {
        ip_lines(ips.drop_last(), v6).push(
            if v6 {
                pair("IPv6"@, KEY_WIDTH as nat, (ips.last(), style::colored(Color::Blue)))
            } else {
                pair("IPv4"@, KEY_WIDTH as nat, (ips.last(), style::colored(Color::Green)))
            },
        )
    } else {
        ip_lines(ips.drop_last(), v6)
    }
}

/// The lines of an interface.
pub open spec fn interface_lines(i: Interface) -> Seq<Seq<(Seq<char>, Style)>> {
    let ips = text::texts(i.ips@);
    seq![
        seq![
            style::plain("    "@),
            ("●"@, style::bold(style::colored(Color::Cyan))),
            style::plain("  "@),
            (
                if i.is_loopback {
                    i.name@ + " (回环)"@
                } else {
                    i.name@
                },
                style::bold(style::unstyled()),
            ),
        ],
        pair(
            "MAC"@,
            KEY_WIDTH as nat,
            if i.mac@.len() == 0 {
                ("—"@, style::faint())
            } else {
                style::plain(i.mac@)
            },
        ),
    ] + (if ips.len() == 0 {
        seq![pair("IP"@, KEY_WIDTH as nat, ("无"@, style::faint()))]
    } else {
        ip_lines(ips, false) + ip_lines(ips, true)
    }) + seq![
        pair(
            "速度"@,
            KEY_WIDTH as nat,
            style::plain(in_and_out(rate_text(i.rx_rate), rate_text(i.tx_rate))),
        ),
        pair(
            "累计"@,
            KEY_WIDTH as nat,
            style::plain(in_and_out(ui::bytes_text(i.total_rx), ui::bytes_text(i.total_tx))),
        ),
    ]
}

/// The lines of interfaces, with an empty line between two.
pub open spec fn all_interface_lines(v: Seq<Interface>) -> Seq<Seq<(Seq<char>, Style)>>
    decreases v.len(),
{
    if v.len() == 0 {
        Seq::empty()
    } else if v.len() == 1 {
        interface_lines(v[0])
    } else {
        all_interface_lines(v.drop_last()) + seq![Seq::empty()] + interface_lines(v.last())
    }
}

/// The process of a port as it is shown.
pub open spec fn process_of(p: ports::PortInfo) -> Seq<char> {
    match p.process {
        Some(s) => s,
        None => ""@,
    }
}

/// The widths of the tables that ports are listed in.
pub open spec fn proto_widths(v: Seq<ports::PortInfo>) -> Seq<usize> {
    v.map_values(|p: ports::PortInfo| width::display_width(p.proto))
}

/// The widths of the addresses of ports.
pub open spec fn addr_widths(v: Seq<ports::PortInfo>) -> Seq<usize> {
    v.map_values(|p: ports::PortInfo| width::display_width(p.addr))
}

/// The widths of the processes of ports; an unknown one takes no room.
pub open spec fn process_widths(v: Seq<ports::PortInfo>) -> Seq<usize> {
    v.map_values(
        |p: ports::PortInfo|
            match p.process {
                Some(s) => width::display_width(s),
                None => 0,
            },
    )
}

/// The width of a column.
pub open spec fn column(widths: Seq<usize>) -> nat {
    if width::widest_of(widths) < PORT_COLUMN_MIN {
        PORT_COLUMN_MIN as nat
    } else {
        width::widest_of(widths)
    }
}

/// The line of a port.
pub open spec fn port_line(p: ports::PortInfo, protos: nat, addrs: nat) -> Seq<
    (Seq<char>, Style),
> {
    seq![
        style::plain(
            "    "@ + padded(p.proto, protos) + "  "@ + padded(p.addr, addrs) + "  "@ + process_of(
                p,
            ),
        ),
    ]
}

/// The lines of the ports.
pub open spec fn port_lines(v: Seq<ports::PortInfo>) -> Seq<Seq<(Seq<char>, Style)>> {
    if v.len() == 0 {
        seq![seq![style::plain("    "@), ("（无）"@, style::faint())]]
    } else {
        let bold = style::bold(style::unstyled());
        seq![
            seq![
                style::plain("    "@),
                (padded("协议"@, column(proto_widths(v))), bold),
                style::plain("  "@),
                (padded("地址"@, column(addr_widths(v))), bold),
                style::plain("  "@),
                (padded("进程"@, column(process_widths(v))), bold),
            ],
        ] + v.map_values(
            |p: ports::PortInfo|
                port_line(p, column(proto_widths(v)), column(addr_widths(v))),
        )
    }
}

/// The lines of the routes and connections.
pub open spec fn route_lines(net: NetInfo) -> Seq<Seq<(Seq<char>, Style)>> {
    seq![
        pair(
            "默认网关"@,
            ROUTE_KEY_WIDTH as nat,
            match net.gateway {
                Some(g) => (
                    addr::v4_text(g.addr@) + "  ("@ + g.iface@ + ")"@,
                    style::colored(Color::Green),
                ),
                None => ("无"@, style::faint()),
            },
        ),
        pair(
            "DNS"@,
            ROUTE_KEY_WIDTH as nat,
            if net.dns@.len() == 0 {
                ("未配置"@, style::faint())
            } else {
                (text::joined(text::texts(net.dns@), "  "@), style::colored(Color::Green))
            },
        ),
        pair(
            "TCP 连接"@,
            ROUTE_KEY_WIDTH as nat,
            style::plain(
                number::decimal(net.tcp_total as nat) + "（监听 "@ + number::decimal(
                    net.tcp_listen as nat,
                ) + " · 已建立 "@ + number::decimal(net.tcp_established as nat) + "）"@,
            ),
        ),
    ]
}

/// All lines of the picture.
pub open spec fn picture(net: NetInfo) -> Seq<Seq<(Seq<char>, Style)>> {
    let blank = seq![Seq::<(Seq<char>, Style)>::empty()];
    seq![
        seq![
            style::plain("  "@),
            ("网络概览"@, style::bold(style::colored(Color::Cyan))),
            style::plain("  ·  "@),
            (net.hostname@, style::bold(style::colored(Color::Yellow))),
        ],
    ] + rate_lines(net) + blank + seq![head("网络接口"@)] + all_interface_lines(net.interfaces@)
        + blank + seq![
        head("监听端口"@).push(
            style::plain("  （"@ + number::decimal(net.ports@.len()) + " 个监听/绑定端口）"@),
        ),
    ] + port_lines(ports::ports_of(net.ports@)) + blank + seq![head("路由与连接"@)] + route_lines(net)
        + blank
}

/// Writes a rate.
pub fn format_rate(bytes_per_sec: u64) -> (s: String)
    ensures
        s@ == rate_text(bytes_per_sec),
{
    let mut s: String = ui::format_bytes(bytes_per_sec);
    s.append("/s");
    s
}

/// Adds a line.
fn add_line(lines: &mut Vec<Line>, line: Line)
    ensures
        style::shown(final(lines)@) == style::shown(old(lines)@).push(line@),
{
    lines.push(line);
    assert(style::shown(lines@) =~= style::shown(old(lines)@).push(line@));
}

/// Lays out a key and its value.
fn lay_out_pair(key: &str, target: usize, value: String, look: Style) -> (line: Line)
    ensures
        line@ == pair(key@, target as nat, (value@, look)),
{
    let mut left = "    ".to_string();
    left.append(width::pad_right(key, target).as_str());
    let mut line = Line::new();
    line.push(left, Style::none());
    line.push(value, look);
    assert(line@ =~= pair(key@, target as nat, (value@, look)));
    line
}

/// Writes what goes in and what goes out.
fn lay_out_in_and_out(out: &mut String, rx: &str, tx: &str)
    ensures
        final(out)@ == old(out)@ + in_and_out(rx@, tx@),
{
    out.append("↓ ");
    out.append(rx);
    out.append("   ↑ ");
    out.append(tx);
    assert(out@ =~= old(out)@ + in_and_out(rx@, tx@));
}

/// Lays out the head of a section.
fn lay_out_head(title: &str) -> (line: Line)
    ensures
        line@ == head(title@),
{
    let mut line = Line::new();
    line.push_plain("  ");
    line.push(title.to_string(), Style::fg(Color::Cyan).in_bold());
    line
}

/// Lays out the rates.
pub fn print_rates(net: &NetInfo) -> (lines: Vec<Line>)
    ensures
        style::shown(lines@) == rate_lines(*net),
{
    let mut down = Line::new();
    down.push_plain("    ");
    down.push("↓ 下载".to_string(), Style::fg(Color::Green).in_bold());
    down.push_plain("  ");
    down.push(
        text::align_right(format_rate(net.total_rx_rate).as_str(), 12),
        Style::fg(Color::Green),
    );
    let mut up = Line::new();
    up.push_plain("    ");
    up.push("↑ 上传".to_string(), Style::fg(Color::Yellow).in_bold());
    up.push_plain("  ");
    up.push(
        text::align_right(format_rate(net.total_tx_rate).as_str(), 12),
        Style::fg(Color::Yellow),
    );
    let mut sums = "累计 ".to_string();
    lay_out_in_and_out(
        &mut sums,
        ui::format_bytes(net.total_rx).as_str(),
        ui::format_bytes(net.total_tx).as_str(),
    );
    let mut total = Line::new();
    total.push_plain("    ");
    total.push(sums, Style::dim());
    let ghost full = rate_lines(*net);
    assert(down@ =~= full[0]);
    assert(up@ =~= full[1]);
    assert(total@ =~= full[2]);
    let mut lines: Vec<Line> = Vec::new();
    add_line(&mut lines, down);
    add_line(&mut lines, up);
    add_line(&mut lines, total);
    assert(style::shown(lines@) =~= full);
    lines
}

/// Lays out the addresses of one version.
fn lay_out_ips(lines: &mut Vec<Line>, ips: &Vec<String>, v6: bool)
    ensures
        style::shown(final(lines)@) == style::shown(old(lines)@) + ip_lines(
            text::texts(ips@),
            v6,
        ),
{
    let ghost start = style::shown(lines@);
    let ghost all = text::texts(ips@);
    assert(start =~= start + ip_lines(all.take(0), v6));
    for i in 0..ips.len()
        invariant
            all == text::texts(ips@),
            style::shown(lines@) == start + ip_lines(all.take(i as int), v6),
    {
        assert(all.take(i + 1).drop_last() == all.take(i as int));
        assert(all.take(i + 1).last() == ips@[i as int]@);
        let ghost before = style::shown(lines@);
        if text::contains_char(text::chars_of(ips[i].as_str()).as_slice(), ':') == v6 {
            let line = if v6 {
                lay_out_pair("IPv6", KEY_WIDTH, ips[i].clone(), Style::fg(Color::Blue))
            } else {
                lay_out_pair("IPv4", KEY_WIDTH, ips[i].clone(), Style::fg(Color::Green))
            };
            add_line(lines, line);
            assert(style::shown(lines@) =~= start + ip_lines(all.take(i + 1), v6));
        }
    }
    assert(all.take(all.len() as int) == all);
}

/// Lays out an interface.
pub fn print_interface(i: &Interface) -> (lines: Vec<Line>)
    ensures
        style::shown(lines@) == interface_lines(*i),
{
    let mut lines: Vec<Line> = Vec::new();
    let mut name: String = i.name.clone();
    if i.is_loopback {
        name.append(" (回环)");
    }
    let mut title = Line::new();
    title.push_plain("    ");
    title.push("●".to_string(), Style::fg(Color::Cyan).in_bold());
    title.push_plain("  ");
    title.push(name, Style::none().in_bold());
    let ghost full = interface_lines(*i);
    let ghost first = title@;
    assert(first =~= full[0]);
    add_line(&mut lines, title);
    let mac = if i.mac.as_str().unicode_len() == 0 {
        lay_out_pair("MAC", KEY_WIDTH, "—".to_string(), Style::dim())
    } else {
        lay_out_pair("MAC", KEY_WIDTH, i.mac.clone(), Style::none())
    };
    let ghost second = mac@;
    assert(second =~= full[1]);
    add_line(&mut lines, mac);
    assert(style::shown(lines@) =~= seq![first, second]);
    if i.ips.len() == 0 {
        add_line(&mut lines, lay_out_pair("IP", KEY_WIDTH, "无".to_string(), Style::dim()));
    } else {
        lay_out_ips(&mut lines, &i.ips, false);
        lay_out_ips(&mut lines, &i.ips, true);
    }
    let ghost ips = text::texts(i.ips@);
    let ghost middle = style::shown(lines@);
    assert(middle =~= seq![first, second] + (if ips.len() == 0 {
        seq![pair("IP"@, KEY_WIDTH as nat, ("无"@, style::faint()))]
    } else {
        ip_lines(ips, false) + ip_lines(ips, true)
    }));
    let mut speed = String::new();
    lay_out_in_and_out(
        &mut speed,
        format_rate(i.rx_rate).as_str(),
        format_rate(i.tx_rate).as_str(),
    );
    assert(speed@ =~= in_and_out(rate_text(i.rx_rate), rate_text(i.tx_rate)));
    add_line(&mut lines, lay_out_pair("速度", KEY_WIDTH, speed, Style::none()));
    let mut sums = String::new();
    lay_out_in_and_out(
        &mut sums,
        ui::format_bytes(i.total_rx).as_str(),
        ui::format_bytes(i.total_tx).as_str(),
    );
    assert(sums@ =~= in_and_out(ui::bytes_text(i.total_rx), ui::bytes_text(i.total_tx)));
    add_line(&mut lines, lay_out_pair("累计", KEY_WIDTH, sums, Style::none()));
    assert(style::shown(lines@) =~= middle + seq![
        pair("速度"@, KEY_WIDTH as nat, style::plain(speed@)),
        pair("累计"@, KEY_WIDTH as nat, style::plain(sums@)),
    ]);
    assert(style::shown(lines@) =~= full);
    lines
}

/// The width of a column that holds texts of these widths.
pub fn column_width(widths: &Vec<usize>) -> (w: usize)
    ensures
        w == column(widths@),
{
    let widest: usize = width::widest(widths);
    if widest < PORT_COLUMN_MIN {
        PORT_COLUMN_MIN
    } else {
        widest
    }
}

/// Lays out the line of a port.
fn print_port(p: &Port, protos: usize, addrs: usize) -> (line: Line)
    ensures
        line@ == port_line(p@, protos as nat, addrs as nat),
{
    let mut s = "    ".to_string();
    s.append(width::pad_right(p.proto.as_str(), protos).as_str());
    s.append("  ");
    s.append(width::pad_right(p.addr.as_str(), addrs).as_str());
    s.append("  ");
    if let Some(process) = &p.process {
        s.append(process.as_str());
    } else {
        s.append("");
    }
    assert(s@ =~= port_line(p@, protos as nat, addrs as nat)[0].0);
    let mut line = Line::new();
    line.push(s, Style::none());
    line
}

/// Lays out the ports.
pub fn print_ports(v: &Vec<Port>) -> (lines: Vec<Line>)
    ensures
        style::shown(lines@) == port_lines(ports::ports_of(v@)),
{
    let mut lines: Vec<Line> = Vec::new();
    let ghost all = ports::ports_of(v@);
    if v.len() == 0 {
        let mut line = Line::new();
        line.push_plain("    ");
        line.push("（无）".to_string(), Style::dim());
        assert(line@ =~= port_lines(all)[0]);
        add_line(&mut lines, line);
        assert(style::shown(lines@) =~= port_lines(all));
        return lines;
    }
    let mut proto_w: Vec<usize> = Vec::new();
    let mut addr_w: Vec<usize> = Vec::new();
    let mut process_w: Vec<usize> = Vec::new();
    for i in 0..v.len()
        invariant
            all == ports::ports_of(v@),
            proto_w@ == proto_widths(all).take(i as int),
            addr_w@ == addr_widths(all).take(i as int),
            process_w@ == process_widths(all).take(i as int),
    {
        assert(all[i as int] == v@[i as int]@);
        proto_w.push(width::width_of(v[i].proto.as_str()));
        addr_w.push(width::width_of(v[i].addr.as_str()));
        process_w.push(
            match &v[i].process {
                Some(s) => width::width_of(s.as_str()),
                None => 0,
            },
        );
        assert(proto_w@ =~= proto_widths(all).take(i + 1));
        assert(addr_w@ =~= addr_widths(all).take(i + 1));
        assert(process_w@ =~= process_widths(all).take(i + 1));
    }
    assert(proto_w@ =~= proto_widths(all));
    assert(addr_w@ =~= addr_widths(all));
    assert(process_w@ =~= process_widths(all));
    let protos: usize = column_width(&proto_w);
    let addrs: usize = column_width(&addr_w);
    let processes: usize = column_width(&process_w);
    let bold = Style::none().in_bold();
    let mut title = Line::new();
    title.push_plain("    ");
    title.push(width::pad_right("协议", protos), bold);
    title.push_plain("  ");
    title.push(width::pad_right("地址", addrs), bold);
    title.push_plain("  ");
    title.push(width::pad_right("进程", processes), bold);
    let ghost full = port_lines(all);
    assert(title@ =~= full[0]);
    add_line(&mut lines, title);
    assert(style::shown(lines@) =~= full.take(1));
    for i in 0..v.len()
        invariant
            all == ports::ports_of(v@),
            full == port_lines(all),
            v@.len() > 0,
            protos == column(proto_widths(all)),
            addrs == column(addr_widths(all)),
            style::shown(lines@) == full.take(i + 1),
    {
        let ghost before = style::shown(lines@);
        assert(all[i as int] == v@[i as int]@);
        let line = print_port(&v[i], protos, addrs);
        assert(line@ == full[i + 1]);
        add_line(&mut lines, line);
        assert(full.take(i + 2) =~= before.push(full[i + 1]));
    }
    assert(full.take(v@.len() + 1int) =~= full);
    lines
}

/// Lays out the routes and connections.
fn print_routes(net: &NetInfo) -> (lines: Vec<Line>)
    ensures
        style::shown(lines@) == route_lines(*net),
{
    let ghost full = route_lines(*net);
    let mut lines: Vec<Line> = Vec::new();
    let gateway = match &net.gateway {
        Some(g) => {
            let mut s = String::new();
            addr::append_ipv4(&mut s, &g.addr);
            s.append("  (");
            s.append(g.iface.as_str());
            s.append(")");
            assert(s@ =~= addr::v4_text(g.addr@) + "  ("@ + g.iface@ + ")"@);
            lay_out_pair("默认网关", ROUTE_KEY_WIDTH, s, Style::fg(Color::Green))
        },
        None => lay_out_pair("默认网关", ROUTE_KEY_WIDTH, "无".to_string(), Style::dim()),
    };
    assert(gateway@ == full[0]);
    add_line(&mut lines, gateway);
    let dns = if net.dns.len() == 0 {
        lay_out_pair("DNS", ROUTE_KEY_WIDTH, "未配置".to_string(), Style::dim())
    } else {
        lay_out_pair("DNS", ROUTE_KEY_WIDTH, text::join(&net.dns, "  "), Style::fg(Color::Green))
    };
    assert(dns@ == full[1]);
    add_line(&mut lines, dns);
    let mut tcp = String::new();
    number::append_decimal(&mut tcp, net.tcp_total as u64);
    tcp.append("（监听 ");
    number::append_decimal(&mut tcp, net.tcp_listen as u64);
    tcp.append(" · 已建立 ");
    number::append_decimal(&mut tcp, net.tcp_established as u64);
    tcp.append("）");
    assert(tcp@ =~= number::decimal(net.tcp_total as nat) + "（监听 "@ + number::decimal(
        net.tcp_listen as nat,
    ) + " · 已建立 "@ + number::decimal(net.tcp_established as nat) + "）"@);
    let tcp = lay_out_pair("TCP 连接", ROUTE_KEY_WIDTH, tcp, Style::none());
    assert(tcp@ == full[2]);
    add_line(&mut lines, tcp);
    assert(style::shown(lines@) =~= full);
    lines
}

/// Adds lines.
fn add_lines(lines: &mut Vec<Line>, more: Vec<Line>)
    ensures
        style::shown(final(lines)@) == style::shown(old(lines)@) + style::shown(more@),
{
    let mut more: Vec<Line> = more;
    let ghost tail = more@;
    lines.append(&mut more);
    assert(style::shown(lines@) =~= style::shown(old(lines)@) + style::shown(tail));
}

/// Adds an empty line.
fn add_blank(lines: &mut Vec<Line>)
    ensures
        style::shown(final(lines)@) == style::shown(old(lines)@) + seq![
            Seq::<(Seq<char>, Style)>::empty(),
        ],
{
    add_line(lines, Line::new());
    assert(style::shown(lines@) =~= style::shown(old(lines)@) + seq![
        Seq::<(Seq<char>, Style)>::empty(),
    ]);
}

/// Lays out the interfaces.
fn print_interfaces(lines: &mut Vec<Line>, v: &Vec<Interface>)
    ensures
        style::shown(final(lines)@) == style::shown(old(lines)@) + all_interface_lines(v@),
{
    let ghost start = style::shown(lines@);
    assert(start =~= start + all_interface_lines(v@.take(0)));
    for i in 0..v.len()
        invariant
            style::shown(lines@) == start + all_interface_lines(v@.take(i as int)),
    {
        assert(v@.take(i + 1).drop_last() == v@.take(i as int));
        assert(v@.take(i + 1).last() == v@[i as int]);
        if i > 0 {
            add_blank(lines);
        }
        add_lines(lines, print_interface(&v[i]));
        assert(style::shown(lines@) =~= start + all_interface_lines(v@.take(i + 1)));
    }
    assert(v@.take(v@.len() as int) == v@);
}

/// Lays out a picture of the network.
pub fn print(net: &NetInfo) -> (lines: Vec<Line>)
    ensures
        style::shown(lines@) == picture(*net),
{
    let ghost blank = seq![Seq::<(Seq<char>, Style)>::empty()];
    let mut lines: Vec<Line> = Vec::new();
    let mut title = Line::new();
    title.push_plain("  ");
    title.push("网络概览".to_string(), Style::fg(Color::Cyan).in_bold());
    title.push_plain("  ·  ");
    title.push(net.hostname.clone(), Style::fg(Color::Yellow).in_bold());
    let ghost first = title@;
    assert(first =~= seq![
        style::plain("  "@),
        ("网络概览"@, style::bold(style::colored(Color::Cyan))),
        style::plain("  ·  "@),
        (net.hostname@, style::bold(style::colored(Color::Yellow))),
    ]);
    add_line(&mut lines, title);
    add_lines(&mut lines, print_rates(net));
    add_blank(&mut lines);
    add_line(&mut lines, lay_out_head("网络接口"));
    assert(style::shown(lines@) =~= seq![first] + rate_lines(*net) + blank + seq![
        head("网络接口"@),
    ]);
    print_interfaces(&mut lines, &net.interfaces);
    add_blank(&mut lines);
    let ghost upper = style::shown(lines@);
    let mut count = "  （".to_string();
    number::append_decimal(&mut count, net.ports.len() as u64);
    count.append(" 个监听/绑定端口）");
    assert(count@ =~= "  （"@ + number::decimal(net.ports@.len()) + " 个监听/绑定端口）"@);
    let mut title = lay_out_head("监听端口");
    title.push(count, Style::none());
    let ghost second = title@;
    assert(second == head("监听端口"@).push(style::plain(count@)));
    add_line(&mut lines, title);
    add_lines(&mut lines, print_ports(&net.ports));
    add_blank(&mut lines);
    add_line(&mut lines, lay_out_head("路由与连接"));
    add_lines(&mut lines, print_routes(net));
    add_blank(&mut lines);
    assert(style::shown(lines@) =~= upper + seq![second] + port_lines(
        ports::ports_of(net.ports@),
    ) + blank + seq![head("路由与连接"@)] + route_lines(*net) + blank);
    assert(style::shown(lines@) =~= picture(*net));
    lines
}

} // verus!
