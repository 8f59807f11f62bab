//! What holds of the picture of the network.

use vstd::prelude::*;

use super::view;
use crate::net::ports::PortInfo;
use crate::net::{addr, ports, Interface, NetInfo};
use crate::number;
use crate::style::{Color, Style};
use crate::text;
use crate::ui;
use crate::width;

verus! {

/// Text in a colour.
pub open spec fn fg(color: Color) -> Style {
    Style { fg: Some(color), bg: None, bold: false, dimmed: false }
}

/// Text in a colour and in bold.
pub open spec fn strong(color: Color) -> Style {
    Style { fg: Some(color), bg: None, bold: true, dimmed: false }
}

/// Text as it is.
pub open spec fn bare() -> Style {
    Style { fg: None, bg: None, bold: false, dimmed: false }
}

/// Faint text.
pub open spec fn dim() -> Style {
    Style { fg: None, bg: None, bold: false, dimmed: true }
}

/// What goes in and out, behind arrows down and up.
pub open spec fn down_and_up(rx: Seq<char>, tx: Seq<char>) -> Seq<char> {
    "↓ "@ + rx + "   ↑ "@ + tx
}

/// A rate is a size for each second.
pub proof fn law_rates(bytes: u64)
    ensures
        view::rate_text(bytes) == ui::bytes_text(bytes) + "/s"@,
{
}

/// At the top are the rates of what comes in and of what goes out, each in its own line behind its
/// label, and below them what came in and went out altogether.
pub proof fn law_rates_at_the_top(net: NetInfo)
    ensures
        ({
            let lines = view::rate_lines(net);
            &&& lines.len() == 3
            &&& lines[0] == seq![
                ("    "@, bare()),
                ("↓ 下载"@, strong(Color::Green)),
                ("  "@, bare()),
                (
                    text::right_aligned(ui::bytes_text(net.total_rx_rate) + "/s"@, 12),
                    fg(Color::Green),
                ),
            ]
            &&& lines[1] == seq![
                ("    "@, bare()),
                ("↑ 上传"@, strong(Color::Yellow)),
                ("  "@, bare()),
                (
                    text::right_aligned(ui::bytes_text(net.total_tx_rate) + "/s"@, 12),
                    fg(Color::Yellow),
                ),
            ]
            &&& lines[2] == seq![
                ("    "@, bare()),
                (
                    "累计 "@ + down_and_up(
                        ui::bytes_text(net.total_rx),
                        ui::bytes_text(net.total_tx),
                    ),
                    dim(),
                ),
            ]
        }),
{
    let lines = view::rate_lines(net);
    assert(lines[0] =~= seq![
        ("    "@, bare()),
        ("↓ 下载"@, strong(Color::Green)),
        ("  "@, bare()),
        (text::right_aligned(ui::bytes_text(net.total_rx_rate) + "/s"@, 12), fg(Color::Green)),
    ]);
    assert(lines[1] =~= seq![
        ("    "@, bare()),
        ("↑ 上传"@, strong(Color::Yellow)),
        ("  "@, bare()),
        (text::right_aligned(ui::bytes_text(net.total_tx_rate) + "/s"@, 12), fg(Color::Yellow)),
    ]);
}

/// Whether a line is a key, indented by four spaces and filled up to a width, and its value.
pub open spec fn is_pair(
    line: Seq<(Seq<char>, Style)>,
    key: Seq<char>,
    width: nat,
    value: Seq<char>,
    style: Style,
) -> bool {
    line == seq![
        (
            "    "@ + width::filled(key, width::display_width(key) as nat, width),
            bare(),
        ),
        (value, style),
    ]
}

/// An interface is shown by its name, with a note if it is the loopback, and its hardware address;
/// last come its rates, and what came in and went out altogether.
pub proof fn law_lines_of_an_interface(i: Interface)
    ensures
        ({
            let lines = view::interface_lines(i);
            let n = lines.len();
            &&& n >= 4
            &&& lines[0] == seq![
                ("    "@, bare()),
                ("●"@, strong(Color::Cyan)),
                ("  "@, bare()),
                (
                    if i.is_loopback {
                        i.name@ + " (回环)"@
                    } else {
                        i.name@
                    },
                    Style { fg: None, bg: None, bold: true, dimmed: false },
                ),
            ]
            &&& i.mac@.len() == 0 ==> is_pair(lines[1], "MAC"@, 8, "—"@, dim())
            &&& i.mac@.len() > 0 ==> is_pair(lines[1], "MAC"@, 8, i.mac@, bare())
            &&& is_pair(
                lines[n - 2],
                "速度"@,
                8,
                down_and_up(ui::bytes_text(i.rx_rate) + "/s"@, ui::bytes_text(i.tx_rate) + "/s"@),
                bare(),
            )
            &&& is_pair(
                lines[n - 1],
                "累计"@,
                8,
                down_and_up(ui::bytes_text(i.total_rx), ui::bytes_text(i.total_tx)),
                bare(),
            )
            &&& i.ips@.len() == 0 ==> n == 5 && is_pair(lines[2], "IP"@, 8, "无"@, dim())
            &&& i.ips@.len() > 0 ==> lines.subrange(2, n - 2) == view::ip_lines(
                text::texts(i.ips@),
                false,
            ) + view::ip_lines(text::texts(i.ips@), true) && n == 4 + i.ips@.len()
        }),
{
    let lines = view::interface_lines(i);
    let ips = text::texts(i.ips@);
    let n = lines.len();
    lemma_ip_lines_len(ips);
    assert(lines[0] =~= seq![
        ("    "@, bare()),
        ("●"@, strong(Color::Cyan)),
        ("  "@, bare()),
        (
            if i.is_loopback {
                i.name@ + " (回环)"@
            } else {
                i.name@
            },
            Style { fg: None, bg: None, bold: true, dimmed: false },
        ),
    ]);
    if ips.len() > 0 {
        assert(lines.subrange(2, n - 2) =~= view::ip_lines(ips, false) + view::ip_lines(ips, true));
    }
}

/// Every address has its line, among those of its version.
proof fn lemma_ip_lines_len(ips: Seq<Seq<char>>)
    ensures
        view::ip_lines(ips, false).len() + view::ip_lines(ips, true).len() == ips.len(),
    decreases ips.len(),
{
    if ips.len() > 0 {
        lemma_ip_lines_len(ips.drop_last());
    }
}

/// Addresses are shown as they come, each under the version it has: an address with a colon in it is
/// of version 6.
pub proof fn law_addresses_by_version(ips: Seq<Seq<char>>, ip: Seq<char>)
    ensures
        view::ip_lines(Seq::<Seq<char>>::empty(), true).len() == 0,
        view::ip_lines(Seq::<Seq<char>>::empty(), false).len() == 0,
        ip.contains(':') ==> {
            let before = view::ip_lines(ips, true);
            let after = view::ip_lines(ips.push(ip), true);
            &&& after.len() == before.len() + 1
            &&& after.drop_last() == before
            &&& is_pair(after.last(), "IPv6"@, 8, ip, fg(Color::Blue))
            &&& view::ip_lines(ips.push(ip), false) == view::ip_lines(ips, false)
        },
        !ip.contains(':') ==> {
            let before = view::ip_lines(ips, false);
            let after = view::ip_lines(ips.push(ip), false);
            &&& after.len() == before.len() + 1
            &&& after.drop_last() == before
            &&& is_pair(after.last(), "IPv4"@, 8, ip, fg(Color::Green))
            &&& view::ip_lines(ips.push(ip), true) == view::ip_lines(ips, true)
        },
{
    assert(ips.push(ip).drop_last() =~= ips);
    if ip.contains(':') {
        assert(view::ip_lines(ips.push(ip), true).drop_last() =~= view::ip_lines(ips, true));
    } else {
        assert(view::ip_lines(ips.push(ip), false).drop_last() =~= view::ip_lines(ips, false));
    }
}

/// Interfaces are shown one after the other, with an empty line between two.
pub proof fn law_interfaces_one_after_the_other(v: Seq<Interface>, i: Interface)
    ensures
        view::all_interface_lines(Seq::<Interface>::empty()).len() == 0,
        v.len() == 0 ==> view::all_interface_lines(v.push(i)) == view::interface_lines(i),
        v.len() > 0 ==> view::all_interface_lines(v.push(i)) == view::all_interface_lines(v) + seq![
            Seq::<(Seq<char>, Style)>::empty(),
        ] + view::interface_lines(i),
{
    assert(v.push(i).drop_last() =~= v);
}

/// The ports have a line each below their heads: the table, the address and the process, if it is
/// known, each in its column. Without ports there is a note.
pub proof fn law_lines_of_the_ports(v: Seq<PortInfo>, i: int)
    requires
        0 <= i < v.len(),
    ensures
        ({
            let lines = view::port_lines(v);
            let protos = view::column(view::proto_widths(v));
            let addrs = view::column(view::addr_widths(v));
            &&& lines.len() == v.len() + 1
            &&& lines[i + 1] == seq![
                (
                    "    "@ + width::filled(
                        v[i].proto,
                        width::display_width(v[i].proto) as nat,
                        protos,
                    ) + "  "@ + width::filled(
                        v[i].addr,
                        width::display_width(v[i].addr) as nat,
                        addrs,
                    ) + "  "@ + match v[i].process {
                        Some(s) => s,
                        None => ""@,
                    },
                    bare(),
                ),
            ]
            &&& lines[0].len() == 6
            &&& lines[0][1].0 == width::filled(
                "协议"@,
                width::display_width("协议"@) as nat,
                protos,
            )
            &&& lines[0][3].0 == width::filled(
                "地址"@,
                width::display_width("地址"@) as nat,
                addrs,
            )
            &&& protos >= 4 && protos >= width::display_width(v[i].proto)
            &&& addrs >= 4 && addrs >= width::display_width(v[i].addr)
        }),
{
    let lines = view::port_lines(v);
    width::law_widest(view::proto_widths(v));
    width::law_widest(view::addr_widths(v));
    assert(view::proto_widths(v)[i] == width::display_width(v[i].proto));
    assert(view::addr_widths(v)[i] == width::display_width(v[i].addr));
    assert(lines[i + 1] == view::port_line(
        v[i],
        view::column(view::proto_widths(v)),
        view::column(view::addr_widths(v)),
    ));
}

/// A column is as wide as the widest text in it, and four cells at the least.
pub proof fn law_columns_of_the_ports(v: Seq<PortInfo>, widths: Seq<usize>)
    ensures
        view::port_lines(Seq::<PortInfo>::empty()) == seq![
            seq![("    "@, bare()), ("（无）"@, dim())],
        ],
        view::column(widths) >= 4,
        view::column(widths) > 4 ==> exists|k: int|
            0 <= k < widths.len() && #[trigger] widths[k] == view::column(widths),
        forall|k: int|
            0 <= k < v.len() ==> #[trigger] view::process_widths(v)[k] == match v[k].process {
                Some(s) => width::display_width(s),
                None => 0,
            },
        forall|k: int|
            0 <= k < v.len() ==> #[trigger] view::proto_widths(v)[k] == width::display_width(
                v[k].proto,
            ),
        forall|k: int|
            0 <= k < v.len() ==> #[trigger] view::addr_widths(v)[k] == width::display_width(
                v[k].addr,
            ),
        view::process_widths(v).len() == v.len() && view::proto_widths(v).len() == v.len()
            && view::addr_widths(v).len() == v.len(),
        v.len() > 0 ==> view::port_lines(v)[0][5].0 == width::filled(
            "进程"@,
            width::display_width("进程"@) as nat,
            view::column(view::process_widths(v)),
        ),
{
    width::law_widest(widths);
    let none = view::port_lines(Seq::<PortInfo>::empty());
    assert(none[0] =~= seq![("    "@, bare()), ("（无）"@, dim())]);
    assert(none =~= seq![seq![("    "@, bare()), ("（无）"@, dim())]]);
}

/// At the bottom are the gateway with its interface, the name servers, and how many TCP sockets there
/// are, listen and are connected.
pub proof fn law_routes_at_the_bottom(net: NetInfo)
    ensures
        ({
            let lines = view::route_lines(net);
            &&& lines.len() == 3
            &&& match net.gateway {
                Some(g) => is_pair(
                    lines[0],
                    "默认网关"@,
                    10,
                    addr::v4_text(g.addr.octets@) + "  ("@ + g.iface@ + ")"@,
                    fg(Color::Green),
                ),
                None => is_pair(lines[0], "默认网关"@, 10, "无"@, dim()),
            }
            &&& net.dns@.len() == 0 ==> is_pair(lines[1], "DNS"@, 10, "未配置"@, dim())
            &&& net.dns@.len() > 0 ==> is_pair(
                lines[1],
                "DNS"@,
                10,
                text::joined(text::texts(net.dns@), "  "@),
                fg(Color::Green),
            )
            &&& is_pair(
                lines[2],
                "TCP 连接"@,
                10,
                number::decimal(net.tcp_total as nat) + "（监听 "@ + number::decimal(
                    net.tcp_listen as nat,
                ) + " · 已建立 "@ + number::decimal(net.tcp_established as nat) + "）"@,
                bare(),
            )
        }),
{
}

/// The head of a section.
pub open spec fn title(s: Seq<char>) -> Seq<(Seq<char>, Style)> {
    seq![("  "@, bare()), (s, strong(Color::Cyan))]
}

/// The picture comes from top to bottom: the name of the machine, the rates, the interfaces, how many
/// ports there are, the ports, and the routes and connections; an empty line ends each section.
pub proof fn law_picture_from_top_to_bottom(net: NetInfo)
    ensures
        ({
            let p = view::picture(net);
            let n = view::all_interface_lines(net.interfaces@).len();
            let v = ports::ports_of(net.ports@);
            let m = view::port_lines(v).len();
            let blank = Seq::<(Seq<char>, Style)>::empty();
            &&& p.len() == n + m + 14
            &&& p[0] == seq![
                ("  "@, bare()),
                ("网络概览"@, strong(Color::Cyan)),
                ("  ·  "@, bare()),
                (net.hostname@, strong(Color::Yellow)),
            ]
            &&& p.subrange(1, 4) == view::rate_lines(net)
            &&& p[4] == blank
            &&& p[5] == title("网络接口"@)
            &&& p.subrange(6, 6 + n as int) == view::all_interface_lines(net.interfaces@)
            &&& p[6 + n as int] == blank
            &&& p[7 + n as int] == title("监听端口"@).push(
                ("  （"@ + number::decimal(net.ports@.len()) + " 个监听/绑定端口）"@, bare()),
            )
            &&& p.subrange(8 + n as int, 8 + n as int + m as int) == view::port_lines(v)
            &&& p[8 + n as int + m as int] == blank
            &&& p[9 + n as int + m as int] == title("路由与连接"@)
            &&& p.subrange(10 + n as int + m as int, 13 + n as int + m as int)
                == view::route_lines(net)
            &&& p[13 + n as int + m as int] == blank
        }),
{
    let p = view::picture(net);
    let lines = view::all_interface_lines(net.interfaces@);
    let n = lines.len() as int;
    let list = view::port_lines(ports::ports_of(net.ports@));
    let m = list.len() as int;
    let rates = view::rate_lines(net);
    let routes = view::route_lines(net);
    assert(rates.len() == 3);
    assert(routes.len() == 3);
    assert(p.len() == n + m + 14);
    assert(p[0] =~= seq![
        ("  "@, bare()),
        ("网络概览"@, strong(Color::Cyan)),
        ("  ·  "@, bare()),
        (net.hostname@, strong(Color::Yellow)),
    ]);
    assert(p.subrange(1, 4) =~= rates);
    assert(p[5] =~= title("网络接口"@));
    assert(p.subrange(6, 6 + n) =~= lines);
    assert(p[7 + n] =~= title("监听端口"@).push(
        ("  （"@ + number::decimal(net.ports@.len()) + " 个监听/绑定端口）"@, bare()),
    ));
    assert(p.subrange(8 + n, 8 + n + m) =~= list);
    assert(p[9 + n + m] =~= title("路由与连接"@));
    assert(p.subrange(10 + n + m, 13 + n + m) =~= routes);
}

} // verus!
