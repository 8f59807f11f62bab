use info::net::addr::{append_ipv6, torn, IpAddr, Ipv4Addr, Ipv6Addr};
use info::net::conn::{torn_local, torn_table};
use info::net::ports::{describe, parse_pid, wants_user, Proc, Tables};
use info::net::{
    add_up, collect, collect_ports, default_gateway, dns_servers, fmt_ip_port, format_rate,
    ipv4_from_hex, ipv6_from_hex, parse_local, parse_net_conns, print, print_interface,
    print_ports, read_hostname, read_sysfs_ips, socket_inode, socket_process_map, tcp_counts,
    Counter, Gateway, Interface, NetInfo, Port, Proto, Sources,
};
use info::style::{Color, Line, Style};

#[test]
fn ipv4_hex_decode_little_endian() {
    // the kernel writes the bytes with the least significant one first
    assert_eq!(ipv4_from_hex("0100007F"), Some(Ipv4Addr::new(127, 0, 0, 1)));
    assert_eq!(ipv4_from_hex("00000000"), Some(Ipv4Addr::new(0, 0, 0, 0)));
    assert_eq!(ipv4_from_hex("010A0009"), Some(Ipv4Addr::new(9, 0, 10, 1)));
}

#[test]
fn ipv6_hex_decode() {
    assert_eq!(
        ipv6_from_hex("00000000000000000000000001000000"),
        Some(Ipv6Addr::new(0, 0, 0, 0, 0, 0, 0, 1))
    );
    assert_eq!(
        ipv6_from_hex("00000000000000000000000000000000"),
        Some(Ipv6Addr::new(0, 0, 0, 0, 0, 0, 0, 0))
    );
    // 4000::1
    assert_eq!(
        ipv6_from_hex("00000040000000000000000001000000"),
        Some(Ipv6Addr::new(0x4000, 0, 0, 0, 0, 0, 0, 1))
    );
    assert_eq!(v6("00000040000000000000000001000000"), "4000::1");
    // ::ffff:127.0.0.1
    assert_eq!(
        ipv6_from_hex("0000000000000000FFFF00000100007F"),
        Some(Ipv6Addr::new(0, 0, 0, 0, 0, 0xffff, 0x7f00, 1))
    );
    assert_eq!(v6("0000000000000000FFFF00000100007F"), "::ffff:127.0.0.1");
}

fn v6(hex: &str) -> String {
    let mut s = String::new();
    append_ipv6(&mut s, &ipv6_from_hex(hex).unwrap());
    s
}

#[test]
fn gateway_hex_is_little_endian() {
    // 192.168.31.1
    assert_eq!(ipv4_from_hex("011FA8C0"), Some(Ipv4Addr::new(192, 168, 31, 1)));
}

#[test]
fn fmt_ip_port_blank_for_unspecified() {
    assert_eq!(fmt_ip_port(IpAddr::V4(Ipv4Addr::new(0, 0, 0, 0)), 8080), "*:8080");
    assert_eq!(fmt_ip_port(IpAddr::V4(Ipv4Addr::new(192, 168, 0, 1)), 22), "192.168.0.1:22");
    // ::1
    assert_eq!(fmt_ip_port(IpAddr::V6(Ipv6Addr::new(0, 0, 0, 0, 0, 0, 0, 1)), 22), "[::1]:22");
    assert_eq!(fmt_ip_port(IpAddr::V6(Ipv6Addr::new(0, 0, 0, 0, 0, 0, 0, 0)), 53), "*:53");
}

#[test]
fn socket_inode_parse() {
    assert_eq!(socket_inode("socket:[38927]"), Some(38927));
    assert_eq!(socket_inode("/some/path"), None);
}

#[test]
fn socket_inode_edges() {
    assert_eq!(socket_inode("socket:["), None);
    assert_eq!(socket_inode("socket:[]"), None);
    assert_eq!(socket_inode("socket:[1"), None);
    assert_eq!(socket_inode("socket:[+1]"), Some(1));
    assert_eq!(socket_inode("socket:[18446744073709551615]"), Some(u64::MAX));
    assert_eq!(socket_inode("socket:[18446744073709551616]"), None);
    assert_eq!(socket_inode("pipe:[1]"), None);
}

#[test]
fn addresses_that_are_none() {
    assert_eq!(ipv4_from_hex(""), None);
    assert_eq!(ipv4_from_hex("100000000"), None);
    assert_eq!(ipv4_from_hex("xyz"), None);
    assert_eq!(ipv4_from_hex("1"), Some(Ipv4Addr::new(1, 0, 0, 0)));
    assert_eq!(ipv4_from_hex("0001fEfe"), Some(Ipv4Addr::new(0xfe, 0xfe, 1, 0)));
    assert_eq!(ipv4_from_hex("1FEFE"), ipv4_from_hex("+0001FEFE"));
    assert_eq!(ipv6_from_hex("0000"), None);
    assert_eq!(ipv6_from_hex("0000000g000000000000000001000000"), None);
    assert!(!torn("0000000g000000000000000001000000"));
    assert!(torn("0000000é00000000000000000100000"));
    assert!(!torn("000000é000000000000000000100000"));
    assert_eq!(ipv6_from_hex("000000é000000000000000000100000"), None);
    assert!(torn("00000000000000€000000000100000"));
    assert!(!torn("g000000000000€0000000000100000"));
    assert_eq!(ipv6_from_hex("g000000000000€0000000000100000"), None);
}

#[test]
fn the_first_longest_run_of_zeros_is_left_out() {
    fn text(a: Ipv6Addr) -> String {
        let mut s = String::new();
        append_ipv6(&mut s, &a);
        s
    }
    assert_eq!(text(Ipv6Addr::new(1, 0, 0, 2, 0, 0, 3, 4)), "1::2:0:0:3:4");
    assert_eq!(text(Ipv6Addr::new(1, 0, 0, 2, 0, 0, 0, 4)), "1:0:0:2::4");
    assert_eq!(text(Ipv6Addr::new(1, 0, 2, 3, 4, 5, 6, 7)), "1:0:2:3:4:5:6:7");
    assert_eq!(text(Ipv6Addr::new(0xfe80, 0, 0, 0, 0xabcd, 0xef, 1, 0)), "fe80::abcd:ef:1:0");
    assert_eq!(text(Ipv6Addr::new(0, 0, 0, 0, 0, 0, 0, 0)), "::");
    assert_eq!(text(Ipv6Addr::new(1, 2, 3, 4, 5, 6, 0, 0)), "1:2:3:4:5:6::");
    assert_eq!(text(Ipv6Addr::new(0, 0, 0, 0, 0, 0xffff, 0x0102, 0x0304)), "::ffff:1.2.3.4");
    assert_eq!(text(Ipv6Addr::new(0, 0, 0, 0, 0, 0, 0x0102, 0x0304)), "::102:304");
}

#[test]
fn endpoints_have_texts_of_their_own() {
    let v4 = |a, b, c, d| IpAddr::V4(Ipv4Addr::new(a, b, c, d));
    let v6 = |s: [u16; 8]| IpAddr::V6(Ipv6Addr { segments: s });
    let endpoints = vec![
        (v4(1, 2, 3, 4), 5),
        (v4(12, 3, 4, 5), 5),
        (v4(1, 23, 4, 5), 5),
        (v4(1, 2, 3, 4), 45),
        (v6([0, 0, 0, 0, 0, 0xffff, 0x0102, 0x0304]), 5),
        (v6([0, 0, 0, 0, 0, 0, 0x0102, 0x0304]), 5),
        (v6([0xffff, 0, 0, 0, 0, 0, 0x0102, 0x0304]), 5),
        (v6([0, 0, 1, 0, 0, 1, 0, 0]), 5),
        (v6([1, 0, 0, 1, 0, 0, 0, 0]), 5),
        (v6([0, 0, 0, 0, 1, 0, 0, 1]), 5),
        (v6([0x11, 0, 0, 0, 0, 0, 0, 1]), 5),
        (v6([1, 1, 0, 0, 0, 0, 0, 1]), 5),
    ];
    for i in 0..endpoints.len() {
        let text = fmt_ip_port(endpoints[i].0, endpoints[i].1);
        assert!(!text.starts_with('*'));
        for j in 0..i {
            assert_ne!(text, fmt_ip_port(endpoints[j].0, endpoints[j].1));
        }
    }
    // the addresses that stand for all are one
    assert_eq!(fmt_ip_port(v4(0, 0, 0, 0), 7), fmt_ip_port(v6([0; 8]), 7));
}

#[test]
fn local_addresses() {
    assert_eq!(
        parse_local("0100007F:0016", false),
        Some((IpAddr::V4(Ipv4Addr::new(127, 0, 0, 1)), 22))
    );
    assert_eq!(parse_local("0100007F", false), None);
    assert_eq!(parse_local("0100007F:10000", false), None);
    assert_eq!(parse_local("0100007F:0016", true), None);
    assert_eq!(
        parse_local("00000000000000000000000000000000:1F90", true),
        Some((IpAddr::V6(Ipv6Addr::new(0, 0, 0, 0, 0, 0, 0, 0)), 8080))
    );
    assert!(torn_local("0000000é00000000000000000100000:1", true));
    assert!(!torn_local("0000000é00000000000000000100000:1", false));
    assert!(!torn_local("0000000é00000000000000000100000:x", true));
}

const TCP: &str = "\
  sl  local_address rem_address   st tx_queue rx_queue tr tm->when retrnsmt   uid  timeout inode
   0: 0100007F:1F90 00000000:0000 0A 00000000:00000000 00:00000000 00000000  1000        0 111 1
   1: 00000000:0016 00000000:0000 0A 00000000:00000000 00:00000000 00000000     0        0 222 1
   2: 0100007F:9999 0100007F:0016 01 00000000:00000000 00:00000000 00000000  1000        0 333 1
   3: 0100007F:9998 0100007F:0016 06 00000000:00000000 00:00000000 00000000  1000        0 0 1
   bad line
   4: 0100007F:9998 0100007F:0016 zz 00000000:00000000 00:00000000 00000000  1000        0 0 1
";

const UDP6: &str = "\
  sl  local_address                         remote_address                        st tx rx tr retr uid
   0: 00000000000000000000000000000000:0016 00000000000000000000000000000000:0000 07 0:0 0:0 0 1000 0 444 2
";

fn tables() -> Tables {
    Tables {
        tcp: TCP.to_string(),
        tcp6: String::new(),
        udp: String::new(),
        udp6: UDP6.to_string(),
    }
}

fn procs() -> Vec<Proc> {
    vec![
        Proc {
            pid: 7,
            uid: 1000,
            comm: Some("server\n".to_string()),
            links: Some(vec!["/dev/null".to_string(), "socket:[111]".to_string()]),
        },
        Proc { pid: 8, uid: 5, comm: None, links: Some(vec!["socket:[222]".to_string()]) },
        Proc { pid: 9, uid: 1000, comm: None, links: Some(vec!["socket:[444]".to_string()]) },
        Proc { pid: 10, uid: 0, comm: Some("x".to_string()), links: None },
        Proc {
            pid: 11,
            uid: 0,
            comm: Some("late".to_string()),
            links: Some(vec!["socket:[111]".to_string(), "socket:[333]".to_string()]),
        },
    ]
}

#[test]
fn sockets_are_read_from_a_table() {
    let conns = parse_net_conns(TCP, Proto::Tcp, false);
    assert_eq!(conns.len(), 4);
    assert_eq!((conns[0].state, conns[0].port, conns[0].uid, conns[0].inode), (10, 8080, 1000, 111));
    assert_eq!(conns[0].ip, IpAddr::V4(Ipv4Addr::new(127, 0, 0, 1)));
    assert_eq!(conns[3].state, 6);
    assert!(parse_net_conns("", Proto::Tcp, false).is_empty());
    assert!(parse_net_conns("only a head", Proto::Udp, true).is_empty());
    assert!(!torn_table(TCP, false));
    assert!(torn_table(&UDP6.replace("00000000000000000000000000000000:0016", "0000000é00000000000000000100000:0016"), true));
}

#[test]
fn ports_are_listed_by_number_with_their_processes() {
    assert!(!tables().torn());
    let ports = collect_ports(&tables(), &procs());
    let rows: Vec<(&str, &str, u16, Option<&str>)> = ports
        .iter()
        .map(|p| (p.proto.as_str(), p.addr.as_str(), p.port, p.process.as_deref()))
        .collect();
    assert_eq!(
        rows,
        vec![
            ("tcp", "*:22", 22, None),
            ("udp6", "*:22", 22, Some(" (pid 9)")),
            ("tcp", "127.0.0.1:8080", 8080, Some("late (pid 11)")),
        ]
    );
}

#[test]
fn only_processes_of_users_with_sockets_count() {
    let listening = tables().listening_sockets();
    assert_eq!(listening.len(), 3);
    assert!(wants_user(&listening, 1000));
    assert!(wants_user(&listening, 0));
    assert!(!wants_user(&listening, 5));
    let map = socket_process_map(&listening, &procs());
    assert_eq!(map.len(), 2);
    assert_eq!(map.get(&111).map(String::as_str), Some("late (pid 11)"));
    assert_eq!(map.get(&444).map(String::as_str), Some(" (pid 9)"));
    assert_eq!(map.get(&222), None);
    assert_eq!(map.get(&333), None);
    assert!(socket_process_map(&vec![], &procs()).is_empty());
    assert_eq!(describe(&procs()[0]), "server (pid 7)");
}

#[test]
fn directories_of_processes_are_numbers() {
    assert_eq!(parse_pid("123"), Some(123));
    assert_eq!(parse_pid("+123"), None);
    assert_eq!(parse_pid(""), None);
    assert_eq!(parse_pid("self"), None);
    assert_eq!(parse_pid("4294967295"), Some(u32::MAX));
    assert_eq!(parse_pid("4294967296"), None);
}

#[test]
fn tcp_sockets_are_counted() {
    assert_eq!(tcp_counts(Some(TCP), None), (2, 1, 4));
    assert_eq!(tcp_counts(Some(TCP), Some(TCP)), (4, 2, 8));
    assert_eq!(tcp_counts(None, None), (0, 0, 0));
}

#[test]
fn the_first_default_route_has_the_gateway() {
    let head = "Iface\tDestination\tGateway\n";
    let found = default_gateway(Some(&format!(
        "{head}lo 00000000 00000000\neth0 0000A8C0 00000000\nwlan0\t00000000\t011FA8C0\t0003\neth1 00000000 01010101\n"
    )))
    .unwrap();
    assert_eq!(found.iface, "wlan0");
    assert_eq!(found.addr, Ipv4Addr::new(192, 168, 31, 1));
    assert!(default_gateway(Some(head)).is_none());
    assert!(default_gateway(None).is_none());
    assert!(default_gateway(Some(&format!("{head}a 00000000 zz\nb 00000000 01010101\n"))).is_none());
    assert!(default_gateway(Some("wlan0 00000000 011FA8C0\n")).is_none());
}

#[test]
fn name_servers_are_listed() {
    let conf = "# comment\nnameserver 1.1.1.1\n  nameserver\t::1  \nnameserver\nsearch x\nnameserver9.9.9.9\n";
    assert_eq!(dns_servers(Some(conf)), vec!["1.1.1.1", "::1", "9.9.9.9"]);
    assert!(dns_servers(None).is_empty());
}

#[test]
fn the_hostname_is_trimmed() {
    assert_eq!(read_hostname(Some("box\n")), "box");
    assert_eq!(read_hostname(None), "unknown");
}

const IF_INET6: &str = "\
00000000000000000000000000000001 01 80 10 80       lo
fe800000000000000a0027fffe4b1c2d 02 40 20 80     eth0
20010db8000000010000000000000042 02 40 00 00     eth0
20010DB8000000010000000000000043 02 7f 00 00     eth0
20010db800000001000000000000004 02 40 00 00     eth0
+0010db8000000010000000000000042 02 40 00 00     eth0
2001gdb8000000010000000000000042 02 40 00 00     eth0
20010db8000000010000000000000042 02 100 00 00     eth0
20010db8000000010000000000000042 02 eth0
00000000000000000000ffff01020304 03 60 00 00     eth1";

#[test]
fn addresses_of_version_6_are_listed_by_interface() {
    assert_eq!(read_sysfs_ips("lo", Some(IF_INET6)), vec!["::1/128"]);
    assert_eq!(
        read_sysfs_ips("eth0", Some(IF_INET6)),
        vec!["fe80::a00:27ff:fe4b:1c2d/64", "2001:db8:0:1::42/64", "2001:db8:0:1::43/127"]
    );
    assert_eq!(read_sysfs_ips("eth1", Some(IF_INET6)), vec!["::ffff:1.2.3.4/96"]);
    assert!(read_sysfs_ips("eth", Some(IF_INET6)).is_empty());
    assert!(read_sysfs_ips("eth0", Some("")).is_empty());
    assert!(read_sysfs_ips("eth0", None).is_empty());
}

fn interface(name: &str, rx: u64) -> Interface {
    Interface::new(
        name.to_string(),
        "aa:bb".to_string(),
        vec!["fe80::1/64".to_string(), "10.0.0.1/8".to_string()],
        rx,
        2,
        300,
        400,
    )
}

#[test]
fn the_loopback_does_not_count() {
    let v = vec![interface("lo", 1000), interface("eth0", 5), interface("eth1", 7)];
    assert!(v[0].is_loopback);
    assert!(!v[1].is_loopback);
    assert_eq!(add_up(&v, Counter::RxRate), Some(12));
    assert_eq!(add_up(&v, Counter::TxRate), Some(4));
    assert_eq!(add_up(&v, Counter::Rx), Some(600));
    assert_eq!(add_up(&v, Counter::Tx), Some(800));
    let full = vec![interface("a", u64::MAX), interface("b", 1)];
    assert_eq!(add_up(&full, Counter::RxRate), None);
    let bare = Interface::bare("lo".to_string(), Some("00:11\n"), Some(IF_INET6));
    assert_eq!((bare.mac.as_str(), bare.is_loopback, bare.total_rx), ("00:11", true, 0));
    assert_eq!(bare.ips, vec!["::1/128"]);
    let unknown = Interface::bare("x".to_string(), None, None);
    assert_eq!((unknown.mac.as_str(), unknown.is_loopback), ("", false));
    assert!(unknown.ips.is_empty());
}

fn sources() -> Sources {
    Sources {
        hostname: Some(" box\n".to_string()),
        interfaces: vec![interface("lo", 9), interface("eth0", 5)],
        fallback: vec![interface("spare", 1)],
        tables: tables(),
        procs: procs(),
        route: Some("head\neth0 00000000 0101A8C0\n".to_string()),
        resolv: Some("nameserver 1.1.1.1\nnameserver 8.8.8.8\n".to_string()),
    }
}

#[test]
fn a_picture_is_put_together() {
    assert!(sources().sound());
    let net = collect(sources());
    assert_eq!(net.hostname, "box");
    assert_eq!(net.sample_secs, 1);
    assert_eq!((net.total_rx_rate, net.total_tx_rate, net.total_rx, net.total_tx), (5, 2, 300, 400));
    assert_eq!(net.interfaces.len(), 2);
    assert_eq!(net.ports.len(), 3);
    assert_eq!((net.tcp_listen, net.tcp_established, net.tcp_total), (2, 1, 4));
    assert_eq!(net.gateway.as_ref().unwrap().addr, Ipv4Addr::new(192, 168, 1, 1));
    assert_eq!(net.dns, vec!["1.1.1.1", "8.8.8.8"]);
    let mut s = sources();
    s.interfaces = vec![];
    assert_eq!(collect(s).interfaces[0].name, "spare");
    let mut s = sources();
    s.interfaces = vec![interface("a", u64::MAX), interface("b", 1)];
    assert!(!s.sound());
    let mut s = sources();
    s.interfaces[1].is_loopback = true;
    assert!(!s.sound());
    let mut s = sources();
    s.interfaces[0].is_loopback = false;
    assert!(!s.sound());
}

fn text(lines: &[Line]) -> Vec<String> {
    lines.iter().map(|l| l.spans.iter().map(|s| s.text.as_str()).collect()).collect()
}

#[test]
fn the_picture_is_laid_out() {
    let lines = print(&collect(sources()));
    assert_eq!(
        text(&lines),
        vec![
            "  网络概览  ·  box",
            "    ↓ 下载          5B/s",
            "    ↑ 上传          2B/s",
            "    累计 ↓ 300B   ↑ 400B",
            "",
            "  网络接口",
            "    ●  lo (回环)",
            "    MAC     aa:bb",
            "    IPv4    10.0.0.1/8",
            "    IPv6    fe80::1/64",
            "    速度    ↓ 9B/s   ↑ 2B/s",
            "    累计    ↓ 300B   ↑ 400B",
            "",
            "    ●  eth0",
            "    MAC     aa:bb",
            "    IPv4    10.0.0.1/8",
            "    IPv6    fe80::1/64",
            "    速度    ↓ 5B/s   ↑ 2B/s",
            "    累计    ↓ 300B   ↑ 400B",
            "",
            "  监听端口  （3 个监听/绑定端口）",
            "    协议  地址            进程         ",
            "    tcp   *:22            ",
            "    udp6  *:22             (pid 9)",
            "    tcp   127.0.0.1:8080  late (pid 11)",
            "",
            "  路由与连接",
            "    默认网关  192.168.1.1  (eth0)",
            "    DNS       1.1.1.1  8.8.8.8",
            "    TCP 连接  4（监听 2 · 已建立 1）",
            "",
        ]
    );
    assert_eq!(lines[0].spans[1].style, Style::fg(Color::Cyan).in_bold());
    assert_eq!(lines[0].spans[3].style, Style::fg(Color::Yellow).in_bold());
    assert_eq!(lines[3].spans[1].style, Style::dim());
    assert_eq!(lines[8].spans[1].style, Style::fg(Color::Green));
    assert_eq!(lines[9].spans[1].style, Style::fg(Color::Blue));
}

#[test]
fn the_picture_of_nothing() {
    let net = NetInfo {
        hostname: "unknown".to_string(),
        sample_secs: 1,
        total_rx_rate: 1024,
        total_tx_rate: 0,
        total_rx: 0,
        total_tx: 0,
        interfaces: vec![],
        ports: vec![],
        tcp_listen: 0,
        tcp_established: 0,
        tcp_total: 0,
        gateway: None,
        dns: vec![],
    };
    let lines = print(&net);
    assert_eq!(
        text(&lines),
        vec![
            "  网络概览  ·  unknown",
            "    ↓ 下载      1.0KiB/s",
            "    ↑ 上传          0B/s",
            "    累计 ↓ 0B   ↑ 0B",
            "",
            "  网络接口",
            "",
            "  监听端口  （0 个监听/绑定端口）",
            "    （无）",
            "",
            "  路由与连接",
            "    默认网关  无",
            "    DNS       未配置",
            "    TCP 连接  0（监听 0 · 已建立 0）",
            "",
        ]
    );
    let bare = Interface::bare("eth9".to_string(), None, None);
    assert_eq!(
        text(&print_interface(&bare)),
        vec![
            "    ●  eth9",
            "    MAC     —",
            "    IP      无",
            "    速度    ↓ 0B/s   ↑ 0B/s",
            "    累计    ↓ 0B   ↑ 0B",
        ]
    );
}

#[test]
fn columns_go_by_the_room_that_texts_take() {
    let port = |process: Option<&str>| Port {
        proto: "tcp".to_string(),
        addr: "*:1".to_string(),
        port: 1,
        process: process.map(str::to_string),
    };
    let lines = print_ports(&vec![port(Some("服务器 (1)")), port(None)]);
    assert_eq!(
        text(&lines),
        vec![
            "    协议  地址  进程      ",
            "    tcp   *:1   服务器 (1)",
            "    tcp   *:1   ",
        ]
    );
    assert_eq!(lines[0].spans[1].style, Style::none().in_bold());
    assert_eq!(format_rate(1536), "1.5KiB/s");
    let gateway = Gateway { iface: "e".to_string(), addr: Ipv4Addr::new(1, 2, 3, 4) };
    assert_eq!(gateway.addr.octets, [1, 2, 3, 4]);
}
