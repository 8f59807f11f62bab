use info::disk::{collect_disks, examine_disk, should_skip, RawDisk};
use info::style::{Color, Span, Style};
use info::ui::{format_bytes, print_disk_usage_table, strip_spaces, truncate, Usage};

fn disk(name: &str, mount: &str, fs: &str, total: u64, available: u64) -> RawDisk {
    RawDisk {
        name: name.to_string(),
        mount_point: mount.to_string(),
        fs: fs.to_string(),
        total,
        available,
    }
}

#[test]
fn disks_of_no_interest_are_left_out() {
    assert!(should_skip("/", "ext4", 0));
    assert!(should_skip("/tmp/.mount_app", "ext4", 1));
    assert!(should_skip("/snap/core", "ext4", 1));
    assert!(should_skip("/x", "squashfs", 1));
    assert!(should_skip("/x", "fuse.sshfs", 1));
    assert!(should_skip("/x", "overlay", 1));
    assert!(!should_skip("/", "ext4", 1));
    assert!(!should_skip("/tmp/mount_", "vfat", 1));
}

#[test]
fn a_btrfs_device_is_shown_once() {
    let shown = collect_disks(&vec![
        disk("/dev/sda", "/", "BTRFS", 100, 30),
        disk("/dev/sda", "/home", "btrfs", 100, 30),
        disk("/dev/sdb", "/data", "btrfs", 10, 20),
        disk("/dev/sdc", "/a", "ext4", 1, 0),
        disk("/dev/sdc", "/b", "ext4", 1, 1),
        disk("/dev/sdd", "/snap/x", "btrfs", 1, 1),
        disk("/dev/sdd", "/y", "btrfs", 1, 1),
        disk("tmp", "/z", "Overlay", 1, 1),
    ]);
    let rows: Vec<(&str, &str, &str, u64, u64, u64)> = shown
        .iter()
        .map(|d| {
            (d.name.as_str(), d.mount_point.as_str(), d.fs.as_str(), d.total, d.used, d.available)
        })
        .collect();
    assert_eq!(
        rows,
        vec![
            ("/dev/sda", "/", "btrfs", 100, 70, 30),
            ("/dev/sdb", "/data", "btrfs", 10, 0, 20),
            ("/dev/sdc", "/a", "ext4", 1, 1, 0),
            ("/dev/sdc", "/b", "ext4", 1, 0, 1),
            ("/dev/sdd", "/y", "btrfs", 1, 0, 1),
        ]
    );
}

#[test]
fn the_file_system_is_taken_as_given() {
    let mut seen = vec![];
    let d = disk("a", "/", "whatever", 5, 1);
    assert_eq!(examine_disk(&d, "btrfs".to_string(), &mut seen).unwrap().fs, "btrfs");
    assert_eq!(seen, vec!["a"]);
    assert!(examine_disk(&d, "btrfs".to_string(), &mut seen).is_none());
    assert_eq!(examine_disk(&d, "xfs".to_string(), &mut seen).unwrap().used, 4);
    assert_eq!(seen.len(), 1);
}

#[test]
fn sizes_are_written_in_binary_units() {
    assert_eq!(format_bytes(0), "0B");
    assert_eq!(format_bytes(1023), "1023B");
    assert_eq!(format_bytes(1024), "1.0KiB");
    assert_eq!(format_bytes(1_610_612_736), "1.5GiB");
    assert_eq!(format_bytes(u64::MAX), "16.0EiB");
    assert_eq!(strip_spaces(" a b  c "), "abc");
    assert_eq!(strip_spaces("1\u{a0}\tB"), "1\u{a0}\tB");
}

#[test]
fn long_texts_are_cut() {
    assert_eq!(truncate("abcdef", 6), "abcdef");
    assert_eq!(truncate("abcdefg", 6), "abcde…");
    assert_eq!(truncate("日本語テキスト", 3), "日本…");
    assert_eq!(truncate("ab", 1), "…");
    assert_eq!(truncate("ab", 0), "…");
    assert_eq!(truncate("", 0), "");
}

#[test]
fn the_table_of_the_disks() {
    let shown = collect_disks(&vec![disk("/dev/nvme0n1p2-long", "/", "ext4", 1024, 512)]);
    let usage = Usage {
        fill: vec![Color::Red; 2],
        percent: Span { text: " 50.0%".to_string(), style: Style::fg(Color::Yellow) },
    };
    let lines = print_disk_usage_table(&shown, &vec![usage]);
    assert_eq!(lines.len(), 3);
    assert_eq!(
        lines[0].spans[0].text,
        "Name            Mount           FS         Total      Used       Free       Usage Bar"
    );
    assert_eq!(lines[1].spans[0].text, "-".repeat(105));
    let row = &lines[2].spans;
    assert_eq!(
        row[0].text,
        "/dev/nvme0n1p…  /               ext4       1.0KiB     512B       512B       "
    );
    assert_eq!((row[1].text.as_str(), row[1].style), ("[", Style::fg(Color::DarkGray)));
    assert_eq!((row[2].text.as_str(), row[2].style), ("━", Style::fg(Color::Red)));
    assert_eq!((row[3].text.as_str(), row[3].style), ("━", Style::fg(Color::Red)));
    assert_eq!((row[4].text.as_str(), row[4].style), ("─", Style::fg(Color::Rgb(60, 60, 60))));
    assert_eq!(row[32].text, "]");
    assert_eq!(row[33].text, " ");
    assert_eq!((row[34].text.as_str(), row[34].style), (" 50.0%", Style::fg(Color::Yellow)));
    assert_eq!(row.len(), 35);
}

#[test]
fn a_bar_that_is_too_full_has_no_empty_cells() {
    let shown = collect_disks(&vec![disk("a", "/", "ext4", 1, 0)]);
    let usage = Usage {
        fill: vec![Color::Red; 31],
        percent: Span { text: "x".to_string(), style: Style::none() },
    };
    let lines = print_disk_usage_table(&shown, &vec![usage]);
    assert_eq!(lines[2].spans.len(), 1 + 1 + 31 + 1 + 2);
    assert_eq!(print_disk_usage_table(&vec![], &vec![]).len(), 2);
}
