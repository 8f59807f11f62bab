use info::number::{append_decimal, append_number, parse, parse_u32};
use info::order::order_by;
use info::text::{
    align_left, align_right, chars_of, contains, contains_char, is_whitespace, join, lines, same,
    split_once, starts_with, string_of, tail_after, trim, trim_end, trim_start, words,
};

fn c(s: &str) -> Vec<char> {
    s.chars().collect()
}

fn strings(v: Vec<Vec<char>>) -> Vec<String> {
    v.iter().map(|x| x.iter().collect()).collect()
}

#[test]
fn white_space_is_that_of_std() {
    for n in 0..=0x10ffffu32 {
        if let Some(x) = char::from_u32(n) {
            assert_eq!(is_whitespace(x), x.is_whitespace(), "{n:x}");
        }
    }
}

#[test]
fn texts_are_taken_apart_as_std_does() {
    for s in [
        "", " ", "a", " a b ", "a\nb", "a\r\nb\r\n", "\n", "\n\n", "a\r", "\r\n", "x\r\r\n", "\u{3000}日\u{a0}本 ",
        "a  b\t\tc", "a:b:c", ":", "no", "\u{85}x",
    ] {
        assert_eq!(string_of(trim(&c(s))), s.trim(), "{s:?}");
        assert_eq!(string_of(trim_start(&c(s))), s.trim_start(), "{s:?}");
        assert_eq!(string_of(trim_end(&c(s))), s.trim_end(), "{s:?}");
        assert_eq!(strings(lines(&c(s))), s.lines().collect::<Vec<&str>>(), "{s:?}");
        assert_eq!(strings(words(&c(s))), s.split_whitespace().collect::<Vec<&str>>(), "{s:?}");
        assert_eq!(
            split_once(&c(s), ':').map(|(a, b)| (string_of(a), string_of(b))),
            s.split_once(':').map(|(a, b)| (a.to_string(), b.to_string())),
            "{s:?}"
        );
        assert_eq!(string_of(tail_after(&c(s), ':')), s.rsplit(':').next().unwrap(), "{s:?}");
        assert_eq!(contains_char(&c(s), 'b'), s.contains('b'), "{s:?}");
        for p in ["", "a", "b:", "\r\n", "日"] {
            assert_eq!(starts_with(&c(s), &c(p)), s.starts_with(p), "{s:?} {p:?}");
            assert_eq!(contains(&c(s), &c(p)), s.contains(p), "{s:?} {p:?}");
            assert_eq!(same(&c(s), &c(p)), s == p, "{s:?} {p:?}");
        }
        assert_eq!(align_right(s, 4), format!("{s:>4}"), "{s:?}");
        assert_eq!(align_left(s, 4), format!("{s:<4}"), "{s:?}");
    }
    assert_eq!(chars_of("é日"), vec!['é', '日']);
    assert_eq!(join(&vec![], ", "), "");
    assert_eq!(join(&vec!["a".to_string(), "b".to_string()], ", "), "a, b");
}

#[test]
fn numbers_are_read_as_std_does() {
    for s in [
        "", "0", "7", "007", "+7", "++7", "-7", "+", "4294967295", "4294967296", "1e3", " 1", "１", "99999999999999999999",
    ] {
        assert_eq!(parse_u32(&c(s)), s.parse::<u32>().ok(), "{s:?}");
        assert_eq!(parse(&c(s), 10, u64::MAX), s.parse::<u64>().ok(), "{s:?}");
    }
    for s in ["", "0", "fF", "FFFFFFFF", "100000000", "g", "+a", "-a", "0x1"] {
        assert_eq!(
            parse(&c(s), 16, u32::MAX as u64),
            u32::from_str_radix(s, 16).ok().map(u64::from),
            "{s:?}"
        );
        assert_eq!(
            parse(&c(s), 16, u8::MAX as u64),
            u8::from_str_radix(s, 16).ok().map(u64::from),
            "{s:?}"
        );
    }
}

#[test]
fn numbers_are_written_and_read_back() {
    for n in [0u64, 1, 9, 10, 15, 16, 255, 256, 12345, u64::MAX] {
        let mut dec = String::new();
        append_decimal(&mut dec, n);
        assert_eq!(dec, format!("{n}"));
        assert_eq!(parse(&c(&dec), 10, u64::MAX), Some(n));
        let mut hex = String::new();
        append_number(&mut hex, n, 16);
        assert_eq!(hex, format!("{n:x}"));
        assert_eq!(parse(&c(&hex), 16, u64::MAX), Some(n));
    }
}

#[test]
fn the_order_is_stable() {
    assert_eq!(order_by(&vec![]), Vec::<usize>::new());
    assert_eq!(order_by(&vec![5]), vec![0]);
    assert_eq!(order_by(&vec![3, 1, 2, 1, 3, 0]), vec![5, 1, 3, 2, 0, 4]);
    assert_eq!(order_by(&vec![u64::MAX, 0, u64::MAX]), vec![1, 0, 2]);
}
