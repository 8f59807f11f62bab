//! Brightness of an external display over DDC/CI: the command lines for `ddcutil` and its reports.

use vstd::prelude::*;

use crate::number;
use crate::text;

verus! {

/// The display whose brightness is set, by the number of its I2C bus.
#[derive(Clone, Copy, Debug, PartialEq, Eq, Structural)]
pub struct Brightness {
    pub bus: u32,
}

/// A character in lower case, where it is an ASCII letter.
pub open spec fn ascii_lower(c: char) -> char {
    if 'A' <= c <= 'Z' {
        (c as u32 + 32) as char
    } else {
        c
    }
}

/// Whether two texts are the same but for the case of ASCII letters.
pub open spec fn same_but_case(a: Seq<char>, b: Seq<char>) -> bool {
    &&& a.len() == b.len()
    &&& forall|i: int| 0 <= i < a.len() ==> ascii_lower(#[trigger] a[i]) == ascii_lower(b[i])
}

/// The bus number that a line gives: the number behind the last hyphen.
pub open spec fn bus_on(line: Seq<char>) -> Option<nat> {
    let t = text::trimmed(line);
    if text::has_prefix(t, "I2C bus:"@) {
        number::number_in(
            text::after_last(text::trimmed(t.skip("I2C bus:"@.len() as int)), '-'),
            10,
            u32::MAX as nat,
        )
    } else {
        None
    }
}

/// The first bus number in the lines that does not belong to a display without DDC/CI; `invalid`
/// says whether the lines start within the section of such a display.
pub open spec fn first_bus(lines: Seq<Seq<char>>, invalid: bool) -> Option<nat>
    decreases lines.len(),
{
    if lines.len() == 0 {
        None
    } else {
        let t = text::trimmed(lines[0]);
        let rest = lines.drop_first();
        if same_but_case(t, "Invalid display"@) {
            first_bus(rest, true)
        } else if text::has_prefix(t, "Display "@) {
            first_bus(rest, false)
        } else if !invalid && bus_on(lines[0]) is Some {
            bus_on(lines[0])
        } else {
            first_bus(rest, invalid)
        }
    }
}

/// Whether a line reports the continuous value of the brightness.
pub open spec fn reports_brightness(line: Seq<char>) -> bool {
    let f = text::words_of(line);
    f.len() >= 5 && f[0] == "VCP"@ && f[1] == "10"@ && f[2] == "C"@
}

/// The current and the greatest brightness on the first line that reports them.
pub open spec fn brightness_in(lines: Seq<Seq<char>>) -> Option<(nat, nat)>
    decreases lines.len(),
{
    if lines.len() == 0 {
        None
    } else if reports_brightness(lines[0]) {
        let f = text::words_of(lines[0]);
        match (
            number::number_in(f[3], 10, u32::MAX as nat),
            number::number_in(f[4], 10, u32::MAX as nat),
        ) {
            (Some(cur), Some(max)) => Some((cur, max)),
            _ => None,
        }
    } else {
        brightness_in(lines.drop_first())
    }
}

/// An ASCII letter in lower case; any other character as it is.
fn lower(c: char) -> (r: char)
    ensures
        r == ascii_lower(c),
{
    match c {
        'A' => 'a',
        'B' => 'b',
        'C' => 'c',
        'D' => 'd',
        'E' => 'e',
        'F' => 'f',
        'G' => 'g',
        'H' => 'h',
        'I' => 'i',
        'J' => 'j',
        'K' => 'k',
        'L' => 'l',
        'M' => 'm',
        'N' => 'n',
        'O' => 'o',
        'P' => 'p',
        'Q' => 'q',
        'R' => 'r',
        'S' => 's',
        'T' => 't',
        'U' => 'u',
        'V' => 'v',
        'W' => 'w',
        'X' => 'x',
        'Y' => 'y',
        'Z' => 'z',
        _ => c,
    }
}

/// Compares two texts, whatever the case of their ASCII letters.
fn eq_ignore_case(a: &[char], b: &[char]) -> (r: bool)
    ensures
        r == same_but_case(a@, b@),
{
    if a.len() != b.len() {
        return false;
    }
    let mut i: usize = 0;
    while i < a.len()
        invariant
            0 <= i <= a@.len(),
            a@.len() == b@.len(),
            forall|j: int| 0 <= j < i ==> ascii_lower(#[trigger] a@[j]) == ascii_lower(b@[j]),
        decreases a@.len() - i,
    {
        if lower(a[i]) != lower(b[i]) {
            return false;
        }
        i += 1;
    }
    true
}

/// Finds the I2C bus of the first display with DDC/CI in the report of `ddcutil detect --brief`.
///
/// A section headed "Invalid display" (a built-in panel) is passed over.
pub fn parse_ddc_bus(report: &str) -> (r: Option<u32>)
    ensures
        r is Some <==> first_bus(text::lines_of(report@), false) is Some,
        r matches Some(n) ==> first_bus(text::lines_of(report@), false) == Some(n as nat),
{
    let lines: Vec<Vec<char>> = text::lines(text::chars_of(report).as_slice());
    let ghost all = text::lines_of(report@);
    let invalid_head: Vec<char> = text::chars_of("Invalid display");
    let display_head: Vec<char> = text::chars_of("Display ");
    let bus_key: Vec<char> = text::chars_of("I2C bus:");
    let mut invalid = false;
    let mut i: usize = 0;
    assert(all.skip(0) == all);
    while i < lines.len()
        invariant
            0 <= i <= lines@.len(),
            all == text::pieces(lines@),
            all == text::lines_of(report@),
            invalid_head@ == "Invalid display"@,
            display_head@ == "Display "@,
            bus_key@ == "I2C bus:"@,
            first_bus(all, false) == first_bus(all.skip(i as int), invalid),
        decreases lines@.len() - i,
    {
        assert(all.skip(i as int)[0] == lines@[i as int]@);
        assert(all.skip(i as int).drop_first() == all.skip(i + 1));
        let t: &[char] = text::trim(lines[i].as_slice());
        if eq_ignore_case(t, invalid_head.as_slice()) {
            invalid = true;
        } else if text::starts_with(t, display_head.as_slice()) {
            invalid = false;
        } else if !invalid && text::starts_with(t, bus_key.as_slice()) {
            let rest: &[char] = &t[bus_key.len()..t.len()];
            assert(rest@ == t@.skip("I2C bus:"@.len() as int));
            let found: Option<u32> = number::parse_u32(text::tail_after(text::trim(rest), '-'));
            if found.is_some() {
                return found;
            }
        }
        i += 1;
    }
    None
}

/// Reads the report of `ddcutil getvcp 10 --terse`: the current and the greatest value.
pub fn parse_vcp_terse(report: &str) -> (r: Option<(u32, u32)>)
    ensures
        r is Some <==> brightness_in(text::lines_of(report@)) is Some,
        r matches Some((cur, max)) ==> brightness_in(text::lines_of(report@)) == Some(
            (cur as nat, max as nat),
        ),
{
    let lines: Vec<Vec<char>> = text::lines(text::chars_of(report).as_slice());
    let ghost all = text::lines_of(report@);
    let vcp: Vec<char> = text::chars_of("VCP");
    let ten: Vec<char> = text::chars_of("10");
    let c: Vec<char> = text::chars_of("C");
    let mut i: usize = 0;
    assert(all.skip(0) == all);
    while i < lines.len()
        invariant
            0 <= i <= lines@.len(),
            all == text::pieces(lines@),
            all == text::lines_of(report@),
            vcp@ == "VCP"@,
            ten@ == "10"@,
            c@ == "C"@,
            brightness_in(all) == brightness_in(all.skip(i as int)),
        decreases lines@.len() - i,
    {
        assert(all.skip(i as int)[0] == lines@[i as int]@);
        assert(all.skip(i as int).drop_first() == all.skip(i + 1));
        let f: Vec<Vec<char>> = text::words(lines[i].as_slice());
        let ghost fs = text::words_of(lines@[i as int]@);
        assert(fs.len() == f@.len());
        assert(forall|k: int| 0 <= k < f@.len() ==> fs[k] == (#[trigger] f@[k])@);
        if f.len() >= 5 && text::same(f[0].as_slice(), vcp.as_slice()) && text::same(
            f[1].as_slice(),
            ten.as_slice(),
        ) && text::same(f[2].as_slice(), c.as_slice()) {
            return match number::parse_u32(f[3].as_slice()) {
                Some(cur) => match number::parse_u32(f[4].as_slice()) {
                    Some(max) => Some((cur, max)),
                    None => None,
                },
                None => None,
            };
        }
        i += 1;
    }
    None
}

/// A number in decimal.
fn decimal_of(n: u32) -> (s: String)
    ensures
        s@ == number::decimal(n as nat),
{
    let mut s = String::new();
    number::append_decimal(&mut s, n as u64);
    assert(s@ == number::decimal(n as nat));
    s
}

impl Brightness {
    /// The arguments with which `ddcutil` looks for displays.
    pub fn detect_args() -> (args: Vec<String>)
        ensures
            text::texts(args@) == seq!["detect"@, "--brief"@],
    {
        let mut args: Vec<String> = Vec::new();
        args.push("detect".to_string());
        args.push("--brief".to_string());
        assert(text::texts(args@) =~= seq!["detect"@, "--brief"@]);
        args
    }

    /// The first display with DDC/CI in the report on the displays, if there is a report.
    pub fn detect(report: Option<&str>) -> (r: Option<Brightness>)
        ensures
            match report {
                Some(s) => {
                    &&& r is Some <==> first_bus(text::lines_of(s@), false) is Some
                    &&& r matches Some(b) ==> first_bus(text::lines_of(s@), false) == Some(
                        b.bus as nat,
                    )
                },
                None => r is None,
            },
    {
        match report {
            Some(s) => match parse_ddc_bus(s) {
                Some(bus) => Some(Brightness { bus }),
                None => None,
            },
            None => None,
        }
    }

    /// The arguments with which `ddcutil` reports the brightness.
    pub fn read_args(&self) -> (args: Vec<String>)
        ensures
            text::texts(args@) == seq![
                "--bus"@,
                number::decimal(self.bus as nat),
                "getvcp"@,
                "10"@,
                "--terse"@,
                "--sleep-multiplier"@,
                "0.1"@,
            ],
    {
        let mut args: Vec<String> = Vec::new();
        args.push("--bus".to_string());
        args.push(decimal_of(self.bus));
        args.push("getvcp".to_string());
        args.push("10".to_string());
        args.push("--terse".to_string());
        args.push("--sleep-multiplier".to_string());
        args.push("0.1".to_string());
        assert(text::texts(args@) =~= seq![
            "--bus"@,
            number::decimal(self.bus as nat),
            "getvcp"@,
            "10"@,
            "--terse"@,
            "--sleep-multiplier"@,
            "0.1"@,
        ]);
        args
    }

    /// The current and the greatest brightness in a report, if there is a report.
    pub fn read(report: Option<&str>) -> (r: Option<(u32, u32)>)
        ensures
            match report {
                Some(s) => {
                    &&& r is Some <==> brightness_in(text::lines_of(s@)) is Some
                    &&& r matches Some((cur, max)) ==> brightness_in(text::lines_of(s@)) == Some(
                        (cur as nat, max as nat),
                    )
                },
                None => r is None,
            },
    {
        match report {
            Some(s) => parse_vcp_terse(s),
            None => None,
        }
    }

    /// The arguments with which `ddcutil` sets the brightness.
    pub fn set_args(&self, value: u32) -> (args: Vec<String>)
        ensures
            text::texts(args@) == seq![
                "--bus"@,
                number::decimal(self.bus as nat),
                "setvcp"@,
                "10"@,
                number::decimal(value as nat),
                "--sleep-multiplier"@,
                "0.1"@,
                "--noverify"@,
            ],
    {
        let mut args: Vec<String> = Vec::new();
        args.push("--bus".to_string());
        args.push(decimal_of(self.bus));
        args.push("setvcp".to_string());
        args.push("10".to_string());
        args.push(decimal_of(value));
        args.push("--sleep-multiplier".to_string());
        args.push("0.1".to_string());
        args.push("--noverify".to_string());
        assert(text::texts(args@) =~= seq![
            "--bus"@,
            number::decimal(self.bus as nat),
            "setvcp"@,
            "10"@,
            number::decimal(value as nat),
            "--sleep-multiplier"@,
            "0.1"@,
            "--noverify"@,
        ]);
        args
    }
}

} // verus!
