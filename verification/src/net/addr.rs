//! Internet addresses: as the kernel writes them, and as they are shown.

use vstd::prelude::*;

use crate::number;
use crate::text;

verus! {

/// An address of version 4.
#[derive(Clone, Copy, Debug, PartialEq, Eq)]
pub struct Ipv4Addr {
    pub octets: [u8; 4],
}

/// An address of version 6.
#[derive(Clone, Copy, Debug, PartialEq, Eq)]
pub struct Ipv6Addr {
    pub segments: [u16; 8],
}

/// An address.
#[derive(Clone, Copy, Debug, PartialEq, Eq)]
pub enum IpAddr {
    V4(Ipv4Addr),
    V6(Ipv6Addr),
}

/// What an address holds: its octets, or its segments.
pub enum Address {
    V4(Seq<u8>),
    V6(Seq<u16>),
}

impl View for Ipv4Addr {
    type V = Seq<u8>;

    open spec fn view(&self) -> Seq<u8> {
        self.octets@
    }
}

impl View for Ipv6Addr {
    type V = Seq<u16>;

    open spec fn view(&self) -> Seq<u16> {
        self.segments@
    }
}

impl View for IpAddr {
    type V = Address;

    open spec fn view(&self) -> Address {
        match self {
            IpAddr::V4(a) => Address::V4(a@),
            IpAddr::V6(a) => Address::V6(a@),
        }
    }
}

/// The bytes of a number, the least significant one first.
pub open spec fn le_bytes(n: u32) -> Seq<u8> {
    seq![
        (n % 256) as u8,
        (n / 256 % 256) as u8,
        (n / 65536 % 256) as u8,
        (n / 16777216 % 256) as u8,
    ]
}

/// The address of version 4 that the kernel writes so: the number in hexadecimal that its bytes
/// make, the first byte least significant.
pub open spec fn ipv4_in(hex: Seq<char>) -> Option<Seq<u8>> {
    match number::number_in(hex, 16, u32::MAX as nat) {
        Some(n) => Some(le_bytes(n as u32)),
        None => None,
    }
}

/// How many characters make up a number of bytes in UTF-8; none if a character stands across the
/// end.
pub open spec fn boundary(s: Seq<char>, bytes: nat) -> Option<nat>
    decreases s.len(),
{
    if bytes == 0 {
        Some(0)
    } else if s.len() == 0 || text::utf8_width(s[0]) > bytes {
        None
    } else {
        match boundary(s.drop_first(), (bytes - text::utf8_width(s[0])) as nat) {
            Some(n) => Some(n + 1),
            None => None,
        }
    }
}

/// What is read where numbers in hexadecimal of eight bytes each are expected.
pub enum Words {
    /// A character stands across the end of a number.
    Torn,
    /// A number is none.
    Bad,
    Read(Seq<u32>),
}

/// Reads `n` numbers in hexadecimal of eight bytes each, up to the first that cannot be read.
pub open spec fn words_in(s: Seq<char>, n: nat) -> Words
    decreases n,
{
    if n == 0 {
        Words::Read(Seq::empty())
    } else {
        match boundary(s, 8) {
            None => Words::Torn,
            Some(k) => match number::number_in(s.take(k as int), 16, u32::MAX as nat) {
                None => Words::Bad,
                Some(w) => match words_in(s.skip(k as int), (n - 1) as nat) {
                    Words::Read(rest) => Words::Read(seq![w as u32] + rest),
                    x => x,
                },
            },
        }
    }
}

/// Whether an address of version 6 is torn: one of its four numbers ends within a character.
pub open spec fn is_torn(hex: Seq<char>) -> bool {
    text::utf8_len(hex) == 32 && words_in(hex, 4) is Torn
}

/// The segments that four numbers make: each number has the bytes of two segments, the first byte
/// least significant.
pub open spec fn segments_of(words: Seq<u32>) -> Seq<u16> {
    Seq::new(
        8,
        |k: int|
            {
                let b = le_bytes(words[k / 2]);
                if k % 2 == 0 {
                    (b[0] * 256 + b[1]) as u16
                } else {
                    (b[2] * 256 + b[3]) as u16
                }
            },
    )
}

/// The address of version 6 that the kernel writes so: 32 bytes, as four numbers in hexadecimal.
pub open spec fn ipv6_in(hex: Seq<char>) -> Option<Seq<u16>> {
    if text::utf8_len(hex) != 32 {
        None
    } else {
        match words_in(hex, 4) {
            Words::Read(words) => Some(segments_of(words)),
            _ => None,
        }
    }
}

/// The segments that 32 digits make, four digits each, the most significant one first.
pub open spec fn segments_in(digits: Seq<char>) -> Seq<u16> {
    Seq::new(8, |k: int| number::value_of(digits.subrange(4 * k, 4 * k + 4), 16) as u16)
}

/// An address of version 4 as it is shown.
pub open spec fn v4_text(o: Seq<u8>) -> Seq<char> {
    number::decimal(o[0] as nat) + "."@ + number::decimal(o[1] as nat) + "."@ + number::decimal(
        o[2] as nat,
    ) + "."@ + number::decimal(o[3] as nat)
}

/// Segments in hexadecimal, with colons between them.
pub open spec fn hex_text(s: Seq<u16>) -> Seq<char>
    decreases s.len(),
{
    if s.len() == 0 {
        Seq::empty()
    } else if s.len() == 1 {
        number::digits_of(s[0] as nat, 16)
    } else {
        hex_text(s.drop_last()) + ":"@ + number::digits_of(s.last() as nat, 16)
    }
}

/// Whether segments from `start` on are zero.
pub open spec fn is_run(s: Seq<u16>, start: int, len: int) -> bool {
    &&& 0 <= start <= start + len <= s.len()
    &&& forall|i: int| start <= i < start + len ==> #[trigger] s[i] == 0
}

/// How many segments are zero right before an index.
pub open spec fn zeros_before(s: Seq<u16>, end: int) -> int
    decreases end,
{
    if end <= 0 || s[end - 1] != 0 {
        0
    } else {
        zeros_before(s, end - 1) + 1
    }
}

/// Where the first of the longest runs of zeros before an index starts, and how long it is.
pub open spec fn longest_run(s: Seq<u16>, end: int) -> (int, int)
    decreases end,
{
    if end <= 0 {
        (0, 0)
    } else {
        let best = longest_run(s, end - 1);
        let here = zeros_before(s, end);
        if here > best.1 {
            (end - here, here)
        } else {
            best
        }
    }
}

/// Whether an address of version 6 stands for one of version 4.
pub open spec fn is_mapped(s: Seq<u16>) -> bool {
    is_run(s, 0, 5) && s[5] == 0xffff
}

/// The octets of the address of version 4 that one of version 6 ends in.
pub open spec fn mapped_octets(s: Seq<u16>) -> Seq<u8> {
    seq![
        (s[6] / 256) as u8,
        (s[6] % 256) as u8,
        (s[7] / 256) as u8,
        (s[7] % 256) as u8,
    ]
}

/// An address of version 6 as it is shown: the first of the longest runs of two zeros or more is
/// left out.
pub open spec fn v6_text(s: Seq<u16>) -> Seq<char> {
    let (start, len) = longest_run(s, 8);
    if is_mapped(s) {
        "::ffff:"@ + v4_text(mapped_octets(s))
    } else if len > 1 {
        hex_text(s.take(start)) + "::"@ + hex_text(s.skip(start + len))
    } else {
        hex_text(s)
    }
}

/// Whether all octets are zero.
pub open spec fn is_zero(o: Seq<u8>) -> bool {
    forall|i: int| 0 <= i < 4 ==> #[trigger] o[i] == 0
}

/// Whether all bits of an address are zero.
pub open spec fn is_unspecified(a: Address) -> bool {
    match a {
        Address::V4(o) => is_zero(o),
        Address::V6(s) => is_run(s, 0, 8),
    }
}

/// An address with a port as it is shown.
pub open spec fn endpoint_text(a: Address, port: nat) -> Seq<char> {
    (if is_unspecified(a) {
        "*"@
    } else {
        match a {
            Address::V4(o) => v4_text(o),
            Address::V6(s) => "["@ + v6_text(s) + "]"@,
        }
    }) + ":"@ + number::decimal(port)
}

/// The run of zeros that is left out is a run, none is longer, and none as long starts before it.
pub proof fn law_longest_run_is_first(s: Seq<u16>, end: int, start: int, len: int)
    requires
        0 <= end <= s.len(),
        is_run(s, start, len),
        start + len <= end,
        len > 0,
    ensures
        is_run(s, longest_run(s, end).0, longest_run(s, end).1),
        longest_run(s, end).0 + longest_run(s, end).1 <= end,
        len < longest_run(s, end).1 || len == longest_run(s, end).1 && longest_run(s, end).0
            <= start,
    decreases end,
{
    lemma_longest_run(s, end);
    lemma_zeros_before(s, end);
    if start + len < end {
        law_longest_run_is_first(s, end - 1, start, len);
    } else {
        assert(zeros_before(s, end) >= len) by {
            if zeros_before(s, end) < len {
                assert(s[end - zeros_before(s, end) - 1] == 0);
            }
        }
        let best = longest_run(s, end - 1);
        if zeros_before(s, end) <= best.1 && best.1 == len {
            lemma_longest_run(s, end - 1);
        }
    }
}

/// The zeros right before an index are a run, and the segment before them is not zero.
proof fn lemma_zeros_before(s: Seq<u16>, end: int)
    requires
        0 <= end <= s.len(),
    ensures
        0 <= zeros_before(s, end) <= end,
        is_run(s, end - zeros_before(s, end), zeros_before(s, end)),
        zeros_before(s, end) < end ==> s[end - zeros_before(s, end) - 1] != 0,
    decreases end,
{
    if end > 0 && s[end - 1] == 0 {
        lemma_zeros_before(s, end - 1);
    }
}

/// The run that is found is a run.
pub(crate) proof fn lemma_longest_run(s: Seq<u16>, end: int)
    requires
        0 <= end <= s.len(),
    ensures
        is_run(s, longest_run(s, end).0, longest_run(s, end).1),
        longest_run(s, end).0 + longest_run(s, end).1 <= end,
    decreases end,
{
    if end > 0 {
        lemma_longest_run(s, end - 1);
        lemma_zeros_before(s, end);
    }
}

/// The number that four bytes make, the first one least significant.
pub open spec fn number_of(a: u8, b: u8, c: u8, d: u8) -> nat {
    a as nat + 256 * (b as nat) + 65536 * (c as nat) + 16777216 * (d as nat)
}

/// Four bytes as the kernel writes them: the number that they make, as eight digits in upper case.
pub open spec fn kernel_word(a: u8, b: u8, c: u8, d: u8) -> Seq<char> {
    number::padded(number_of(a, b, c, d), 8, true)
}

/// Every text of the number that the bytes of an address of version 4 make reads as that address.
pub proof fn law_ipv4_of_its_number(hex: Seq<char>, a: u8, b: u8, c: u8, d: u8)
    requires
        number::number_in(hex, 16, u32::MAX as nat) == Some(number_of(a, b, c, d)),
    ensures
        ipv4_in(hex) == Some(seq![a, b, c, d]),
{
    let n = number_of(a, b, c, d);
    lemma_bytes_of(a, b, c, d, n as u32);
    assert(le_bytes(n as u32) =~= seq![a, b, c, d]);
}

/// An address of version 4 is read back from what the kernel writes for it, and from the shortest
/// text of its number.
pub proof fn law_ipv4_reads_back(a: u8, b: u8, c: u8, d: u8)
    ensures
        ipv4_in(kernel_word(a, b, c, d)) == Some(seq![a, b, c, d]),
        ipv4_in(number::digits_of(number_of(a, b, c, d), 16)) == Some(seq![a, b, c, d]),
{
    let n = number_of(a, b, c, d);
    lemma_kernel_word(a, b, c, d);
    number::law_number_round_trip(n, 16, u32::MAX as nat);
    law_ipv4_of_its_number(kernel_word(a, b, c, d), a, b, c, d);
    law_ipv4_of_its_number(number::digits_of(n, 16), a, b, c, d);
}

/// What the kernel writes for four bytes reads as their number.
proof fn lemma_kernel_word(a: u8, b: u8, c: u8, d: u8)
    ensures
        kernel_word(a, b, c, d).len() == 8,
        number::number_in(kernel_word(a, b, c, d), 16, u32::MAX as nat) == Some(
            number_of(a, b, c, d),
        ),
{
    reveal_with_fuel(number::room, 9);
    number::law_padded_round_trip(number_of(a, b, c, d), 8, true, u32::MAX as nat);
}

/// The bytes of a number are those of which it was made.
proof fn lemma_bytes_of(a: u8, b: u8, c: u8, d: u8, n: u32)
    requires
        n == a + 256 * b + 65536 * c + 16777216 * d,
    ensures
        n % 256 == a,
        n / 256 % 256 == b,
        n / 65536 % 256 == c,
        n / 16777216 % 256 == d,
{
    assert(n % 256 == a && n / 256 % 256 == b && n / 65536 % 256 == c && n / 16777216 % 256 == d)
        by (bit_vector)
        requires
            n == a + 256 * b + 65536 * c + 16777216 * d,
    ;
}

/// One of the numbers of eight digits that an address of version 6 is written in.
pub open spec fn eight(hex: Seq<char>, k: int) -> Seq<char> {
    hex.subrange(8 * k, 8 * k + 8)
}

/// What one of the numbers of an address of version 6 reads as.
pub open spec fn word_at(hex: Seq<char>, k: int) -> Option<nat> {
    number::number_in(eight(hex, k), 16, u32::MAX as nat)
}

/// An address of version 6 is read from four numbers of eight digits each, and from nothing else.
pub proof fn law_ipv6_of_four_numbers(hex: Seq<char>)
    ensures
        ipv6_in(hex) is Some <==> hex.len() == 32 && forall|k: int|
            0 <= k < 4 ==> (#[trigger] word_at(hex, k)) is Some,
        ipv6_in(hex) is Some ==> !is_torn(hex) && ipv6_in(hex) == Some(
            segments_of(Seq::new(4, |k: int| word_at(hex, k)->0 as u32)),
        ),
{
    if hex.len() == 32 && forall|k: int| 0 <= k < 4 ==> (#[trigger] word_at(hex, k)) is Some {
        lemma_four_words(hex);
    } else if ipv6_in(hex) is Some {
        lemma_words_are_eight(hex, 4);
        lemma_utf8_len_at_least(hex);
        assert(text::utf8_len(hex.take(32)) + text::utf8_len(hex.skip(32)) == text::utf8_len(hex))
            by {
            lemma_utf8_len_split(hex, 32);
        }
        lemma_utf8_len_at_least(hex.take(32));
        lemma_utf8_len_at_least(hex.skip(32));
        assert(hex.len() == 32);
        assert forall|k: int| 0 <= k < 4 implies (#[trigger] word_at(hex, k)) is Some by {
            assert(number::number_in(eight(hex, k), 16, u32::MAX as nat) is Some);
        }
    }
}

/// The four numbers of an address of version 6 are read.
proof fn lemma_four_words(hex: Seq<char>)
    requires
        hex.len() == 32,
        forall|k: int| 0 <= k < 4 ==> (#[trigger] word_at(hex, k)) is Some,
    ensures
        !is_torn(hex),
        ipv6_in(hex) == Some(segments_of(Seq::new(4, |k: int| word_at(hex, k)->0 as u32))),
{
    let w = Seq::new(4, |k: int| word_at(hex, k)->0 as u32);
    let (a, b, c, d) = (eight(hex, 0), eight(hex, 1), eight(hex, 2), eight(hex, 3));
    assert(word_at(hex, 0) is Some && word_at(hex, 1) is Some && word_at(hex, 2) is Some && word_at(
        hex,
        3,
    ) is Some);
    let none = Seq::<char>::empty();
    lemma_word(d, none, 0);
    lemma_word(c, d + none, 1);
    lemma_word(b, c + (d + none), 2);
    lemma_word(a, b + (c + (d + none)), 3);
    assert(hex =~= a + (b + (c + (d + none))));
    assert(w =~= seq![w[0]] + (seq![w[1]] + (seq![w[2]] + (seq![w[3]] + Seq::<u32>::empty()))));
    lemma_numbers_are_ascii(a);
    lemma_numbers_are_ascii(b);
    lemma_numbers_are_ascii(c);
    lemma_numbers_are_ascii(d);
    lemma_ascii_len(hex);
}

/// Where numbers are read, each of them has eight characters.
proof fn lemma_words_are_eight(s: Seq<char>, n: nat)
    requires
        words_in(s, n) is Read,
    ensures
        s.len() >= 8 * n,
        forall|k: int|
            0 <= k < n ==> number::number_in(#[trigger] eight(s, k), 16, u32::MAX as nat) is Some,
    decreases n,
{
    if n > 0 {
        let k = boundary(s, 8)->0;
        let front = s.take(k as int);
        let rest = s.skip(k as int);
        lemma_boundary(s, 8);
        lemma_numbers_are_ascii(front);
        lemma_ascii_len(front);
        assert(k == 8);
        lemma_words_are_eight(rest, (n - 1) as nat);
        assert forall|j: int| 0 <= j < n implies number::number_in(
            #[trigger] eight(s, j),
            16,
            u32::MAX as nat,
        ) is Some by {
            if j == 0 {
                assert(eight(s, j) =~= front);
            } else {
                assert(eight(s, j) =~= eight(rest, j - 1));
            }
        }
    }
}

/// The characters that make up a number of bytes take that many.
proof fn lemma_boundary(s: Seq<char>, bytes: nat)
    requires
        boundary(s, bytes) is Some,
    ensures
        boundary(s, bytes)->0 <= s.len(),
        text::utf8_len(s.take(boundary(s, bytes)->0 as int)) == bytes,
    decreases s.len(),
{
    let n = boundary(s, bytes)->0;
    if bytes > 0 {
        let w = text::utf8_width(s[0]);
        lemma_boundary(s.drop_first(), (bytes - w) as nat);
        let front = s.take(n as int);
        lemma_utf8_len_split(front, 1);
        assert(front.take(1) =~= Seq::<char>::empty().push(s[0]));
        text::lemma_utf8_len_push(Seq::<char>::empty(), s[0]);
        assert(front.skip(1) =~= s.drop_first().take(n - 1));
    }
}

/// Two parts take as many bytes as the whole.
proof fn lemma_utf8_len_split(s: Seq<char>, n: int)
    requires
        0 <= n <= s.len(),
    ensures
        text::utf8_len(s) == text::utf8_len(s.take(n)) + text::utf8_len(s.skip(n)),
    decreases s.len(),
{
    if n == s.len() {
        assert(s.take(n) =~= s);
        assert(s.skip(n) =~= Seq::<char>::empty());
    } else {
        lemma_utf8_len_split(s.drop_last(), n);
        assert(s.drop_last().take(n) =~= s.take(n));
        assert(s.skip(n).drop_last() =~= s.drop_last().skip(n));
        assert(s.skip(n).last() == s.last());
    }
}

/// Every character takes a byte at least.
proof fn lemma_utf8_len_at_least(s: Seq<char>)
    ensures
        text::utf8_len(s) >= s.len(),
    decreases s.len(),
{
    if s.len() > 0 {
        lemma_utf8_len_at_least(s.drop_last());
    }
}

/// An address of version 6 as the kernel writes it among the sockets: two segments in each of four
/// numbers.
pub open spec fn kernel_segments(s: Seq<u16>) -> Seq<char> {
    kernel_pair(s[0], s[1]) + kernel_pair(s[2], s[3]) + kernel_pair(s[4], s[5]) + kernel_pair(
        s[6],
        s[7],
    )
}

/// Two segments as the kernel writes them among the sockets.
pub open spec fn kernel_pair(a: u16, b: u16) -> Seq<char> {
    kernel_word((a / 256) as u8, (a % 256) as u8, (b / 256) as u8, (b % 256) as u8)
}

/// An address of version 6 is read back from what the kernel writes for it.
pub proof fn law_ipv6_reads_back(s: Seq<u16>)
    requires
        s.len() == 8,
    ensures
        ipv6_in(kernel_segments(s)) == Some(s),
{
    let hex = kernel_segments(s);
    lemma_kernel_pair(s[0], s[1]);
    lemma_kernel_pair(s[2], s[3]);
    lemma_kernel_pair(s[4], s[5]);
    lemma_kernel_pair(s[6], s[7]);
    assert(eight(hex, 0) =~= kernel_pair(s[0], s[1]));
    assert(eight(hex, 1) =~= kernel_pair(s[2], s[3]));
    assert(eight(hex, 2) =~= kernel_pair(s[4], s[5]));
    assert(eight(hex, 3) =~= kernel_pair(s[6], s[7]));
    assert forall|k: int| 0 <= k < 4 implies (#[trigger] word_at(hex, k)) is Some by {
        assert(k == 0 || k == 1 || k == 2 || k == 3);
    }
    lemma_four_words(hex);
    let w = Seq::new(4, |k: int| word_at(hex, k)->0 as u32);
    assert forall|k: int| 0 <= k < 8 implies #[trigger] segments_of(w)[k] == s[k] by {
        assert(k == 0 || k == 1 || k == 2 || k == 3 || k == 4 || k == 5 || k == 6 || k == 7);
    }
    assert(segments_of(w) =~= s);
}

/// What the kernel writes for an address of version 6 holds nothing but digits.
pub(crate) proof fn lemma_kernel_segments_are_digits(s: Seq<u16>)
    requires
        s.len() == 8,
    ensures
        number::all_digits(kernel_segments(s), 16),
{
    reveal_with_fuel(number::room, 9);
    assert forall|a: u16, b: u16| number::all_digits(#[trigger] kernel_pair(a, b), 16) by {
        let (p, q, r, t) = ((a / 256) as u8, (a % 256) as u8, (b / 256) as u8, (b % 256) as u8);
        number::law_padded_round_trip(number_of(p, q, r, t), 8, true, u32::MAX as nat);
    }
    lemma_digits_together(kernel_pair(s[0], s[1]), kernel_pair(s[2], s[3]));
    lemma_digits_together(
        kernel_pair(s[0], s[1]) + kernel_pair(s[2], s[3]),
        kernel_pair(s[4], s[5]),
    );
    lemma_digits_together(
        kernel_pair(s[0], s[1]) + kernel_pair(s[2], s[3]) + kernel_pair(s[4], s[5]),
        kernel_pair(s[6], s[7]),
    );
}

/// Digits and digits are digits.
proof fn lemma_digits_together(a: Seq<char>, b: Seq<char>)
    requires
        number::all_digits(a, 16),
        number::all_digits(b, 16),
    ensures
        number::all_digits(a + b, 16),
{
    let s = a + b;
    assert forall|i: int| 0 <= i < s.len() implies number::digit_value(#[trigger] s[i]) < 16 by {
        if i < a.len() {
            assert(s[i] == a[i]);
        } else {
            assert(s[i] == b[i - a.len()]);
        }
    }
}

/// What the kernel writes for two segments reads as a number with their bytes.
proof fn lemma_kernel_pair(a: u16, b: u16)
    ensures
        kernel_pair(a, b).len() == 8,
        number::number_in(kernel_pair(a, b), 16, u32::MAX as nat) matches Some(n) && n <= u32::MAX
            && le_bytes(n as u32)[0] * 256 + le_bytes(n as u32)[1] == a && le_bytes(n as u32)[2]
            * 256 + le_bytes(n as u32)[3] == b,
{
    let (p, q, r, t) = ((a / 256) as u8, (a % 256) as u8, (b / 256) as u8, (b % 256) as u8);
    lemma_kernel_word(p, q, r, t);
    lemma_bytes_of(p, q, r, t, number_of(p, q, r, t) as u32);
}

/// An address of version 6 as the kernel writes it among the interfaces: four digits for each
/// segment.
pub open spec fn listed_segments(s: Seq<u16>) -> Seq<char>
    decreases s.len(),
{
    if s.len() == 0 {
        Seq::empty()
    } else {
        listed_segments(s.drop_last()) + number::padded(s.last() as nat, 4, false)
    }
}

/// An address of version 6 is read back from what the kernel writes for it among the interfaces.
pub proof fn law_listed_address_reads_back(s: Seq<u16>)
    requires
        s.len() == 8,
    ensures
        listed_segments(s).len() == 32,
        number::all_digits(listed_segments(s), 16),
        segments_in(listed_segments(s)) == s,
{
    let hex = listed_segments(s);
    lemma_listed_segments(s);
    assert forall|k: int| 0 <= k < 8 implies #[trigger] segments_in(hex)[k] == s[k] by {
        assert(number::value_of(hex.subrange(4 * k, 4 * k + 4), 16) == s[k]);
    }
    assert(segments_in(hex) =~= s);
}

/// Where the digits of each segment stand.
proof fn lemma_listed_segments(s: Seq<u16>)
    ensures
        listed_segments(s).len() == 4 * s.len(),
        number::all_digits(listed_segments(s), 16),
        forall|k: int|
            0 <= k < s.len() ==> number::value_of(
                #[trigger] listed_segments(s).subrange(4 * k, 4 * k + 4),
                16,
            ) == s[k],
    decreases s.len(),
{
    if s.len() > 0 {
        let front = listed_segments(s.drop_last());
        let back = number::padded(s.last() as nat, 4, false);
        let all = listed_segments(s);
        lemma_listed_segments(s.drop_last());
        reveal_with_fuel(number::room, 5);
        number::law_padded_round_trip(s.last() as nat, 4, false, 0xffff);
        assert forall|i: int| 0 <= i < all.len() implies number::digit_value(#[trigger] all[i])
            < 16 by {
            if i < front.len() {
                assert(all[i] == front[i]);
            } else {
                assert(all[i] == back[i - front.len()]);
            }
        }
        assert forall|k: int| 0 <= k < s.len() implies number::value_of(
            #[trigger] all.subrange(4 * k, 4 * k + 4),
            16,
        ) == s[k] by {
            if k < s.len() - 1 {
                assert(all.subrange(4 * k, 4 * k + 4) =~= front.subrange(4 * k, 4 * k + 4));
            } else {
                assert(all.subrange(4 * k, 4 * k + 4) =~= back);
            }
        }
    }
}

/// A number of eight digits is read, and then what follows it.
proof fn lemma_word(front: Seq<char>, rest: Seq<char>, n: nat)
    requires
        front.len() == 8,
        number::number_in(front, 16, u32::MAX as nat) is Some,
    ensures
        words_in(front + rest, n + 1) == match words_in(rest, n) {
            Words::Read(v) => Words::Read(
                seq![number::number_in(front, 16, u32::MAX as nat)->0 as u32] + v,
            ),
            x => x,
        },
{
    lemma_numbers_are_ascii(front);
    lemma_ascii_boundary(front + rest, 8);
    assert((front + rest).take(8) =~= front);
    assert((front + rest).skip(8) =~= rest);
}

/// Whether every character takes one byte.
spec fn is_ascii(s: Seq<char>) -> bool {
    forall|i: int| 0 <= i < s.len() ==> text::utf8_width(#[trigger] s[i]) == 1
}

/// The characters of a number take one byte each.
proof fn lemma_numbers_are_ascii(s: Seq<char>)
    requires
        number::number_in(s, 16, u32::MAX as nat) is Some,
    ensures
        is_ascii(s),
{
    let digits = number::unsigned_part(s);
    assert forall|i: int| 0 <= i < s.len() implies text::utf8_width(#[trigger] s[i]) == 1 by {
        if s[0] == '+' {
            if i > 0 {
                assert(number::digit_value(digits[i - 1]) < 16);
            }
        } else {
            assert(number::digit_value(digits[i]) < 16);
        }
    }
}

/// Where every character takes one byte, no address is torn.
pub(crate) proof fn lemma_ascii_is_whole(hex: Seq<char>)
    requires
        forall|i: int| 0 <= i < hex.len() ==> (#[trigger] hex[i] as u32) < 0x80,
    ensures
        !is_torn(hex),
{
    assert(is_ascii(hex));
    lemma_ascii_len(hex);
    if hex.len() == 32 {
        lemma_ascii_words(hex, 4);
    }
}

/// Where every character takes one byte, no number ends within one.
proof fn lemma_ascii_words(s: Seq<char>, n: nat)
    requires
        is_ascii(s),
        s.len() >= 8 * n,
    ensures
        !(words_in(s, n) is Torn),
    decreases n,
{
    if n > 0 {
        lemma_ascii_boundary(s, 8);
        let rest = s.skip(8);
        assert forall|i: int| 0 <= i < rest.len() implies text::utf8_width(#[trigger] rest[i])
            == 1 by {
            assert(rest[i] == s[i + 8]);
        }
        lemma_ascii_words(rest, (n - 1) as nat);
    }
}

/// Where the first characters take one byte each, as many of them make up a number of bytes.
proof fn lemma_ascii_boundary(s: Seq<char>, n: nat)
    requires
        n <= s.len(),
        forall|i: int| 0 <= i < n ==> text::utf8_width(#[trigger] s[i]) == 1,
    ensures
        boundary(s, n) == Some(n),
    decreases n,
{
    if n > 0 {
        lemma_ascii_boundary(s.drop_first(), (n - 1) as nat);
    }
}

/// Where every character takes one byte, there are as many bytes as characters.
proof fn lemma_ascii_len(s: Seq<char>)
    requires
        is_ascii(s),
    ensures
        text::utf8_len(s) == s.len(),
    decreases s.len(),
{
    if s.len() > 0 {
        lemma_ascii_len(s.drop_last());
    }
}

impl Ipv4Addr {
    /// The address with the given octets.
    pub fn new(a: u8, b: u8, c: u8, d: u8) -> (r: Ipv4Addr)
        ensures
            r@ == seq![a, b, c, d],
    {
        let r = Ipv4Addr { octets: [a, b, c, d] };
        assert(r@ =~= seq![a, b, c, d]);
        r
    }
}

impl Ipv6Addr {
    /// The address with the given segments.
    pub fn new(a: u16, b: u16, c: u16, d: u16, e: u16, f: u16, g: u16, h: u16) -> (r: Ipv6Addr)
        ensures
            r@ == seq![a, b, c, d, e, f, g, h],
    {
        let r = Ipv6Addr { segments: [a, b, c, d, e, f, g, h] };
        assert(r@ =~= seq![a, b, c, d, e, f, g, h]);
        r
    }
}

/// Reads an address of version 4.
pub fn ipv4_from_hex(hex: &str) -> (r: Option<Ipv4Addr>)
    ensures
        r is Some <==> ipv4_in(hex@) is Some,
        r matches Some(a) ==> ipv4_in(hex@) == Some(a@),
{
    ipv4_of(text::chars_of(hex).as_slice())
}

/// Reads an address of version 4.
pub(crate) fn ipv4_of(hex: &[char]) -> (r: Option<Ipv4Addr>)
    ensures
        r is Some <==> ipv4_in(hex@) is Some,
        r matches Some(a) ==> ipv4_in(hex@) == Some(a@),
{
    match number::parse(hex, 16, u32::MAX as u64) {
        Some(n) => {
            let w: u32 = n as u32;
            let a = Ipv4Addr::new(
                (w % 256) as u8,
                (w / 256 % 256) as u8,
                (w / 65536 % 256) as u8,
                (w / 16777216 % 256) as u8,
            );
            assert(a@ =~= le_bytes(w));
            Some(a)
        },
        None => None,
    }
}

/// What is read where numbers in hexadecimal are expected.
enum Reading {
    Torn,
    Bad,
    Read(Vec<u32>),
}

impl View for Reading {
    type V = Words;

    closed spec fn view(&self) -> Words {
        match self {
            Reading::Torn => Words::Torn,
            Reading::Bad => Words::Bad,
            Reading::Read(v) => Words::Read(v@),
        }
    }
}

/// Counts the characters that make up a number of bytes.
fn find_boundary(s: &[char], bytes: usize) -> (r: Option<usize>)
    ensures
        r is Some <==> boundary(s@, bytes as nat) is Some,
        r matches Some(n) ==> n <= s@.len() && boundary(s@, bytes as nat) == Some(n as nat),
    decreases s@.len(),
{
    if bytes == 0 {
        return Some(0);
    }
    if s.len() == 0 {
        return None;
    }
    let w: usize = text::char_bytes(s[0]);
    if w > bytes {
        return None;
    }
    let rest: &[char] = &s[1..s.len()];
    assert(rest@ =~= s@.drop_first());
    match find_boundary(rest, bytes - w) {
        Some(n) => Some(n + 1),
        None => None,
    }
}

/// Reads numbers of eight bytes each.
fn read_words(s: &[char], n: usize) -> (r: Reading)
    ensures
        r@ == words_in(s@, n as nat),
    decreases n,
{
    if n == 0 {
        return Reading::Read(Vec::new());
    }
    match find_boundary(s, 8) {
        None => Reading::Torn,
        Some(k) => {
            let front: &[char] = &s[0..k];
            let rest: &[char] = &s[k..s.len()];
            assert(front@ =~= s@.take(k as int));
            assert(rest@ =~= s@.skip(k as int));
            match number::parse(front, 16, u32::MAX as u64) {
                None => Reading::Bad,
                Some(w) => match read_words(rest, n - 1) {
                    Reading::Read(v) => {
                        let mut words: Vec<u32> = Vec::new();
                        words.push(w as u32);
                        for i in 0..v.len()
                            invariant
                                words@ == seq![w as u32] + v@.take(i as int),
                        {
                            words.push(v[i]);
                            assert(words@ =~= seq![w as u32] + v@.take(i + 1));
                        }
                        assert(words@ =~= seq![w as u32] + v@);
                        Reading::Read(words)
                    },
                    x => x,
                },
            }
        },
    }
}

/// Tells whether a text takes a number of bytes in UTF-8.
fn has_bytes(s: &[char], bytes: usize) -> (r: bool)
    requires
        bytes <= 1000,
    ensures
        r == (text::utf8_len(s@) == bytes),
{
    let mut len: usize = 0;
    for i in 0..s.len()
        invariant
            bytes <= 1000,
            len == text::utf8_len(s@.take(i as int)),
            len <= bytes,
    {
        assert(s@.take(i + 1) =~= s@.take(i as int).push(s@[i as int]));
        proof {
            text::lemma_utf8_len_push(s@.take(i as int), s@[i as int]);
            lemma_utf8_len_front(s@, i + 1);
        }
        len += text::char_bytes(s[i]);
        if len > bytes {
            return false;
        }
    }
    assert(s@.take(s@.len() as int) == s@);
    len == bytes
}

/// A part takes no more bytes than the whole.
proof fn lemma_utf8_len_front(s: Seq<char>, n: int)
    requires
        0 <= n <= s.len(),
    ensures
        text::utf8_len(s.take(n)) <= text::utf8_len(s),
    decreases s.len(),
{
    if n == s.len() {
        assert(s.take(n) == s);
    } else {
        lemma_utf8_len_front(s.drop_last(), n);
        assert(s.drop_last().take(n) == s.take(n));
    }
}

/// Reading numbers gives as many as were asked for.
proof fn lemma_words_len(s: Seq<char>, n: nat)
    ensures
        words_in(s, n) matches Words::Read(v) ==> v.len() == n,
    decreases n,
{
    if n > 0 {
        if let Some(k) = boundary(s, 8) {
            lemma_words_len(s.skip(k as int), (n - 1) as nat);
        }
    }
}

/// Tells whether an address of version 6 is torn.
pub fn torn(hex: &str) -> (r: bool)
    ensures
        r == is_torn(hex@),
{
    hex_is_torn(text::chars_of(hex).as_slice())
}

/// Tells whether an address of version 6 is torn.
pub(crate) fn hex_is_torn(hex: &[char]) -> (r: bool)
    ensures
        r == is_torn(hex@),
{
    has_bytes(hex, 32) && matches!(read_words(hex, 4), Reading::Torn)
}

/// Reads an address of version 6.
pub fn ipv6_from_hex(hex: &str) -> (r: Option<Ipv6Addr>)
    requires
        !is_torn(hex@),
    ensures
        r is Some <==> ipv6_in(hex@) is Some,
        r matches Some(a) ==> ipv6_in(hex@) == Some(a@),
{
    ipv6_of(text::chars_of(hex).as_slice())
}

/// Reads an address of version 6.
pub(crate) fn ipv6_of(hex: &[char]) -> (r: Option<Ipv6Addr>)
    ensures
        r is Some <==> ipv6_in(hex@) is Some,
        r matches Some(a) ==> ipv6_in(hex@) == Some(a@),
{
    if !has_bytes(hex, 32) {
        return None;
    }
    proof {
        lemma_words_len(hex@, 4);
    }
    match read_words(hex, 4) {
        Reading::Read(w) => {
            let a = Ipv6Addr::new(
                first_segment(w[0]),
                second_segment(w[0]),
                first_segment(w[1]),
                second_segment(w[1]),
                first_segment(w[2]),
                second_segment(w[2]),
                first_segment(w[3]),
                second_segment(w[3]),
            );
            assert(a@ =~= segments_of(w@));
            Some(a)
        },
        _ => None,
    }
}

/// Reads the segments that 32 digits make; none where there are not 32 digits.
pub(crate) fn segments_of_digits(digits: &[char]) -> (r: Option<Ipv6Addr>)
    ensures
        r is Some <==> digits@.len() == 32 && number::all_digits(digits@, 16),
        r matches Some(a) ==> a@ == segments_in(digits@),
{
    if digits.len() != 32 {
        return None;
    }
    let mut segments: [u16; 8] = [0; 8];
    for k in 0..8
        invariant
            digits@.len() == 32,
            forall|i: int| 0 <= i < 4 * k ==> number::digit_value(#[trigger] digits@[i]) < 16,
            forall|j: int| 0 <= j < k ==> #[trigger] segments@[j] == segments_in(digits@)[j],
    {
        let four: &[char] = &digits[4 * k..4 * k + 4];
        let ghost f = four@;
        assert(f =~= digits@.subrange(4 * k, 4 * k + 4));
        if four[0] == '+' {
            assert(number::digit_value(digits@[4 * k]) >= 16);
            return None;
        }
        match number::parse(four, 16, 0xffff) {
            Some(n) => {
                assert forall|i: int| 0 <= i < 4 * k + 4 implies number::digit_value(
                    #[trigger] digits@[i],
                ) < 16 by {
                    if i >= 4 * k {
                        assert(f[i - 4 * k] == digits@[i]);
                    }
                }
                segments[k] = n as u16;
            },
            None => {
                proof {
                    if number::all_digits(digits@, 16) {
                        assert(number::all_digits(f, 16)) by {
                            assert forall|i: int| 0 <= i < 4 implies number::digit_value(
                                #[trigger] f[i],
                            ) < 16 by {
                                assert(f[i] == digits@[4 * k + i]);
                            }
                        }
                        reveal_with_fuel(number::room, 5);
                        number::lemma_value_in_room(f);
                    }
                }
                return None;
            },
        }
    }
    let a = Ipv6Addr { segments };
    assert(a@ =~= segments_in(digits@));
    Some(a)
}

/// The segment that the first two bytes of a number make.
fn first_segment(w: u32) -> (r: u16)
    ensures
        r == le_bytes(w)[0] * 256 + le_bytes(w)[1],
{
    (w % 256) as u16 * 256 + (w / 256 % 256) as u16
}

/// The segment that the last two bytes of a number make.
fn second_segment(w: u32) -> (r: u16)
    ensures
        r == le_bytes(w)[2] * 256 + le_bytes(w)[3],
{
    (w / 65536 % 256) as u16 * 256 + (w / 16777216 % 256) as u16
}

/// Writes an address of version 4.
pub fn append_ipv4(out: &mut String, a: &Ipv4Addr)
    ensures
        final(out)@ == old(out)@ + v4_text(a@),
{
    number::append_decimal(out, a.octets[0] as u64);
    out.append(".");
    number::append_decimal(out, a.octets[1] as u64);
    out.append(".");
    number::append_decimal(out, a.octets[2] as u64);
    out.append(".");
    number::append_decimal(out, a.octets[3] as u64);
    assert(out@ =~= old(out)@ + v4_text(a@));
}

/// Writes segments in hexadecimal.
fn append_segments(out: &mut String, s: &[u16])
    ensures
        final(out)@ == old(out)@ + hex_text(s@),
{
    assert(out@ =~= old(out)@ + hex_text(s@.take(0)));
    for i in 0..s.len()
        invariant
            out@ == old(out)@ + hex_text(s@.take(i as int)),
    {
        assert(s@.take(i + 1).drop_last() == s@.take(i as int));
        if i > 0 {
            out.append(":");
        }
        number::append_number(out, s[i] as u64, 16);
        assert(out@ =~= old(out)@ + hex_text(s@.take(i + 1)));
    }
    assert(s@.take(s@.len() as int) == s@);
}

/// Finds the run of zeros that is left out.
fn find_run(a: &Ipv6Addr) -> (r: (usize, usize))
    ensures
        (r.0 as int, r.1 as int) == longest_run(a@, 8),
        r.0 + r.1 <= 8,
{
    let mut start: usize = 0;
    let mut len: usize = 0;
    let mut here: usize = 0;
    for i in 0..8
        invariant
            here == zeros_before(a@, i as int),
            (start as int, len as int) == longest_run(a@, i as int),
            here <= i,
            start + len <= i,
    {
        if a.segments[i] == 0 {
            here += 1;
        } else {
            here = 0;
        }
        if here > len {
            start = i + 1 - here;
            len = here;
        }
    }
    (start, len)
}

/// Writes an address of version 6.
pub fn append_ipv6(out: &mut String, a: &Ipv6Addr)
    ensures
        final(out)@ == old(out)@ + v6_text(a@),
{
    let s: &[u16] = a.segments.as_slice();
    if s[0] == 0 && s[1] == 0 && s[2] == 0 && s[3] == 0 && s[4] == 0 && s[5] == 0xffff {
        assert(is_mapped(a@));
        out.append("::ffff:");
        let b = Ipv4Addr::new(
            (s[6] / 256) as u8,
            (s[6] % 256) as u8,
            (s[7] / 256) as u8,
            (s[7] % 256) as u8,
        );
        append_ipv4(out, &b);
        assert(b@ =~= mapped_octets(a@));
        assert(out@ =~= old(out)@ + v6_text(a@));
        return ;
    }
    assert(!is_mapped(a@));
    let (start, len): (usize, usize) = find_run(a);
    if len > 1 {
        let front: &[u16] = &s[0..start];
        let back: &[u16] = &s[start + len..8];
        assert(front@ =~= a@.take(start as int));
        assert(back@ =~= a@.skip(start + len));
        append_segments(out, front);
        out.append("::");
        append_segments(out, back);
        assert(out@ =~= old(out)@ + v6_text(a@));
    } else {
        append_segments(out, s);
    }
}

/// Tells whether all bits of an address are zero.
fn all_zero(ip: &IpAddr) -> (r: bool)
    ensures
        r == is_unspecified(ip@),
{
    match ip {
        IpAddr::V4(a) => {
            let o: &[u8] = a.octets.as_slice();
            let r: bool = o[0] == 0 && o[1] == 0 && o[2] == 0 && o[3] == 0;
            assert(r == is_zero(a@));
            r
        },
        IpAddr::V6(a) => {
            let s: &[u16] = a.segments.as_slice();
            let r: bool = s[0] == 0 && s[1] == 0 && s[2] == 0 && s[3] == 0 && s[4] == 0 && s[5] == 0
                && s[6] == 0 && s[7] == 0;
            assert(r == is_run(a@, 0, 8));
            r
        },
    }
}

/// Writes an address and a port; the address that stands for all is a star.
pub fn fmt_ip_port(ip: IpAddr, port: u16) -> (s: String)
    ensures
        s@ == endpoint_text(ip@, port as nat),
{
    let mut s = String::new();
    if all_zero(&ip) {
        s.append("*");
    } else {
        match ip {
            IpAddr::V4(a) => {
                append_ipv4(&mut s, &a);
            },
            IpAddr::V6(a) => {
                s.append("[");
                append_ipv6(&mut s, &a);
                s.append("]");
            },
        }
    }
    s.append(":");
    number::append_decimal(&mut s, port as u64);
    assert(s@ =~= endpoint_text(ip@, port as nat));
    s
}

} // verus!
