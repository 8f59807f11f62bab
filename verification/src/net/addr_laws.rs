//! What the texts of addresses tell.

use vstd::prelude::*;

use super::addr;
use super::addr::Address;
use crate::number;
use crate::text;

verus! {

/// Whether an address has as many octets or segments as its version asks for.
pub open spec fn is_address(a: Address) -> bool {
    match a {
        Address::V4(o) => o.len() == 4,
        Address::V6(s) => s.len() == 8,
    }
}

/// The address that stands for all is a star, and no other is: its text is the star, a colon and the
/// port, whichever version it has.
pub proof fn law_star_stands_for_all(a: Address, port: nat)
    requires
        is_address(a),
    ensures
        ({
            let s = addr::endpoint_text(a, port);
            &&& s.len() > 0
            &&& s[0] == '*' <==> addr::is_unspecified(a)
            &&& addr::is_unspecified(a) ==> s == "*:"@ + number::decimal(port)
        }),
{
    reveal_strlit("*");
    reveal_strlit(":");
    reveal_strlit("*:");
    let s = addr::endpoint_text(a, port);
    if addr::is_unspecified(a) {
        assert(s =~= "*:"@ + number::decimal(port));
    } else {
        lemma_first_of_host(a);
    }
}

/// Different addresses of version 4 have different texts.
pub proof fn law_v4_texts_tell_apart(a: Seq<u8>, b: Seq<u8>)
    requires
        a.len() == 4,
        b.len() == 4,
        addr::v4_text(a) == addr::v4_text(b),
    ensures
        a == b,
{
    lemma_v4_pieces(a);
    lemma_v4_pieces(b);
    text::lemma_joined_tells_apart(v4_pieces(a), v4_pieces(b), '.');
    assert forall|k: int| 0 <= k < 4 implies #[trigger] a[k] == b[k] by {
        assert(v4_pieces(a)[k] == v4_pieces(b)[k]);
        lemma_digits_tell_apart(a[k] as nat, b[k] as nat, 10);
    }
    assert(a =~= b);
}

/// Different addresses of version 6 have different texts.
pub proof fn law_v6_texts_tell_apart(a: Seq<u16>, b: Seq<u16>)
    requires
        a.len() == 8,
        b.len() == 8,
        addr::v6_text(a) == addr::v6_text(b),
    ensures
        a == b,
{
    lemma_v6_pieces(a);
    lemma_v6_pieces(b);
    text::lemma_joined_tells_apart(v6_pieces(a), v6_pieces(b), ':');
    lemma_last_piece(a);
    lemma_last_piece(b);
    if addr::is_mapped(a) {
        law_v4_texts_tell_apart(addr::mapped_octets(a), addr::mapped_octets(b));
        assert(addr::mapped_octets(a)[0] == addr::mapped_octets(b)[0]);
        assert(addr::mapped_octets(a)[1] == addr::mapped_octets(b)[1]);
        assert(addr::mapped_octets(a)[2] == addr::mapped_octets(b)[2]);
        assert(addr::mapped_octets(a)[3] == addr::mapped_octets(b)[3]);
        assert(a =~= b);
    } else {
        lemma_pieces_of_run(a);
        lemma_pieces_of_run(b);
        let (start, len) = addr::longest_run(a, 8);
        let (other, more) = addr::longest_run(b, 8);
        let p = v6_pieces(a);
        if len > 1 {
            assert(p[gap(start)].len() == 0);
            assert(more > 1);
            lemma_same_run(a, b);
            let back = after_gap(start);
            assert forall|k: int| 0 <= k < 8 implies #[trigger] a[k] == b[k] by {
                if k < start {
                    assert(p[k] == number::digits_of(a[k] as nat, 16));
                    assert(p[k] == number::digits_of(b[k] as nat, 16));
                    lemma_digits_tell_apart(a[k] as nat, b[k] as nat, 16);
                } else if k >= start + len {
                    let j = back + k - start - len;
                    assert(p[j] == number::digits_of(a[k] as nat, 16));
                    assert(p[j] == number::digits_of(b[k] as nat, 16));
                    lemma_digits_tell_apart(a[k] as nat, b[k] as nat, 16);
                }
            }
        } else {
            if more > 1 {
                assert(v6_pieces(b)[gap(other)].len() == 0);
                assert(p[gap(other)].len() > 0);
            }
            assert forall|k: int| 0 <= k < 8 implies #[trigger] a[k] == b[k] by {
                assert(hex_pieces(a)[k] == hex_pieces(b)[k]);
                lemma_digits_tell_apart(a[k] as nat, b[k] as nat, 16);
            }
        }
        assert(a =~= b);
    }
}

/// Addresses with ports that differ have texts that differ, unless both addresses stand for all.
pub proof fn law_endpoints_tell_apart(a: Address, port: nat, b: Address, other: nat)
    requires
        is_address(a),
        is_address(b),
        !addr::is_unspecified(a) || !addr::is_unspecified(b),
        addr::endpoint_text(a, port) == addr::endpoint_text(b, other),
    ensures
        a == b,
        port == other,
{
    law_star_stands_for_all(a, port);
    law_star_stands_for_all(b, other);
    reveal_strlit(":");
    let (x, y) = (host_text(a), host_text(b));
    let (p, q) = (number::decimal(port), number::decimal(other));
    lemma_digits_lack(port, 10);
    lemma_digits_lack(other, 10);
    assert(addr::endpoint_text(a, port) =~= x + seq![':'] + p);
    assert(addr::endpoint_text(b, other) =~= y + seq![':'] + q);
    lemma_split_at_last(x, p, y, q, ':');
    lemma_digits_tell_apart(port, other, 10);
    lemma_first_of_host(a);
    lemma_first_of_host(b);
    match (a, b) {
        (Address::V4(o), Address::V4(r)) => law_v4_texts_tell_apart(o, r),
        (Address::V6(s), Address::V6(t)) => {
            reveal_strlit("[");
            reveal_strlit("]");
            let (u, v) = (addr::v6_text(s), addr::v6_text(t));
            assert(u =~= x.subrange(1, x.len() - 1));
            assert(v =~= y.subrange(1, y.len() - 1));
            law_v6_texts_tell_apart(s, t);
        },
        _ => {},
    }
}

/// An address of version 4 is shown as its four octets in decimal, in order, with points between.
pub proof fn law_v4_text(a: u8, b: u8, c: u8, d: u8)
    ensures
        addr::v4_text(seq![a, b, c, d]) == number::decimal(a as nat) + "."@ + number::decimal(
            b as nat,
        ) + "."@ + number::decimal(c as nat) + "."@ + number::decimal(d as nat),
{
}

/// Whether so many segments from one on are zero.
pub open spec fn are_zero(s: Seq<u16>, start: int, len: int) -> bool {
    0 <= start && 0 <= len && start + len <= s.len() && forall|i: int|
        start <= i < start + len ==> #[trigger] s[i] == 0
}

/// Segments in hexadecimal.
pub open spec fn in_hex(s: Seq<u16>) -> Seq<Seq<char>> {
    s.map_values(|x: u16| number::digits_of(x as nat, 16))
}

/// An address of version 6 that stands for one of version 4 is shown with the octets of that.
pub proof fn law_v6_text_of_v4(a: u8, b: u8, c: u8, d: u8)
    ensures
        addr::v6_text(
            seq![
                0u16,
                0,
                0,
                0,
                0,
                0xffff,
                (a as int * 256 + b as int) as u16,
                (c as int * 256 + d as int) as u16,
            ],
        ) == "::ffff:"@ + addr::v4_text(seq![a, b, c, d]),
{
    let s = seq![
        0u16,
        0,
        0,
        0,
        0,
        0xffff,
        (a as int * 256 + b as int) as u16,
        (c as int * 256 + d as int) as u16,
    ];
    assert(addr::is_mapped(s));
    assert(addr::mapped_octets(s) =~= seq![a, b, c, d]);
}

/// Of any other address of version 6 the segments are shown in hexadecimal, with colons between; the
/// longest run of zeros, the first of those as long, is left out where it has two segments or more,
/// with two colons in its place.
pub proof fn law_v6_text(s: Seq<u16>, start: int, len: int)
    requires
        s.len() == 8,
        !(are_zero(s, 0, 5) && s[5] == 0xffff),
    ensures
        len >= 2 && are_zero(s, start, len) && (forall|a: int, n: int| #[trigger]
            are_zero(s, a, n) ==> n < len || n == len && a >= start) ==> addr::v6_text(s)
            == text::joined(in_hex(s.take(start)), seq![':']) + "::"@ + text::joined(
            in_hex(s.skip(start + len)),
            seq![':'],
        ),
        (forall|a: int| !#[trigger] are_zero(s, a, 2)) ==> addr::v6_text(s) == text::joined(
            in_hex(s),
            seq![':'],
        ),
{
    assert(!addr::is_mapped(s)) by {
        if addr::is_mapped(s) {
            assert(are_zero(s, 0, 5));
        }
    }
    let (a, n) = addr::longest_run(s, 8);
    addr::lemma_longest_run(s, 8);
    assert(are_zero(s, a, n)) by {
        assert(addr::is_run(s, a, n));
    }
    if len >= 2 && are_zero(s, start, len) && (forall|a: int, n: int| #[trigger]
        are_zero(s, a, n) ==> n < len || n == len && a >= start) {
        assert(addr::is_run(s, start, len));
        addr::law_longest_run_is_first(s, 8, start, len);
        assert(a == start && n == len);
        lemma_in_hex(s.take(start));
        lemma_in_hex(s.skip(start + len));
    }
    if forall|a: int| !#[trigger] are_zero(s, a, 2) {
        if n > 1 {
            assert(are_zero(s, a, 2));
        }
        lemma_in_hex(s);
    }
}

/// Segments are shown with colons between them.
proof fn lemma_in_hex(s: Seq<u16>)
    ensures
        addr::hex_text(s) == text::joined(in_hex(s), seq![':']),
{
    lemma_hex_pieces(s);
    assert(hex_pieces(s) =~= in_hex(s));
}

/// An address with a port is shown as the address, in brackets where it is of version 6, a colon and
/// the port in decimal, unless all its bits are zero.
pub proof fn law_endpoint_text(o: Seq<u8>, s: Seq<u16>, port: nat)
    requires
        o.len() == 4,
        s.len() == 8,
    ensures
        (exists|i: int| 0 <= i < 4 && #[trigger] o[i] != 0) ==> addr::endpoint_text(
            Address::V4(o),
            port,
        ) == addr::v4_text(o) + ":"@ + number::decimal(port),
        (exists|i: int| 0 <= i < 8 && #[trigger] s[i] != 0) ==> addr::endpoint_text(
            Address::V6(s),
            port,
        ) == "["@ + addr::v6_text(s) + "]"@ + ":"@ + number::decimal(port),
        (forall|i: int| 0 <= i < 4 ==> #[trigger] o[i] == 0) ==> addr::endpoint_text(
            Address::V4(o),
            port,
        ) == "*"@ + ":"@ + number::decimal(port),
        (forall|i: int| 0 <= i < 8 ==> #[trigger] s[i] == 0) ==> addr::endpoint_text(
            Address::V6(s),
            port,
        ) == "*"@ + ":"@ + number::decimal(port),
{
}

/// An address as it is shown before a port.
spec fn host_text(a: Address) -> Seq<char> {
    match a {
        Address::V4(o) => addr::v4_text(o),
        Address::V6(s) => "["@ + addr::v6_text(s) + "]"@,
    }
}

/// The text of an address starts with a digit or a bracket.
proof fn lemma_first_of_host(a: Address)
    ensures
        host_text(a).len() > 0,
        match a {
            Address::V4(_) => number::digit_value(host_text(a)[0]) < 10,
            Address::V6(_) => host_text(a)[0] == '[',
        },
{
    reveal_strlit("[");
    if let Address::V4(o) = a {
        let d = number::decimal(o[0] as nat);
        number::law_number_round_trip(o[0] as nat, 10, 255);
        assert(host_text(a)[0] == d[0]);
    }
}

/// What stands before and after the last separator is one and the same.
proof fn lemma_split_at_last(x: Seq<char>, p: Seq<char>, y: Seq<char>, q: Seq<char>, c: char)
    requires
        x + seq![c] + p == y + seq![c] + q,
        !p.contains(c),
        !q.contains(c),
    ensures
        x == y,
        p == q,
{
    let s = x + seq![c] + p;
    let t = y + seq![c] + q;
    assert(s.len() == x.len() + 1 + p.len());
    assert(t.len() == y.len() + 1 + q.len());
    if x.len() < y.len() {
        assert(t[y.len() as int] == c);
        assert(s[y.len() as int] == p[y.len() - x.len() - 1]);
    } else if y.len() < x.len() {
        assert(s[x.len() as int] == c);
        assert(t[x.len() as int] == q[x.len() - y.len() - 1]);
    }
    assert(x =~= s.take(x.len() as int));
    assert(y =~= t.take(y.len() as int));
    assert(p =~= s.skip(x.len() + 1int));
    assert(q =~= t.skip(y.len() + 1int));
}

/// Different numbers have different texts.
proof fn lemma_digits_tell_apart(a: nat, b: nat, radix: nat)
    requires
        2 <= radix <= 16,
        number::digits_of(a, radix) == number::digits_of(b, radix),
    ensures
        a == b,
{
    number::law_number_round_trip(a, radix, a);
    number::law_number_round_trip(b, radix, b);
}

/// The text of a number is not empty, and holds no colon and no point.
proof fn lemma_digits_lack(n: nat, radix: nat)
    requires
        2 <= radix <= 16,
    ensures
        number::digits_of(n, radix).len() > 0,
        !number::digits_of(n, radix).contains(':'),
        !number::digits_of(n, radix).contains('.'),
{
    let s = number::digits_of(n, radix);
    number::law_number_round_trip(n, radix, n);
    assert forall|i: int| 0 <= i < s.len() implies s[i] != ':' && s[i] != '.' by {
        assert(number::digit_value(s[i]) < radix);
    }
}

/// The parts of the text of an address of version 4.
spec fn v4_pieces(o: Seq<u8>) -> Seq<Seq<char>> {
    seq![
        number::decimal(o[0] as nat),
        number::decimal(o[1] as nat),
        number::decimal(o[2] as nat),
        number::decimal(o[3] as nat),
    ]
}

/// The text of an address of version 4 is its parts with points between them.
proof fn lemma_v4_pieces(o: Seq<u8>)
    ensures
        addr::v4_text(o) == text::joined(v4_pieces(o), seq!['.']),
        text::all_lack(v4_pieces(o), '.'),
        !addr::v4_text(o).contains(':'),
        addr::v4_text(o).contains('.'),
{
    reveal_strlit(".");
    let p = v4_pieces(o);
    let s = addr::v4_text(o);
    lemma_digits_lack(o[0] as nat, 10);
    lemma_digits_lack(o[1] as nat, 10);
    lemma_digits_lack(o[2] as nat, 10);
    lemma_digits_lack(o[3] as nat, 10);
    assert(p.drop_last().drop_last().drop_last() =~= seq![p[0]]);
    assert(text::joined(seq![p[0]], seq!['.']) == p[0]);
    assert(p.drop_last().drop_last().last() == p[1]);
    assert(p.drop_last().last() == p[2]);
    assert(text::joined(p.drop_last().drop_last(), seq!['.']) =~= p[0] + "."@ + p[1]);
    assert(text::joined(p.drop_last(), seq!['.']) =~= p[0] + "."@ + p[1] + "."@ + p[2]);
    assert(s =~= text::joined(p, seq!['.']));
    assert(s[p[0].len() as int] == '.');
    assert(!s.contains(':')) by {
        lemma_lacks(p[0], p[1], ':');
        lemma_lacks(p[0] + "."@ + p[1], p[2], ':');
        lemma_lacks(p[0] + "."@ + p[1] + "."@ + p[2], p[3], ':');
    }
}

/// Two texts with a point between them lack what both lack.
proof fn lemma_lacks(a: Seq<char>, b: Seq<char>, c: char)
    requires
        !a.contains(c),
        !b.contains(c),
        c != '.',
    ensures
        !(a + "."@ + b).contains(c),
{
    reveal_strlit(".");
    let s = a + "."@ + b;
    assert forall|i: int| 0 <= i < s.len() implies s[i] != c by {
        if i < a.len() {
            assert(s[i] == a[i]);
        } else if i > a.len() {
            assert(s[i] == b[i - a.len() - 1]);
        }
    }
}

/// The texts of segments.
spec fn hex_pieces(s: Seq<u16>) -> Seq<Seq<char>> {
    Seq::new(s.len(), |k: int| number::digits_of(s[k] as nat, 16))
}

/// The texts of segments; an empty one where there are none.
spec fn side(s: Seq<u16>) -> Seq<Seq<char>> {
    if s.len() == 0 {
        seq![Seq::empty()]
    } else {
        hex_pieces(s)
    }
}

/// The parts of the text of an address of version 6: where a run of zeros is left out, an empty one
/// stands for it.
spec fn v6_pieces(s: Seq<u16>) -> Seq<Seq<char>> {
    let (start, len) = addr::longest_run(s, 8);
    if addr::is_mapped(s) {
        seq![Seq::empty(), Seq::empty(), "ffff"@, addr::v4_text(addr::mapped_octets(s))]
    } else if len > 1 {
        side(s.take(start)) + seq![Seq::empty()] + side(s.skip(start + len))
    } else {
        hex_pieces(s)
    }
}

/// Segments are their texts with colons between them.
proof fn lemma_hex_pieces(s: Seq<u16>)
    ensures
        addr::hex_text(s) == text::joined(side(s), seq![':']),
        text::all_lack(side(s), ':'),
        text::all_lack(side(s), '.'),
        s.len() > 0 ==> forall|k: int|
            0 <= k < s.len() ==> (#[trigger] hex_pieces(s)[k]).len() > 0,
    decreases s.len(),
{
    reveal_strlit(":");
    let p = hex_pieces(s);
    assert forall|k: int| 0 <= k < p.len() implies (#[trigger] p[k]).len() > 0 && !p[k].contains(':')
        && !p[k].contains('.') by {
        lemma_digits_lack(s[k] as nat, 16);
    }
    if s.len() > 1 {
        lemma_hex_pieces(s.drop_last());
        assert(p.drop_last() =~= hex_pieces(s.drop_last()));
        assert(addr::hex_text(s) =~= text::joined(p, seq![':']));
    }
}

/// Joined texts are the joined first ones and the joined last ones.
proof fn lemma_joined_sides(a: Seq<Seq<char>>, b: Seq<Seq<char>>, sep: Seq<char>)
    requires
        a.len() > 0,
        b.len() > 0,
    ensures
        text::joined(a + b, sep) == text::joined(a, sep) + sep + text::joined(b, sep),
    decreases b.len(),
{
    assert((a + b).drop_last() =~= a + b.drop_last());
    if b.len() == 1 {
        assert((a + b).drop_last() =~= a);
    } else {
        lemma_joined_sides(a, b.drop_last(), sep);
        assert(text::joined(a + b, sep) =~= text::joined(a, sep) + sep + text::joined(b, sep));
    }
}

/// The text of an address of version 6 is its parts with colons between them.
proof fn lemma_v6_pieces(s: Seq<u16>)
    requires
        s.len() == 8,
    ensures
        addr::v6_text(s) == text::joined(v6_pieces(s), seq![':']),
        text::all_lack(v6_pieces(s), ':'),
        v6_pieces(s).len() > 0,
{
    let (start, len) = addr::longest_run(s, 8);
    let p = v6_pieces(s);
    let none = Seq::<char>::empty();
    addr::lemma_longest_run(s, 8);
    if addr::is_mapped(s) {
        reveal_strlit("::ffff:");
        reveal_strlit("ffff");
        let v4 = addr::v4_text(addr::mapped_octets(s));
        lemma_v4_pieces(addr::mapped_octets(s));
        assert(p.drop_last().drop_last().drop_last() =~= seq![none]);
        assert(text::joined(seq![none], seq![':']) == none);
        assert(text::joined(p.drop_last().drop_last(), seq![':']) =~= seq![':']);
        assert(text::joined(p.drop_last(), seq![':']) =~= seq![':', ':'] + "ffff"@);
        assert(addr::v6_text(s) =~= text::joined(p, seq![':']));
        assert forall|i: int| 0 <= i < p.len() implies !(#[trigger] p[i]).contains(':') by {
            assert(i == 0 || i == 1 || i == 2 || i == 3);
        }
    } else if len > 1 {
        reveal_strlit("::");
        let (a, b) = (s.take(start), s.skip(start + len));
        lemma_hex_pieces(a);
        lemma_hex_pieces(b);
        lemma_joined_sides(side(a), seq![none], seq![':']);
        lemma_joined_sides(side(a) + seq![none], side(b), seq![':']);
        assert(text::joined(seq![none], seq![':']) == none);
        assert(addr::v6_text(s) =~= text::joined(p, seq![':']));
        assert forall|i: int| 0 <= i < p.len() implies !(#[trigger] p[i]).contains(':') by {
            let n = side(a).len();
            if i < n {
                assert(p[i] == side(a)[i]);
            } else if i == n {
                assert(p[i] == none);
            } else {
                assert(p[i] == side(b)[i - n - 1]);
            }
        }
    } else {
        lemma_hex_pieces(s);
    }
}

/// The last part of the text of an address of version 6 holds a point just where it stands for an
/// address of version 4.
proof fn lemma_last_piece(s: Seq<u16>)
    requires
        s.len() == 8,
    ensures
        v6_pieces(s).last().contains('.') <==> addr::is_mapped(s),
        addr::is_mapped(s) ==> v6_pieces(s).last() == addr::v4_text(addr::mapped_octets(s)),
{
    let (start, len) = addr::longest_run(s, 8);
    let p = v6_pieces(s);
    addr::lemma_longest_run(s, 8);
    if addr::is_mapped(s) {
        lemma_v4_pieces(addr::mapped_octets(s));
    } else if len > 1 {
        let b = s.skip(start + len);
        lemma_hex_pieces(b);
        assert(p.last() == side(b).last());
        assert(!side(b)[side(b).len() - 1].contains('.'));
    } else {
        lemma_hex_pieces(s);
        assert(!hex_pieces(s)[7].contains('.')) by {
            assert(side(s)[7] == hex_pieces(s)[7]);
        }
    }
}

/// Which part stands for the run of zeros that is left out.
spec fn gap(start: int) -> int {
    if start == 0 {
        1
    } else {
        start
    }
}

/// Which part follows the run of zeros that is left out.
spec fn after_gap(start: int) -> int {
    gap(start) + 1
}

/// Which parts of the text of an address of version 6 are empty, and what the others are.
proof fn lemma_pieces_of_run(s: Seq<u16>)
    requires
        s.len() == 8,
        !addr::is_mapped(s),
    ensures
        ({
            let (start, len) = addr::longest_run(s, 8);
            let p = v6_pieces(s);
            if len > 1 {
                &&& addr::is_run(s, start, len)
                &&& 0 <= start <= start + len <= 8
                &&& p.len() == after_gap(start) + if start + len == 8 {
                    1
                } else {
                    8 - start - len
                }
                &&& start == 0 ==> p[0].len() == 0
                &&& p[gap(start)].len() == 0
                &&& start + len == 8 ==> p[after_gap(start)].len() == 0
                &&& forall|k: int|
                    0 <= k < start ==> #[trigger] p[k] == number::digits_of(s[k] as nat, 16)
                        && p[k].len() > 0
                &&& start + len < 8 ==> forall|j: int|
                    after_gap(start) <= j < p.len() ==> #[trigger] p[j] == number::digits_of(
                        s[j - after_gap(start) + start + len] as nat,
                        16,
                    ) && p[j].len() > 0
            } else {
                &&& p == hex_pieces(s)
                &&& forall|k: int| 0 <= k < 8 ==> (#[trigger] p[k]).len() > 0
            }
        }),
{
    let (start, len) = addr::longest_run(s, 8);
    let p = v6_pieces(s);
    addr::lemma_longest_run(s, 8);
    if len > 1 {
        let (a, b) = (s.take(start), s.skip(start + len));
        lemma_hex_pieces(a);
        lemma_hex_pieces(b);
        let n = side(a).len();
        assert(n == gap(start));
        assert(p[n as int] == Seq::<char>::empty());
        assert forall|k: int| 0 <= k < start implies #[trigger] p[k] == number::digits_of(
            s[k] as nat,
            16,
        ) && p[k].len() > 0 by {
            assert(p[k] == hex_pieces(a)[k]);
        }
        if start + len < 8 {
            assert forall|j: int| after_gap(start) <= j < p.len() implies #[trigger] p[j]
                == number::digits_of(s[j - after_gap(start) + start + len] as nat, 16)
                && p[j].len() > 0 by {
                assert(p[j] == hex_pieces(b)[j - n - 1]);
            }
        } else {
            assert(p[n + 1int] == side(b)[0]);
        }
        if start == 0 {
            assert(p[0] == side(a)[0]);
        }
    } else {
        lemma_hex_pieces(s);
    }
}

/// Where the parts of two texts are the same, so are the runs of zeros that are left out.
proof fn lemma_same_run(a: Seq<u16>, b: Seq<u16>)
    requires
        a.len() == 8,
        b.len() == 8,
        !addr::is_mapped(a),
        !addr::is_mapped(b),
        v6_pieces(a) == v6_pieces(b),
        addr::longest_run(a, 8).1 > 1,
        addr::longest_run(b, 8).1 > 1,
    ensures
        addr::longest_run(a, 8) == addr::longest_run(b, 8),
{
    let (start, len) = addr::longest_run(a, 8);
    let (other, more) = addr::longest_run(b, 8);
    let p = v6_pieces(a);
    lemma_pieces_of_run(a);
    lemma_pieces_of_run(b);
    if start < other {
        if start == 0 {
            assert(p[0].len() == 0);
        } else {
            assert(p[gap(start)].len() == 0);
        }
        assert(p[start].len() > 0);
    } else if other < start {
        if other == 0 {
            assert(p[0].len() == 0);
        } else {
            assert(p[gap(other)].len() == 0);
        }
        assert(p[other].len() > 0);
    }
    assert(p[after_gap(start)].len() == 0 <==> start + len == 8);
    assert(p[after_gap(start)].len() == 0 <==> start + more == 8);
}

} // verus!
