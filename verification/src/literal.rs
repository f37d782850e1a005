//! Address literals as the OS resolution table prints them: dotted-decimal
//! IPv4 (four canonical octets) and colon-hex link addresses (six two-digit
//! groups, either case). Each parser's contract pins exactly which strings
//! parse and to what value.

use vstd::prelude::*;

use crate::addr::Ipv4Address;
use crate::addr::MacAddress;
use crate::cache::ArpEntry;
use crate::text::dec_value;
use crate::text::hex_digit_value;
use crate::text::is_dec_digit;
use crate::text::is_dec_digit_char;
use crate::text::is_hex_digit;
use crate::text::ranges_to_pieces;
use crate::text::split_on;
use crate::text::split_ranges;

verus! {

/// Every character is a decimal digit.
pub open spec fn all_dec_digits(s: Seq<char>) -> bool {
    forall|j: int| 0 <= j < s.len() ==> is_dec_digit(s[j])
}

/// A canonical decimal octet: one to three digits, no leading zero except in
/// "0" itself, value at most 255.
pub open spec fn spec_parse_octet(s: Seq<char>) -> Option<u8> {
    if 1 <= s.len() <= 3 && all_dec_digits(s) && (s.len() > 1 ==> s[0] != '0') && dec_value(s)
        <= 255 {
        Some(dec_value(s) as u8)
    } else {
        None
    }
}

/// What a dotted-decimal IPv4 literal denotes: exactly four canonical
/// octets separated by dots, nothing else.
pub open spec fn spec_parse_ipv4(s: Seq<char>) -> Option<Ipv4Address> {
    let parts = split_on(s, '.');
    if parts.len() != 4 {
        None
    } else {
        let a = spec_parse_octet(parts[0]);
        let b = spec_parse_octet(parts[1]);
        let c = spec_parse_octet(parts[2]);
        let d = spec_parse_octet(parts[3]);
        if a is Some && b is Some && c is Some && d is Some {
            Some(Ipv4Address { o0: a->0, o1: b->0, o2: c->0, o3: d->0 })
        } else {
            None
        }
    }
}

/// One link-address group: exactly two hexadecimal digits, either case.
pub open spec fn spec_parse_mac_group(s: Seq<char>) -> Option<u8> {
    if s.len() == 2 && is_hex_digit(s[0]) && is_hex_digit(s[1]) {
        Some((hex_digit_value(s[0]) * 16 + hex_digit_value(s[1])) as u8)
    } else {
        None
    }
}

/// What a colon-hex link-address literal denotes: exactly six two-digit
/// groups separated by colons.
pub open spec fn spec_parse_mac(s: Seq<char>) -> Option<MacAddress> {
    let parts = split_on(s, ':');
    if parts.len() != 6 {
        None
    } else {
        let g0 = spec_parse_mac_group(parts[0]);
        let g1 = spec_parse_mac_group(parts[1]);
        let g2 = spec_parse_mac_group(parts[2]);
        let g3 = spec_parse_mac_group(parts[3]);
        let g4 = spec_parse_mac_group(parts[4]);
        let g5 = spec_parse_mac_group(parts[5]);
        if g0 is Some && g1 is Some && g2 is Some && g3 is Some && g4 is Some && g5 is Some {
            Some(
                MacAddress {
                    b0: g0->0,
                    b1: g1->0,
                    b2: g2->0,
                    b3: g3->0,
                    b4: g4->0,
                    b5: g5->0,
                },
            )
        } else {
            None
        }
    }
}

/// Parses the characters `[start, end)` of `s` as a canonical decimal octet.
fn parse_octet_range(s: &str, start: usize, end: usize) -> (r: Option<u8>)
    requires
        start <= end <= s@.len(),
    ensures
        r == spec_parse_octet(s@.subrange(start as int, end as int)),
{
    let ghost g = s@.subrange(start as int, end as int);
    let len = end - start;
    if len == 0 || len > 3 {
        return None;
    }
    let first = s.get_char(start);
    if len > 1 && first == '0' {
        return None;
    }
    let mut acc: u32 = 0;
    let mut j = start;
    while j < end
        invariant
            start <= j <= end <= s@.len(),
            end - start <= 3,
            g == s@.subrange(start as int, end as int),
            forall|k: int| 0 <= k < j - start ==> is_dec_digit(g[k]),
            acc == dec_value(g.take(j - start)),
            0 <= acc <= 999,
        decreases end - j,
    {
        let c = s.get_char(j);
        if !is_dec_digit_char(c) {
            proof {
                assert(!is_dec_digit(g[j - start]));
            }
            return None;
        }
        proof {
            crate::text::lemma_dec_value_bound(g.take(j - start));
            assert(g.take(j - start + 1).drop_last() =~= g.take(j - start));
            assert(g.take(j - start + 1).last() == g[j - start]);
        }
        acc = acc * 10 + (c as u32 - 48);
        j = j + 1;
    }
    proof {
        assert(g.take(end - start) =~= g);
    }
    if acc > 255 {
        return None;
    }
    Some(acc as u8)
}

/// The value of one hexadecimal digit, or nothing for any other character.
fn hex_value_of_char(c: char) -> (r: Option<u8>)
    ensures
        r is Some <==> is_hex_digit(c),
        r is Some ==> r->0 == hex_digit_value(c),
{
    if '0' <= c && c <= '9' {
        Some((c as u32 - 48) as u8)
    } else if 'a' <= c && c <= 'f' {
        Some((c as u32 - 87) as u8)
    } else if 'A' <= c && c <= 'F' {
        Some((c as u32 - 55) as u8)
    } else {
        None
    }
}

/// Parses the characters `[start, end)` of `s` as one two-digit hex group.
fn parse_mac_group_range(s: &str, start: usize, end: usize) -> (r: Option<u8>)
    requires
        start <= end <= s@.len(),
    ensures
        r == spec_parse_mac_group(s@.subrange(start as int, end as int)),
{
    let ghost g = s@.subrange(start as int, end as int);
    if end - start != 2 {
        return None;
    }
    let h = hex_value_of_char(s.get_char(start));
    let l = hex_value_of_char(s.get_char(start + 1));
    match (h, l) {
        (Some(hv), Some(lv)) => Some(hv * 16 + lv),
        _ => None,
    }
}

/// Parses a dotted-decimal IPv4 literal. Exactly the strings that
/// [`spec_parse_ipv4`] accepts parse, to that value.
pub fn parse_ipv4(s: &str) -> (r: Option<Ipv4Address>)
    ensures
        r == spec_parse_ipv4(s@),
{
    let parts = split_ranges(s, '.');
    if parts.len() != 4 {
        return None;
    }
    proof {
        assert forall|k: int| 0 <= k < 4 implies split_on(s@, '.')[k] == s@.subrange(
            parts@[k].0 as int,
            parts@[k].1 as int,
        ) by {
            assert(ranges_to_pieces(s@, parts@)[k] == s@.subrange(
                parts@[k].0 as int,
                parts@[k].1 as int,
            ));
        }
    }
    let a = parse_octet_range(s, parts[0].0, parts[0].1);
    let b = parse_octet_range(s, parts[1].0, parts[1].1);
    let c = parse_octet_range(s, parts[2].0, parts[2].1);
    let d = parse_octet_range(s, parts[3].0, parts[3].1);
    match (a, b, c, d) {
        (Some(o0), Some(o1), Some(o2), Some(o3)) => Some(
            Ipv4Address::new(o0, o1, o2, o3),
        ),
        _ => None,
    }
}

/// Parses a colon-hex link-address literal. Exactly the strings that
/// [`spec_parse_mac`] accepts parse, to that value.
pub fn parse_mac(s: &str) -> (r: Option<MacAddress>)
    ensures
        r == spec_parse_mac(s@),
{
    let parts = split_ranges(s, ':');
    if parts.len() != 6 {
        return None;
    }
    proof {
        assert forall|k: int| 0 <= k < 6 implies split_on(s@, ':')[k] == s@.subrange(
            parts@[k].0 as int,
            parts@[k].1 as int,
        ) by {
            assert(ranges_to_pieces(s@, parts@)[k] == s@.subrange(
                parts@[k].0 as int,
                parts@[k].1 as int,
            ));
        }
    }
    let g0 = parse_mac_group_range(s, parts[0].0, parts[0].1);
    let g1 = parse_mac_group_range(s, parts[1].0, parts[1].1);
    let g2 = parse_mac_group_range(s, parts[2].0, parts[2].1);
    let g3 = parse_mac_group_range(s, parts[3].0, parts[3].1);
    let g4 = parse_mac_group_range(s, parts[4].0, parts[4].1);
    let g5 = parse_mac_group_range(s, parts[5].0, parts[5].1);
    match (g0, g1, g2, g3, g4, g5) {
        (Some(b0), Some(b1), Some(b2), Some(b3), Some(b4), Some(b5)) => Some(
            MacAddress::new(b0, b1, b2, b3, b4, b5),
        ),
        _ => None,
    }
}

/// The decimal digit character of a value below ten.
pub open spec fn dec_digit_char(n: int) -> char {
    if n == 0 {
        '0'
    } else if n == 1 {
        '1'
    } else if n == 2 {
        '2'
    } else if n == 3 {
        '3'
    } else if n == 4 {
        '4'
    } else if n == 5 {
        '5'
    } else if n == 6 {
        '6'
    } else if n == 7 {
        '7'
    } else if n == 8 {
        '8'
    } else {
        '9'
    }
}

/// The canonical decimal of an octet: one to three digits, no leading zero.
pub open spec fn dec_octet_chars(n: int) -> Seq<char> {
    if n < 10 {
        seq![dec_digit_char(n)]
    } else if n < 100 {
        seq![dec_digit_char(n / 10), dec_digit_char(n % 10)]
    } else {
        seq![dec_digit_char(n / 100), dec_digit_char((n / 10) % 10), dec_digit_char(n % 10)]
    }
}

/// The canonical dotted-decimal literal of an address.
pub open spec fn ipv4_chars(a: Ipv4Address) -> Seq<char> {
    dec_octet_chars(a.o0 as int) + seq!['.'] + dec_octet_chars(a.o1 as int) + seq!['.']
        + dec_octet_chars(a.o2 as int) + seq!['.'] + dec_octet_chars(a.o3 as int)
}

/// The lowercase hexadecimal digit character of a value below sixteen.
pub open spec fn hex_digit_char(n: int) -> char {
    if n < 10 {
        dec_digit_char(n)
    } else if n == 10 {
        'a'
    } else if n == 11 {
        'b'
    } else if n == 12 {
        'c'
    } else if n == 13 {
        'd'
    } else if n == 14 {
        'e'
    } else {
        'f'
    }
}

/// The canonical two-digit lowercase hexadecimal of a byte.
pub open spec fn hex_byte_chars(n: int) -> Seq<char> {
    seq![hex_digit_char(n / 16), hex_digit_char(n % 16)]
}

/// The canonical lowercase colon-hex literal of a link address.
pub open spec fn mac_chars(m: MacAddress) -> Seq<char> {
    hex_byte_chars(m.b0 as int) + seq![':'] + hex_byte_chars(m.b1 as int) + seq![':']
        + hex_byte_chars(m.b2 as int) + seq![':'] + hex_byte_chars(m.b3 as int) + seq![':']
        + hex_byte_chars(m.b4 as int) + seq![':'] + hex_byte_chars(m.b5 as int)
}

/// A digit character denotes its value.
proof fn lemma_dec_digit_char(n: int)
    requires
        0 <= n <= 9,
    ensures
        is_dec_digit(dec_digit_char(n)),
        crate::text::dec_digit_value(dec_digit_char(n)) == n,
        dec_digit_char(n) != '.',
        n != 0 ==> dec_digit_char(n) != '0',
{
}

/// A hexadecimal digit character denotes its value and is no separator.
proof fn lemma_hex_digit_char(n: int)
    requires
        0 <= n <= 15,
    ensures
        is_hex_digit(hex_digit_char(n)),
        hex_digit_value(hex_digit_char(n)) == n,
        hex_digit_char(n) != ':',
{
}

/// The canonical decimal of an octet parses back to the octet.
proof fn lemma_octet_chars_parse(n: int)
    requires
        0 <= n <= 255,
    ensures
        spec_parse_octet(dec_octet_chars(n)) == Some(n as u8),
        forall|j: int| 0 <= j < dec_octet_chars(n).len() ==> dec_octet_chars(n)[j] != '.',
{
    let s = dec_octet_chars(n);
    if n < 10 {
        lemma_dec_digit_char(n);
        assert(s.len() == 1 && s.last() == dec_digit_char(n));
        assert(s.drop_last() =~= Seq::<char>::empty());
        assert(dec_value(s.drop_last()) == 0);
        assert(dec_value(s) == n);
    } else if n < 100 {
        lemma_dec_digit_char(n / 10);
        lemma_dec_digit_char(n % 10);
        assert(s.len() == 2 && s.last() == dec_digit_char(n % 10));
        let s1 = s.drop_last();
        assert(s1 =~= seq![dec_digit_char(n / 10)]);
        assert(s1.len() == 1 && s1.last() == dec_digit_char(n / 10));
        assert(s1.drop_last() =~= Seq::<char>::empty());
        assert(dec_value(s1.drop_last()) == 0);
        assert(dec_value(s1) == n / 10);
        assert(dec_value(s) == (n / 10) * 10 + n % 10);
        assert(dec_value(s) == n);
    } else {
        lemma_dec_digit_char(n / 100);
        lemma_dec_digit_char((n / 10) % 10);
        lemma_dec_digit_char(n % 10);
        assert(s.len() == 3 && s.last() == dec_digit_char(n % 10));
        let s1 = s.drop_last();
        assert(s1 =~= seq![dec_digit_char(n / 100), dec_digit_char((n / 10) % 10)]);
        assert(s1.len() == 2 && s1.last() == dec_digit_char((n / 10) % 10));
        let s2 = s1.drop_last();
        assert(s2 =~= seq![dec_digit_char(n / 100)]);
        assert(s2.len() == 1 && s2.last() == dec_digit_char(n / 100));
        assert(s2.drop_last() =~= Seq::<char>::empty());
        assert(dec_value(s2.drop_last()) == 0);
        assert(n / 100 == (n / 10) / 10) by (nonlinear_arith)
            requires
                100 <= n <= 255,
        ;
        assert(dec_value(s2) == n / 100);
        assert(dec_value(s1) == (n / 10) / 10 * 10 + (n / 10) % 10);
        assert(dec_value(s1) == n / 10);
        assert(dec_value(s) == (n / 10) * 10 + n % 10);
        assert(dec_value(s) == n);
    }
}

/// The canonical two hexadecimal digits of a byte parse back to the byte.
proof fn lemma_hex_byte_chars_parse(n: int)
    requires
        0 <= n <= 255,
    ensures
        spec_parse_mac_group(hex_byte_chars(n)) == Some(n as u8),
        forall|j: int| 0 <= j < hex_byte_chars(n).len() ==> hex_byte_chars(n)[j] != ':',
{
    lemma_hex_digit_char(n / 16);
    lemma_hex_digit_char(n % 16);
}

/// The canonical dotted-decimal literal of every address parses back to that
/// address: the parser accepts the whole rendering's image.
/// Splitting a separator-free group, the separator, and a remainder yields
/// the group and then the remainder's pieces.
proof fn lemma_split_off_group(g: Seq<char>, rest: Seq<char>, sep: char)
    requires
        forall|j: int| 0 <= j < g.len() ==> g[j] != sep,
    ensures
        split_on(g + seq![sep] + rest, sep) == seq![g] + split_on(rest, sep),
{
    let s = g + seq![sep] + rest;
    assert forall|j: int| 0 <= j < g.len() implies s[j] != sep by {
        assert(s[j] == g[j]);
    }
    assert(s[g.len() as int] == sep);
    crate::text::lemma_split_on_chunk(s, sep, g.len() as int);
    assert(s.take(g.len() as int) =~= g);
    assert(s.skip(g.len() as int + 1) =~= rest);
}

/// A separator-free sequence is one piece.
proof fn lemma_split_single(g: Seq<char>, sep: char)
    requires
        forall|j: int| 0 <= j < g.len() ==> g[j] != sep,
    ensures
        split_on(g, sep) == seq![g],
{
    crate::text::lemma_split_on_chunk(g, sep, g.len() as int);
}

/// The canonical dotted-decimal literal of every address parses back to that
/// address: the parser accepts the whole rendering's image.
pub proof fn lemma_ipv4_canonical_round_trip(a: Ipv4Address)
    ensures
        spec_parse_ipv4(ipv4_chars(a)) == Some(a),
{
    let g0 = dec_octet_chars(a.o0 as int);
    let g1 = dec_octet_chars(a.o1 as int);
    let g2 = dec_octet_chars(a.o2 as int);
    let g3 = dec_octet_chars(a.o3 as int);
    lemma_octet_chars_parse(a.o0 as int);
    lemma_octet_chars_parse(a.o1 as int);
    lemma_octet_chars_parse(a.o2 as int);
    lemma_octet_chars_parse(a.o3 as int);
    let s = ipv4_chars(a);
    let s1 = g1 + seq!['.'] + (g2 + seq!['.'] + g3);
    let s2 = g2 + seq!['.'] + g3;

    assert(s =~= g0 + seq!['.'] + s1);
    lemma_split_off_group(g0, s1, '.');
    lemma_split_off_group(g1, s2, '.');
    lemma_split_off_group(g2, g3, '.');
    lemma_split_single(g3, '.');
    assert(split_on(s, '.') =~~= seq![g0, g1, g2, g3]);

    let parts = split_on(s, '.');
    assert(parts[0] == g0 && parts[1] == g1 && parts[2] == g2 && parts[3] == g3);
    assert(spec_parse_ipv4(s) == Some(Ipv4Address { o0: a.o0, o1: a.o1, o2: a.o2, o3: a.o3 }));
    assert(Ipv4Address { o0: a.o0, o1: a.o1, o2: a.o2, o3: a.o3 } == a);
}

/// The canonical colon-hex literal of every link address parses back to that
/// address.
pub proof fn lemma_mac_canonical_round_trip(m: MacAddress)
    ensures
        spec_parse_mac(mac_chars(m)) == Some(m),
{
    let g0 = hex_byte_chars(m.b0 as int);
    let g1 = hex_byte_chars(m.b1 as int);
    let g2 = hex_byte_chars(m.b2 as int);
    let g3 = hex_byte_chars(m.b3 as int);
    let g4 = hex_byte_chars(m.b4 as int);
    let g5 = hex_byte_chars(m.b5 as int);
    lemma_hex_byte_chars_parse(m.b0 as int);
    lemma_hex_byte_chars_parse(m.b1 as int);
    lemma_hex_byte_chars_parse(m.b2 as int);
    lemma_hex_byte_chars_parse(m.b3 as int);
    lemma_hex_byte_chars_parse(m.b4 as int);
    lemma_hex_byte_chars_parse(m.b5 as int);
    let s = mac_chars(m);
    let s4 = g4 + seq![':'] + g5;
    let s3 = g3 + seq![':'] + s4;
    let s2 = g2 + seq![':'] + s3;
    let s1 = g1 + seq![':'] + s2;

    assert(s =~= g0 + seq![':'] + s1);
    lemma_split_off_group(g0, s1, ':');
    lemma_split_off_group(g1, s2, ':');
    lemma_split_off_group(g2, s3, ':');
    lemma_split_off_group(g3, s4, ':');
    lemma_split_off_group(g4, g5, ':');
    lemma_split_single(g5, ':');
    assert(split_on(s, ':') =~~= seq![g0, g1, g2, g3, g4, g5]);

    let parts = split_on(s, ':');
    assert(parts[0] == g0 && parts[1] == g1 && parts[2] == g2 && parts[3] == g3 && parts[4] == g4
        && parts[5] == g5);
    assert(spec_parse_mac(s) == Some(
        MacAddress { b0: m.b0, b1: m.b1, b2: m.b2, b3: m.b3, b4: m.b4, b5: m.b5 },
    ));
    assert(MacAddress { b0: m.b0, b1: m.b1, b2: m.b2, b3: m.b3, b4: m.b4, b5: m.b5 } == m);
}

impl ArpEntry {
    /// An entry from its two literals, as one row of the OS resolution table
    /// gives them. Nothing for a malformed literal.
    pub fn from(ip_str: &str, mac_str: &str) -> (r: Option<ArpEntry>)
        ensures
            r is Some <==> (spec_parse_ipv4(ip_str@) is Some && spec_parse_mac(
                mac_str@,
            ) is Some),
            r is Some ==> r->0 == (ArpEntry {
                ip: spec_parse_ipv4(ip_str@)->0,
                mac: spec_parse_mac(mac_str@)->0,
            }),
    {
        match (parse_ipv4(ip_str), parse_mac(mac_str)) {
            (Some(ip), Some(mac)) => Some(ArpEntry::new(ip, mac)),
            _ => None,
        }
    }
}

} // verus!
