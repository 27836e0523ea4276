//! Hardware (MAC) addresses and their textual form.

use crate::text::{chars_of, free_of, join, lemma_split_join, split, split_ranges};
use vstd::prelude::*;

verus! {

/// A MAC address: six bytes, in the order in which they are written.
#[derive(PartialEq, Eq, Clone, Copy, Debug, Structural)]
pub struct MacAddr(pub u8, pub u8, pub u8, pub u8, pub u8, pub u8);

/// The value of one hexadecimal digit, in either case; `None` for any other character.
pub open spec fn hex_digit_value(c: char) -> Option<int> {
    let n = c as int;
    if '0' as int <= n <= '9' as int {
        Some(n - '0' as int)
    } else if 'a' as int <= n <= 'f' as int {
        Some(n - 'a' as int + 10)
    } else if 'A' as int <= n <= 'F' as int {
        Some(n - 'A' as int + 10)
    } else {
        None
    }
}

/// Every character of `g` is a hexadecimal digit.
pub open spec fn is_hex(g: Seq<char>) -> bool {
    forall|i: int| 0 <= i < g.len() ==> hex_digit_value(#[trigger] g[i]) is Some
}

/// The number that the digits of `g` write in base 16, most significant digit first.
pub open spec fn hex_number(g: Seq<char>) -> int
    decreases g.len(),
{
    if g.len() == 0 {
        0
    } else {
        16 * hex_number(g.drop_last()) + match hex_digit_value(g.last()) {
            Some(d) => d,
            None => 0,
        }
    }
}

/// The byte that one group of an address writes: the group is not empty, holds
/// hexadecimal digits only, without a sign, and writes a number of at most
/// 255. Zeros in front are allowed.
pub open spec fn parse_byte(g: Seq<char>) -> Option<u8> {
    if g.len() > 0 && is_hex(g) && hex_number(g) <= 255 {
        Some(hex_number(g) as u8)
    } else {
        None
    }
}

/// The address that a text writes: exactly six groups separated by `:`, each of
/// them a byte. Any other text writes no address.
pub open spec fn parse_mac(s: Seq<char>) -> Option<MacAddr> {
    let g = split(s, ':');
    if g.len() == 6 {
        match (
            parse_byte(g[0]),
            parse_byte(g[1]),
            parse_byte(g[2]),
            parse_byte(g[3]),
            parse_byte(g[4]),
            parse_byte(g[5]),
        ) {
            (Some(a), Some(b), Some(c), Some(d), Some(e), Some(f)) => Some(MacAddr(a, b, c, d, e, f)),
            _ => None,
        }
    } else {
        None
    }
}

/// The lowercase hexadecimal digit of the value `d`, for `d` below 16.
pub open spec fn hex_digit(d: int) -> char {
    if d < 10 {
        ('0' as int + d) as char
    } else {
        ('a' as int + d - 10) as char
    }
}

/// A byte in lowercase hexadecimal without padding: one digit below 16, else two.
pub open spec fn hex_text(b: u8) -> Seq<char> {
    if b < 16 {
        seq![hex_digit(b as int)]
    } else {
        seq![hex_digit(b as int / 16), hex_digit(b as int % 16)]
    }
}

/// The six groups of the canonical text of an address, one for each byte.
pub open spec fn mac_groups(m: MacAddr) -> Seq<Seq<char>> {
    seq![
        hex_text(m.0),
        hex_text(m.1),
        hex_text(m.2),
        hex_text(m.3),
        hex_text(m.4),
        hex_text(m.5),
    ]
}

/// The canonical text of an address: its six bytes as `hex_text`, joined by `:`.
pub open spec fn mac_text(m: MacAddr) -> Seq<char> {
    join(mac_groups(m), ':')
}

/// The digits of a prefix write a number no larger than the digits of the whole.
proof fn lemma_hex_number_prefix(g: Seq<char>, k: int)
    requires
        0 <= k <= g.len(),
    ensures
        0 <= hex_number(g.take(k)) <= hex_number(g),
    decreases g.len(),
{
    if k == g.len() {
        assert(g.take(k) == g);
        if g.len() > 0 {
            lemma_hex_number_prefix(g.drop_last(), k - 1);
        }
    } else {
        lemma_hex_number_prefix(g.drop_last(), k);
        assert(g.drop_last().take(k) == g.take(k));
    }
}

/// The text of a byte holds no `:` and writes that byte back.
pub proof fn lemma_hex_text_parses(b: u8)
    ensures
        free_of(hex_text(b), ':'),
        parse_byte(hex_text(b)) == Some(b),
{
    let t = hex_text(b);
    if b < 16 {
        assert(t.drop_last() == Seq::<char>::empty());
        assert(hex_number(t.drop_last()) == 0);
    } else {
        let hi = seq![hex_digit(b as int / 16)];
        assert(t.drop_last() == hi);
        assert(hi.drop_last() == Seq::<char>::empty());
        assert(hex_number(hi.drop_last()) == 0);
        assert(hex_number(hi) == b as int / 16);
    }
}

/// Reading the canonical text of an address gives the address back.
pub proof fn lemma_parse_format_round_trip(m: MacAddr)
    ensures
        parse_mac(mac_text(m)) == Some(m),
{
    lemma_hex_text_parses(m.0);
    lemma_hex_text_parses(m.1);
    lemma_hex_text_parses(m.2);
    lemma_hex_text_parses(m.3);
    lemma_hex_text_parses(m.4);
    lemma_hex_text_parses(m.5);
    lemma_split_join(mac_groups(m), ':');
}

/// The canonical text, written out group by group.
proof fn lemma_mac_text_written_out(m: MacAddr)
    ensures
        mac_text(m) == hex_text(m.0) + seq![':'] + hex_text(m.1) + seq![':'] + hex_text(m.2)
            + seq![':'] + hex_text(m.3) + seq![':'] + hex_text(m.4) + seq![':'] + hex_text(m.5),
{
    let g = mac_groups(m);
    let g5 = g.drop_last();
    let g4 = g5.drop_last();
    let g3 = g4.drop_last();
    let g2 = g3.drop_last();
    let g1 = g2.drop_last();
    assert(join(g1, ':') == hex_text(m.0));
    assert(join(g2, ':') == join(g1, ':') + seq![':'] + hex_text(m.1));
    assert(join(g3, ':') == join(g2, ':') + seq![':'] + hex_text(m.2));
    assert(join(g4, ':') == join(g3, ':') + seq![':'] + hex_text(m.3));
    assert(join(g5, ':') == join(g4, ':') + seq![':'] + hex_text(m.4));
    assert(join(g, ':') == join(g5, ':') + seq![':'] + hex_text(m.5));
}

/// The value of the hexadecimal digit `c`, if it is one.
fn hex_value(c: char) -> (r: Option<u8>)
    ensures
        r is Some == hex_digit_value(c) is Some,
        r is Some ==> r.unwrap() as int == hex_digit_value(c).unwrap(),
{
    let n: u32 = c as u32;
    if 0x30 <= n && n <= 0x39 {
        Some((n - 0x30) as u8)
    } else if 0x61 <= n && n <= 0x66 {
        Some((n - 0x61 + 10) as u8)
    } else if 0x41 <= n && n <= 0x46 {
        Some((n - 0x41 + 10) as u8)
    } else {
        None
    }
}

/// Reads the group of `v` from position `from` up to `to` as a byte.
fn parse_group(v: &Vec<char>, from: usize, to: usize) -> (r: Option<u8>)
    requires
        from <= to <= v@.len(),
    ensures
        r == parse_byte(v@.subrange(from as int, to as int)),
{
    let ghost g = v@.subrange(from as int, to as int);
    if from == to {
        return None;
    }
    let mut acc: u16 = 0;
    let mut i: usize = from;
    while i < to
        invariant
            from <= i <= to <= v@.len(),
            g == v@.subrange(from as int, to as int),
            is_hex(g.take(i - from)),
            acc as int == hex_number(g.take(i - from)),
            acc <= 255,
        decreases to - i,
    {
        proof {
            assert(g.take(i - from + 1).drop_last() == g.take(i - from));
            assert(g.take(i - from + 1).last() == v@[i as int]);
            lemma_hex_number_prefix(g, i - from + 1);
        }
        match hex_value(v[i]) {
            None => {
                assert(hex_digit_value(g[i - from]) is None);
                return None;
            },
            Some(d) => {
                let next: u16 = acc * 16 + d as u16;
                if next > 255 {
                    return None;
                }
                acc = next;
            },
        }
        i += 1;
    }
    proof {
        assert(g.take(to - from) == g);
    }
    Some(acc as u8)
}

/// The hexadecimal digit of a value below 16, as text.
fn hex_digit_str(d: u8) -> (t: &'static str)
    requires
        d < 16,
    ensures
        t@ == seq![hex_digit(d as int)],
{
    proof {
        reveal_strlit("0");
        reveal_strlit("1");
        reveal_strlit("2");
        reveal_strlit("3");
        reveal_strlit("4");
        reveal_strlit("5");
        reveal_strlit("6");
        reveal_strlit("7");
        reveal_strlit("8");
        reveal_strlit("9");
        reveal_strlit("a");
        reveal_strlit("b");
        reveal_strlit("c");
        reveal_strlit("d");
        reveal_strlit("e");
        reveal_strlit("f");
    }
    let t = match d {
        0 => "0",
        1 => "1",
        2 => "2",
        3 => "3",
        4 => "4",
        5 => "5",
        6 => "6",
        7 => "7",
        8 => "8",
        9 => "9",
        10 => "a",
        11 => "b",
        12 => "c",
        13 => "d",
        14 => "e",
        _ => "f",
    };
    assert(t@ =~= seq![hex_digit(d as int)]);
    t
}

/// Appends the text of `b` to `s`.
fn push_hex(s: &mut String, b: u8)
    ensures
        final(s)@ == old(s)@ + hex_text(b),
{
    if b >= 16 {
        s.append(hex_digit_str(b / 16));
    }
    s.append(hex_digit_str(b % 16));
    assert(s@ =~= old(s)@ + hex_text(b));
}

/// Appends a `:` to `s`.
fn push_colon(s: &mut String)
    ensures
        final(s)@ == old(s)@ + seq![':'],
{
    proof {
        reveal_strlit(":");
    }
    s.append(":");
    assert(s@ =~= old(s)@ + seq![':']);
}

impl MacAddr {
    /// Reads an address from its text: six groups of hexadecimal digits
    /// separated by `:`, each group a byte. Returns `None` for any other text:
    /// one with fewer or more groups, with an empty group, or with a group
    /// that is no byte.
    pub fn from_str(s: &str) -> (r: Option<MacAddr>)
        ensures
            r == parse_mac(s@),
    {
        let v = chars_of(s);
        let ranges = split_ranges(&v, ':');
        if ranges.len() != 6 {
            return None;
        }
        let ghost g = split(s@, ':');
        let mut parts: Vec<u8> = Vec::new();
        let mut i: usize = 0;
        while i < 6
            invariant
                i <= 6,
                v@ == s@,
                g == split(s@, ':'),
                g.len() == 6,
                ranges@.len() == 6,
                forall|k: int|
                    0 <= k < 6 ==> {
                        &&& (#[trigger] ranges@[k]).0 <= ranges@[k].1 <= v@.len()
                        &&& v@.subrange(ranges@[k].0 as int, ranges@[k].1 as int) == g[k]
                    },
                parts@.len() == i,
                forall|k: int| 0 <= k < i ==> parse_byte(g[k]) == Some(#[trigger] parts@[k]),
            decreases 6 - i,
        {
            let range = ranges[i];
            match parse_group(&v, range.0, range.1) {
                None => {
                    return None;
                },
                Some(b) => {
                    parts.push(b);
                },
            }
            i += 1;
        }
        Some(MacAddr(parts[0], parts[1], parts[2], parts[3], parts[4], parts[5]))
    }

    /// The canonical text of the address: six lowercase hexadecimal groups
    /// without padding, joined by `:`.
    pub fn to_string(&self) -> (s: String)
        ensures
            s@ == mac_text(*self),
            parse_mac(s@) == Some(*self),
    {
        let mut s = String::new();
        push_hex(&mut s, self.0);
        push_colon(&mut s);
        push_hex(&mut s, self.1);
        push_colon(&mut s);
        push_hex(&mut s, self.2);
        push_colon(&mut s);
        push_hex(&mut s, self.3);
        push_colon(&mut s);
        push_hex(&mut s, self.4);
        push_colon(&mut s);
        push_hex(&mut s, self.5);
        proof {
            lemma_mac_text_written_out(*self);
            lemma_parse_format_round_trip(*self);
        }
        s
    }
}

} // verus!
