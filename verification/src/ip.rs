//! The address value that the reconciliation loop tracks, with its textual
//! grammar: parsing of dotted-decimal IPv4 and colon-grouped IPv6 text, and
//! formatting back to text.

use vstd::prelude::*;
use vstd::slice::slice_subrange;
use vstd::slice::slice_to_vec;

verus! {

/// An IPv4 or IPv6 address, held as plain integer components so that
/// equality is plain structural equality.
#[derive(Clone, Copy, Debug, PartialEq, Eq, Structural)]
pub enum IpAddress {
    /// An IPv4 address as its four dotted-decimal octets.
    V4 { a: u8, b: u8, c: u8, d: u8 },
    /// An IPv6 address as its eight 16-bit groups.
    V6 { s0: u16, s1: u16, s2: u16, s3: u16, s4: u16, s5: u16, s6: u16, s7: u16 },
}

impl IpAddress {
    /// The eight 16-bit groups of an IPv6 address, in order.
    pub open spec fn v6_groups(self) -> Seq<u16>
        recommends
            self is V6,
    {
        match self {
            IpAddress::V6 { s0, s1, s2, s3, s4, s5, s6, s7 } => seq![
                s0,
                s1,
                s2,
                s3,
                s4,
                s5,
                s6,
                s7,
            ],
            _ => seq![],
        }
    }
}

/// ASCII decimal digit.
pub open spec fn is_digit(b: u8) -> bool {
    48 <= b && b <= 57
}

/// ASCII hexadecimal digit, either case.
pub open spec fn is_hex_digit(b: u8) -> bool {
    is_digit(b) || (97 <= b && b <= 102) || (65 <= b && b <= 70)
}

/// The value of one hexadecimal digit.
pub open spec fn hex_digit_val(b: u8) -> int {
    if is_digit(b) {
        b - 48
    } else if 97 <= b && b <= 102 {
        b - 87
    } else {
        b - 55
    }
}

/// The value of a run of decimal digits.
pub open spec fn dec_val(s: Seq<u8>) -> int
    decreases s.len(),
{
    if s.len() == 0 {
        0
    } else {
        dec_val(s.drop_last()) * 10 + (s.last() - 48)
    }
}

/// The value of a run of hexadecimal digits.
pub open spec fn hex_val(s: Seq<u8>) -> int
    decreases s.len(),
{
    if s.len() == 0 {
        0
    } else {
        hex_val(s.drop_last()) * 16 + hex_digit_val(s.last())
    }
}

/// The text of one IPv4 octet: one to three decimal digits, no leading
/// zero, value at most 255.
pub open spec fn is_octet_text(s: Seq<u8>) -> bool {
    &&& 1 <= s.len() <= 3
    &&& (forall|i: int| 0 <= i < s.len() ==> is_digit(s[i]))
    &&& (s.len() > 1 ==> s[0] != 48)
    &&& dec_val(s) <= 255
}

/// The text of one IPv6 group: one to four hexadecimal digits.
pub open spec fn is_h16_text(s: Seq<u8>) -> bool {
    &&& 1 <= s.len() <= 4
    &&& (forall|i: int| 0 <= i < s.len() ==> is_hex_digit(s[i]))
}

/// The index of the first occurrence of `sep` in `s`, or `s.len()` if there
/// is none.
pub open spec fn spec_find(s: Seq<u8>, sep: u8) -> int
    decreases s.len(),
{
    if s.len() == 0 {
        0
    } else if s[0] == sep {
        0
    } else {
        1 + spec_find(s.skip(1), sep)
    }
}

/// The first occurrence of `sep` lies in `s`, at a separator, or past its end.
pub proof fn lemma_find_range(s: Seq<u8>, sep: u8)
    ensures
        0 <= spec_find(s, sep) <= s.len(),
        spec_find(s, sep) < s.len() ==> s[spec_find(s, sep)] == sep,
    decreases s.len(),
{
    if s.len() == 0 {
    } else if s[0] == sep {
    } else {
        lemma_find_range(s.skip(1), sep);
    }
}

/// `s` cut at every occurrence of `sep`; `n` separators give `n + 1` parts.
pub open spec fn spec_split(s: Seq<u8>, sep: u8) -> Seq<Seq<u8>>
    decreases s.len(),
    via spec_split_decreases
{
    let i = spec_find(s, sep);
    if i == s.len() {
        seq![s]
    } else {
        seq![s.take(i)] + spec_split(s.skip(i + 1), sep)
    }
}

#[via_fn]
proof fn spec_split_decreases(s: Seq<u8>, sep: u8) {
    lemma_find_range(s, sep);
}

/// The first occurrence of `sep` in `s`, or its length if there is none.
fn find_byte(s: &[u8], sep: u8) -> (i: usize)
    ensures
        i == spec_find(s@, sep),
    decreases s@.len(),
{
    if s.len() == 0 {
        0
    } else if s[0] == sep {
        0
    } else {
        let r = find_byte(slice_subrange(s, 1, s.len()), sep);
        proof {
            lemma_find_range(s@.skip(1), sep);
        }
        1 + r
    }
}

/// Cut `s` at every occurrence of `sep`.
fn split_bytes(s: &[u8], sep: u8) -> (parts: Vec<Vec<u8>>)
    ensures
        parts@.map_values(|p: Vec<u8>| p@) == spec_split(s@, sep),
    decreases s@.len(),
{
    let i = find_byte(s, sep);
    proof {
        lemma_find_range(s@, sep);
    }
    if i == s.len() {
        let mut parts: Vec<Vec<u8>> = Vec::new();
        parts.push(slice_to_vec(s));
        proof {
            assert(parts@.map_values(|p: Vec<u8>| p@) =~= seq![s@]);
        }
        parts
    } else {
        let head = slice_to_vec(slice_subrange(s, 0, i));
        let mut parts = split_bytes(slice_subrange(s, i + 1, s.len()), sep);
        parts.insert(0, head);
        proof {
            assert(parts@.map_values(|p: Vec<u8>| p@) =~= seq![s@.take(i as int)] + spec_split(
                s@.skip(i as int + 1),
                sep,
            ));
        }
        parts
    }
}

/// Parse one dotted-decimal octet.
fn parse_octet(s: &[u8]) -> (r: Option<u8>)
    ensures
        r matches Some(v) ==> is_octet_text(s@) && v == dec_val(s@),
        r is None ==> !is_octet_text(s@),
{
    proof {
        let t = s@;
        if t.len() == 1 {
            assert(dec_val(t) == dec_val(t.drop_last()) * 10 + (t.last() - 48));
            assert(t.drop_last().len() == 0);
        }
        if t.len() == 2 {
            assert(dec_val(t) == dec_val(t.drop_last()) * 10 + (t.last() - 48));
            assert(dec_val(t.drop_last()) == dec_val(t.drop_last().drop_last()) * 10 + (
            t.drop_last().last() - 48));
            assert(t.drop_last().drop_last().len() == 0);
            assert(t.drop_last().last() == t[0]);
        }
        if t.len() == 3 {
            assert(dec_val(t) == dec_val(t.drop_last()) * 10 + (t.last() - 48));
            assert(dec_val(t.drop_last()) == dec_val(t.drop_last().drop_last()) * 10 + (
            t.drop_last().last() - 48));
            assert(dec_val(t.drop_last().drop_last()) == dec_val(
                t.drop_last().drop_last().drop_last(),
            ) * 10 + (t.drop_last().drop_last().last() - 48));
            assert(t.drop_last().drop_last().drop_last().len() == 0);
            assert(t.drop_last().drop_last().last() == t[0]);
            assert(t.drop_last().last() == t[1]);
        }
    }
    if s.len() == 1 {
        let b0 = s[0];
        if 48 <= b0 && b0 <= 57 {
            Some(b0 - 48)
        } else {
            None
        }
    } else if s.len() == 2 {
        let b0 = s[0];
        let b1 = s[1];
        if 49 <= b0 && b0 <= 57 && 48 <= b1 && b1 <= 57 {
            Some((b0 - 48) * 10 + (b1 - 48))
        } else {
            None
        }
    } else if s.len() == 3 {
        let b0 = s[0];
        let b1 = s[1];
        let b2 = s[2];
        if 49 <= b0 && b0 <= 57 && 48 <= b1 && b1 <= 57 && 48 <= b2 && b2 <= 57 {
            let v: u16 = (b0 as u16 - 48) * 100 + (b1 as u16 - 48) * 10 + (b2 as u16 - 48);
            if v <= 255 {
                Some(v as u8)
            } else {
                None
            }
        } else {
            None
        }
    } else {
        None
    }
}

/// The value of one hexadecimal digit.
fn hex_digit(b: u8) -> (r: Option<u8>)
    ensures
        r matches Some(v) ==> is_hex_digit(b) && v == hex_digit_val(b),
        r is None ==> !is_hex_digit(b),
{
    if 48 <= b && b <= 57 {
        Some(b - 48)
    } else if 97 <= b && b <= 102 {
        Some(b - 87)
    } else if 65 <= b && b <= 70 {
        Some(b - 55)
    } else {
        None
    }
}

/// Parse one IPv6 group of one to four hexadecimal digits.
fn parse_h16(s: &[u8]) -> (r: Option<u16>)
    ensures
        r matches Some(v) ==> is_h16_text(s@) && v == hex_val(s@),
        r is None ==> !is_h16_text(s@),
{
    proof {
        let t = s@;
        if 1 <= t.len() <= 4 {
            assert(hex_val(t) == hex_val(t.drop_last()) * 16 + hex_digit_val(t.last()));
        }
        if 2 <= t.len() <= 4 {
            assert(hex_val(t.drop_last()) == hex_val(t.drop_last().drop_last()) * 16
                + hex_digit_val(t.drop_last().last()));
        }
        if 3 <= t.len() <= 4 {
            assert(hex_val(t.drop_last().drop_last()) == hex_val(
                t.drop_last().drop_last().drop_last(),
            ) * 16 + hex_digit_val(t.drop_last().drop_last().last()));
        }
        if t.len() == 4 {
            assert(hex_val(t.drop_last().drop_last().drop_last()) == hex_val(
                t.drop_last().drop_last().drop_last().drop_last(),
            ) * 16 + hex_digit_val(t.drop_last().drop_last().drop_last().last()));
            assert(t.drop_last().drop_last().drop_last().drop_last().len() == 0);
            assert(t.drop_last().drop_last().drop_last().last() == t[0]);
            assert(t.drop_last().drop_last().last() == t[1]);
            assert(t.drop_last().last() == t[2]);
        }
        if t.len() == 3 {
            assert(t.drop_last().drop_last().drop_last().len() == 0);
            assert(t.drop_last().drop_last().last() == t[0]);
            assert(t.drop_last().last() == t[1]);
        }
        if t.len() == 2 {
            assert(t.drop_last().drop_last().len() == 0);
            assert(t.drop_last().last() == t[0]);
        }
        if t.len() == 1 {
            assert(t.drop_last().len() == 0);
        }
    }
    if s.len() < 1 || s.len() > 4 {
        return None;
    }
    let mut acc: u32 = 0;
    match hex_digit(s[0]) {
        Some(v) => {
            acc = v as u32;
        },
        None => {
            return None;
        },
    }
    if s.len() >= 2 {
        match hex_digit(s[1]) {
            Some(v) => {
                acc = acc * 16 + v as u32;
            },
            None => {
                return None;
            },
        }
    }
    if s.len() >= 3 {
        match hex_digit(s[2]) {
            Some(v) => {
                acc = acc * 16 + v as u32;
            },
            None => {
                return None;
            },
        }
    }
    if s.len() == 4 {
        match hex_digit(s[3]) {
            Some(v) => {
                acc = acc * 16 + v as u32;
            },
            None => {
                return None;
            },
        }
    }
    Some(acc as u16)
}

/// The IPv4 grammar: four octets separated by dots.
pub open spec fn spec_parse_ipv4(s: Seq<u8>) -> Option<IpAddress> {
    let parts = spec_split(s, 46);
    if parts.len() == 4 && is_octet_text(parts[0]) && is_octet_text(parts[1]) && is_octet_text(
        parts[2],
    ) && is_octet_text(parts[3]) {
        Some(
            IpAddress::V4 {
                a: dec_val(parts[0]) as u8,
                b: dec_val(parts[1]) as u8,
                c: dec_val(parts[2]) as u8,
                d: dec_val(parts[3]) as u8,
            },
        )
    } else {
        None
    }
}

/// Parse dotted-decimal IPv4 text.
pub fn parse_ipv4(s: &[u8]) -> (r: Option<IpAddress>)
    ensures
        r == spec_parse_ipv4(s@),
{
    let parts = split_bytes(s, 46);
    proof {
        assert(forall|i: int|
            0 <= i < parts@.len() ==> parts@.map_values(|p: Vec<u8>| p@)[i] == parts@[i]@);
    }
    if parts.len() != 4 {
        return None;
    }
    let a = match parse_octet(parts[0].as_slice()) {
        Some(v) => v,
        None => {
            return None;
        },
    };
    let b = match parse_octet(parts[1].as_slice()) {
        Some(v) => v,
        None => {
            return None;
        },
    };
    let c = match parse_octet(parts[2].as_slice()) {
        Some(v) => v,
        None => {
            return None;
        },
    };
    let d = match parse_octet(parts[3].as_slice()) {
        Some(v) => v,
        None => {
            return None;
        },
    };
    Some(IpAddress::V4 { a, b, c, d })
}

/// Every part is an IPv6 group.
pub open spec fn all_h16(parts: Seq<Seq<u8>>) -> bool {
    forall|i: int| 0 <= i < parts.len() ==> is_h16_text(parts[i])
}

/// The group values of a run of IPv6 group texts.
pub open spec fn h16_groups(parts: Seq<Seq<u8>>) -> Seq<u16> {
    parts.map_values(|p: Seq<u8>| hex_val(p) as u16)
}

/// The index of the first `::` in `s`, or `s.len()` if there is none.
pub open spec fn spec_find_dcolon(s: Seq<u8>) -> int
    decreases s.len(),
{
    if s.len() < 2 {
        s.len() as int
    } else if s[0] == 58 && s[1] == 58 {
        0
    } else {
        1 + spec_find_dcolon(s.skip(1))
    }
}

/// The first `::` lies in `s`, at a double colon, or past its end.
pub proof fn lemma_find_dcolon_range(s: Seq<u8>)
    ensures
        0 <= spec_find_dcolon(s) <= s.len(),
        spec_find_dcolon(s) < s.len() ==> spec_find_dcolon(s) + 2 <= s.len() && s[spec_find_dcolon(
            s,
        )] == 58 && s[spec_find_dcolon(s) + 1] == 58,
    decreases s.len(),
{
    if s.len() < 2 {
    } else if s[0] == 58 && s[1] == 58 {
    } else {
        lemma_find_dcolon_range(s.skip(1));
    }
}

/// The group values of the parts left of a `::`: every part must be a
/// plain group.
pub open spec fn spec_head_groups(parts: Seq<Seq<u8>>) -> Option<Seq<u16>> {
    if all_h16(parts) {
        Some(h16_groups(parts))
    } else {
        None
    }
}

/// The group values of the parts that end an address: every part must be a
/// plain group, except that the final part may be an embedded dotted-decimal
/// IPv4 address standing for the last two groups.
pub open spec fn spec_tail_groups(parts: Seq<Seq<u8>>) -> Option<Seq<u16>> {
    if parts.len() == 0 {
        Some(Seq::<u16>::empty())
    } else if !all_h16(parts.drop_last()) {
        None
    } else if is_h16_text(parts.last()) {
        Some(h16_groups(parts.drop_last()).push(hex_val(parts.last()) as u16))
    } else {
        match spec_parse_ipv4(parts.last()) {
            Some(IpAddress::V4 { a, b, c, d }) => Some(
                h16_groups(parts.drop_last()) + seq![
                    (a * 256 + b) as u16,
                    (c * 256 + d) as u16,
                ],
            ),
            _ => None,
        }
    }
}

/// `n` zero groups.
pub open spec fn zero_groups(n: int) -> Seq<u16> {
    Seq::new(n as nat, |i: int| 0u16)
}

/// The address with the given eight groups.
pub open spec fn groups_to_v6(g: Seq<u16>) -> IpAddress
    recommends
        g.len() == 8,
{
    IpAddress::V6 {
        s0: g[0],
        s1: g[1],
        s2: g[2],
        s3: g[3],
        s4: g[4],
        s5: g[5],
        s6: g[6],
        s7: g[7],
    }
}

/// The IPv6 grammar: eight colon-separated groups, one `::` standing for
/// one or more zero groups, and an optional embedded IPv4 tail.
pub open spec fn spec_parse_ipv6(s: Seq<u8>) -> Option<IpAddress> {
    let dc = spec_find_dcolon(s);
    if dc == s.len() {
        match spec_tail_groups(spec_split(s, 58)) {
            Some(g) => if g.len() == 8 {
                Some(groups_to_v6(g))
            } else {
                None
            },
            None => None,
        }
    } else {
        let left = s.take(dc);
        let right = s.skip(dc + 2);
        let lparts = if left.len() == 0 {
            Seq::<Seq<u8>>::empty()
        } else {
            spec_split(left, 58)
        };
        let rparts = if right.len() == 0 {
            Seq::<Seq<u8>>::empty()
        } else {
            spec_split(right, 58)
        };
        match (spec_head_groups(lparts), spec_tail_groups(rparts)) {
            (Some(lg), Some(rg)) => if lg.len() + rg.len() <= 7 {
                Some(groups_to_v6(lg + zero_groups(8 - lg.len() - rg.len()) + rg))
            } else {
                None
            },
            _ => None,
        }
    }
}

/// The first `::` in `s`, or its length if there is none.
fn find_dcolon(s: &[u8]) -> (i: usize)
    ensures
        i == spec_find_dcolon(s@),
    decreases s@.len(),
{
    if s.len() < 2 {
        s.len()
    } else if s[0] == 58 && s[1] == 58 {
        0
    } else {
        let r = find_dcolon(slice_subrange(s, 1, s.len()));
        proof {
            lemma_find_dcolon_range(s@.skip(1));
        }
        1 + r
    }
}

/// Parse a run of parts that must all be plain groups.
fn head_groups(parts: &Vec<Vec<u8>>) -> (r: Option<Vec<u16>>)
    ensures
        r matches Some(g) ==> spec_head_groups(parts@.map_values(|p: Vec<u8>| p@)) == Some(g@),
        r is None ==> spec_head_groups(parts@.map_values(|p: Vec<u8>| p@)) is None,
{
    let ghost ps = parts@.map_values(|p: Vec<u8>| p@);
    let mut g: Vec<u16> = Vec::new();
    let mut i: usize = 0;
    while i < parts.len()
        invariant
            i <= parts@.len(),
            ps == parts@.map_values(|p: Vec<u8>| p@),
            forall|j: int| 0 <= j < i ==> is_h16_text(ps[j]),
            g@ == h16_groups(ps.take(i as int)),
        decreases parts@.len() - i,
    {
        match parse_h16(parts[i].as_slice()) {
            Some(v) => {
                g.push(v);
                proof {
                    assert(g@ =~= h16_groups(ps.take(i as int + 1)));
                }
            },
            None => {
                proof {
                    assert(ps[i as int] == parts@[i as int]@);
                    assert(!is_h16_text(ps[i as int]));
                }
                return None;
            },
        }
        i += 1;
    }
    proof {
        assert(ps.take(ps.len() as int) =~= ps);
    }
    Some(g)
}

/// Parse a run of parts whose final part may be an embedded IPv4 address.
fn tail_groups(parts: &Vec<Vec<u8>>) -> (r: Option<Vec<u16>>)
    ensures
        r matches Some(g) ==> spec_tail_groups(parts@.map_values(|p: Vec<u8>| p@)) == Some(g@),
        r is None ==> spec_tail_groups(parts@.map_values(|p: Vec<u8>| p@)) is None,
{
    let ghost ps = parts@.map_values(|p: Vec<u8>| p@);
    if parts.len() == 0 {
        let g: Vec<u16> = Vec::new();
        proof {
            assert(g@ =~= Seq::<u16>::empty());
        }
        return Some(g);
    }
    let mut g: Vec<u16> = Vec::new();
    let mut i: usize = 0;
    while i < parts.len() - 1
        invariant
            parts@.len() >= 1,
            i <= parts@.len() - 1,
            ps == parts@.map_values(|p: Vec<u8>| p@),
            forall|j: int| 0 <= j < i ==> is_h16_text(ps[j]),
            g@ == h16_groups(ps.take(i as int)),
        decreases parts@.len() - 1 - i,
    {
        match parse_h16(parts[i].as_slice()) {
            Some(v) => {
                g.push(v);
                proof {
                    assert(g@ =~= h16_groups(ps.take(i as int + 1)));
                }
            },
            None => {
                proof {
                    assert(ps.drop_last()[i as int] == ps[i as int]);
                }
                return None;
            },
        }
        i += 1;
    }
    proof {
        assert(ps.take(ps.len() - 1) =~= ps.drop_last());
        assert(forall|j: int| 0 <= j < ps.drop_last().len() ==> ps.drop_last()[j] == ps[j]);
    }
    match parse_h16(parts[parts.len() - 1].as_slice()) {
        Some(v) => {
            g.push(v);
            Some(g)
        },
        None => {
            match parse_ipv4(parts[parts.len() - 1].as_slice()) {
                Some(IpAddress::V4 { a, b, c, d }) => {
                    g.push(a as u16 * 256 + b as u16);
                    g.push(c as u16 * 256 + d as u16);
                    proof {
                        assert(g@ =~= h16_groups(ps.drop_last()) + seq![
                            (a * 256 + b) as u16,
                            (c * 256 + d) as u16,
                        ]);
                    }
                    Some(g)
                },
                Some(IpAddress::V6 { .. }) => None,
                None => None,
            }
        },
    }
}

/// Parse colon-grouped IPv6 text.
pub fn parse_ipv6(s: &[u8]) -> (r: Option<IpAddress>)
    ensures
        r == spec_parse_ipv6(s@),
{
    let dc = find_dcolon(s);
    proof {
        lemma_find_dcolon_range(s@);
    }
    if dc == s.len() {
        let parts = split_bytes(s, 58);
        match tail_groups(&parts) {
            Some(g) => {
                if g.len() == 8 {
                    Some(
                        IpAddress::V6 {
                            s0: g[0],
                            s1: g[1],
                            s2: g[2],
                            s3: g[3],
                            s4: g[4],
                            s5: g[5],
                            s6: g[6],
                            s7: g[7],
                        },
                    )
                } else {
                    None
                }
            },
            None => None,
        }
    } else {
        let left = slice_subrange(s, 0, dc);
        let right = slice_subrange(s, dc + 2, s.len());
        let lparts: Vec<Vec<u8>> = if left.len() == 0 {
            Vec::new()
        } else {
            split_bytes(left, 58)
        };
        let rparts: Vec<Vec<u8>> = if right.len() == 0 {
            Vec::new()
        } else {
            split_bytes(right, 58)
        };
        proof {
            if left@.len() == 0 {
                assert(lparts@.map_values(|p: Vec<u8>| p@) =~= Seq::<Seq<u8>>::empty());
            }
            if right@.len() == 0 {
                assert(rparts@.map_values(|p: Vec<u8>| p@) =~= Seq::<Seq<u8>>::empty());
            }
        }
        let lg = match head_groups(&lparts) {
            Some(g) => g,
            None => {
                return None;
            },
        };
        let rg = match tail_groups(&rparts) {
            Some(g) => g,
            None => {
                return None;
            },
        };
        if lg.len() <= 7 && rg.len() <= 7 - lg.len() {
            let ghost lgv = lg@;
            let ghost rgv = rg@;
            let mut g = lg;
            let target: usize = 8 - rg.len();
            while g.len() < target
                invariant
                    lgv.len() <= g@.len() <= target,
                    target == 8 - rgv.len(),
                    rgv.len() <= 7,
                    g@ == lgv + zero_groups(g@.len() - lgv.len()),
                decreases target - g@.len(),
            {
                g.push(0);
                proof {
                    assert(g@ =~= lgv + zero_groups(g@.len() - lgv.len()));
                }
            }
            let mut rtail = rg;
            g.append(&mut rtail);
            proof {
                assert(g@ =~= lgv + zero_groups(8 - lgv.len() - rgv.len()) + rgv);
            }
            Some(
                IpAddress::V6 {
                    s0: g[0],
                    s1: g[1],
                    s2: g[2],
                    s3: g[3],
                    s4: g[4],
                    s5: g[5],
                    s6: g[6],
                    s7: g[7],
                },
            )
        } else {
            None
        }
    }
}

/// The full address grammar: IPv4 text, or else IPv6 text.
pub open spec fn spec_parse_ip(s: Seq<u8>) -> Option<IpAddress> {
    if spec_parse_ipv4(s) is Some {
        spec_parse_ipv4(s)
    } else {
        spec_parse_ipv6(s)
    }
}

/// Parse an address: dotted-decimal IPv4 text, or else colon-grouped IPv6
/// text.
pub fn parse_ip(s: &[u8]) -> (r: Option<IpAddress>)
    ensures
        r == spec_parse_ip(s@),
{
    match parse_ipv4(s) {
        Some(ip) => Some(ip),
        None => parse_ipv6(s),
    }
}

/// The byte of one hexadecimal digit, lower case.
pub open spec fn hex_digit_text(k: int) -> u8
    recommends
        0 <= k < 16,
{
    if k < 10 {
        (48 + k) as u8
    } else {
        (87 + k) as u8
    }
}

/// The shortest decimal text of an octet.
pub open spec fn dec_text(v: u8) -> Seq<u8> {
    if v < 10 {
        seq![(48 + v) as u8]
    } else if v < 100 {
        seq![(48 + v / 10) as u8, (48 + v % 10) as u8]
    } else {
        seq![(48 + v / 100) as u8, (48 + (v / 10) % 10) as u8, (48 + v % 10) as u8]
    }
}

/// The shortest lower-case hexadecimal text of a group.
pub open spec fn hex_text(v: u16) -> Seq<u8> {
    if v < 16 {
        seq![hex_digit_text(v as int)]
    } else if v < 256 {
        seq![hex_digit_text(v as int / 16), hex_digit_text(v as int % 16)]
    } else if v < 4096 {
        seq![
            hex_digit_text(v as int / 256),
            hex_digit_text((v as int / 16) % 16),
            hex_digit_text(v as int % 16),
        ]
    } else {
        seq![
            hex_digit_text(v as int / 4096),
            hex_digit_text((v as int / 256) % 16),
            hex_digit_text((v as int / 16) % 16),
            hex_digit_text(v as int % 16),
        ]
    }
}

/// How many consecutive zero groups `g` holds from index `i` on.
pub open spec fn run_len_at(g: Seq<u16>, i: int) -> int
    decreases g.len() - i,
{
    if i < 0 || i >= g.len() || g[i] != 0 {
        0
    } else {
        1 + run_len_at(g, i + 1)
    }
}

/// The start of the leftmost longest run of zero groups in `g` at or after
/// `i` (the run may be empty).
pub open spec fn best_run_from(g: Seq<u16>, i: int) -> int
    decreases g.len() - i,
{
    if i >= g.len() {
        i
    } else {
        let rest = best_run_from(g, i + 1);
        if run_len_at(g, i) >= run_len_at(g, rest) {
            i
        } else {
            rest
        }
    }
}

/// The shortest hexadecimal texts of the groups of `g`, joined by colons.
pub open spec fn join_hex(g: Seq<u16>) -> Seq<u8>
    decreases g.len(),
{
    if g.len() == 0 {
        Seq::<u8>::empty()
    } else if g.len() == 1 {
        hex_text(g[0])
    } else {
        hex_text(g[0]) + seq![58u8] + join_hex(g.skip(1))
    }
}

/// The dotted-decimal text of the four bytes packed into two groups.
pub open spec fn packed_v4_text(hi: u16, lo: u16) -> Seq<u8> {
    dec_text((hi / 256) as u8) + seq![46u8] + dec_text((hi % 256) as u8) + seq![46u8] + dec_text(
        (lo / 256) as u8,
    ) + seq![46u8] + dec_text((lo % 256) as u8)
}

/// The textual form of eight IPv6 groups: an IPv4-mapped address is written
/// with its dotted-decimal tail; otherwise the leftmost longest run of two
/// or more zero groups is compressed to `::`, and every group is written in
/// shortest lower-case hexadecimal.
pub open spec fn spec_ipv6_text(g: Seq<u16>) -> Seq<u8>
    recommends
        g.len() == 8,
{
    if g[0] == 0 && g[1] == 0 && g[2] == 0 && g[3] == 0 && g[4] == 0 && g[5] == 0xffff {
        seq![58u8, 58u8, 102u8, 102u8, 102u8, 102u8, 58u8] + packed_v4_text(g[6], g[7])
    } else {
        let s = best_run_from(g, 0);
        let l = run_len_at(g, s);
        if l > 1 {
            join_hex(g.take(s)) + seq![58u8, 58u8] + join_hex(g.skip(s + l))
        } else {
            join_hex(g)
        }
    }
}

/// The textual form of an address: dotted decimal for IPv4; for IPv6, the
/// usual compressed form.
pub open spec fn spec_ip_text(ip: IpAddress) -> Seq<u8> {
    match ip {
        IpAddress::V4 { a, b, c, d } => dec_text(a) + seq![46u8] + dec_text(b) + seq![46u8]
            + dec_text(c) + seq![46u8] + dec_text(d),
        IpAddress::V6 { .. } => spec_ipv6_text(ip.v6_groups()),
    }
}

/// Append the decimal text of an octet.
fn push_dec(out: &mut Vec<u8>, v: u8)
    ensures
        final(out)@ == old(out)@ + dec_text(v),
        forall|i: int|
            old(out)@.len() <= i < final(out)@.len() ==> final(out)@[i] < 128,
{
    if v < 10 {
        out.push(48 + v);
    } else if v < 100 {
        out.push(48 + v / 10);
        out.push(48 + v % 10);
    } else {
        out.push(48 + v / 100);
        out.push(48 + (v / 10) % 10);
        out.push(48 + v % 10);
    }
    proof {
        assert(final(out)@ =~= old(out)@ + dec_text(v));
    }
}

/// The byte of one hexadecimal digit, lower case.
fn hex_digit_byte(k: u16) -> (r: u8)
    requires
        k < 16,
    ensures
        r == hex_digit_text(k as int),
{
    if k < 10 {
        (48 + k) as u8
    } else {
        (87 + k) as u8
    }
}

/// Append the shortest lower-case hexadecimal text of a group.
fn push_hex(out: &mut Vec<u8>, v: u16)
    ensures
        final(out)@ == old(out)@ + hex_text(v),
        forall|i: int|
            old(out)@.len() <= i < final(out)@.len() ==> final(out)@[i] < 128,
{
    if v < 16 {
        out.push(hex_digit_byte(v));
    } else if v < 256 {
        out.push(hex_digit_byte(v / 16));
        out.push(hex_digit_byte(v % 16));
    } else if v < 4096 {
        out.push(hex_digit_byte(v / 256));
        out.push(hex_digit_byte((v / 16) % 16));
        out.push(hex_digit_byte(v % 16));
    } else {
        out.push(hex_digit_byte(v / 4096));
        out.push(hex_digit_byte((v / 256) % 16));
        out.push(hex_digit_byte((v / 16) % 16));
        out.push(hex_digit_byte(v % 16));
    }
    proof {
        assert(final(out)@ =~= old(out)@ + hex_text(v));
    }
}

/// How many consecutive zero groups `g` holds from index `i` on.
fn run_len(g: &Vec<u16>, i: usize) -> (r: usize)
    requires
        i <= g@.len(),
    ensures
        r == run_len_at(g@, i as int),
        r <= g@.len() - i,
    decreases g@.len() - i,
{
    if i >= g.len() {
        0
    } else if g[i] != 0 {
        0
    } else {
        1 + run_len(g, i + 1)
    }
}

/// The start of the leftmost longest run of zero groups at or after `i`.
fn best_run(g: &Vec<u16>, i: usize) -> (r: usize)
    requires
        i <= g@.len(),
    ensures
        r == best_run_from(g@, i as int),
        i <= r <= g@.len(),
    decreases g@.len() - i,
{
    if i >= g.len() {
        i
    } else {
        let rest = best_run(g, i + 1);
        if run_len(g, i) >= run_len(g, rest) {
            i
        } else {
            rest
        }
    }
}

/// Append the hexadecimal texts of the groups of `g[from..to]`, joined by
/// colons.
fn push_join(out: &mut Vec<u8>, g: &Vec<u16>, from: usize, to: usize)
    requires
        from <= to <= g@.len(),
    ensures
        final(out)@ == old(out)@ + join_hex(g@.subrange(from as int, to as int)),
        forall|i: int|
            old(out)@.len() <= i < final(out)@.len() ==> final(out)@[i] < 128,
    decreases to - from,
{
    if from >= to {
        proof {
            assert(final(out)@ =~= old(out)@ + join_hex(g@.subrange(from as int, to as int)));
        }
    } else if from + 1 == to {
        push_hex(out, g[from]);
        proof {
            assert(g@.subrange(from as int, to as int).len() == 1);
            assert(g@.subrange(from as int, to as int)[0] == g@[from as int]);
        }
    } else {
        push_hex(out, g[from]);
        out.push(58);
        push_join(out, g, from + 1, to);
        proof {
            assert(g@.subrange(from as int + 1, to as int) =~= g@.subrange(
                from as int,
                to as int,
            ).skip(1));
            assert(g@.subrange(from as int, to as int)[0] == g@[from as int]);
            assert(final(out)@ =~= old(out)@ + join_hex(g@.subrange(from as int, to as int)));
        }
    }
}

/// The textual form of an address, as bytes.
pub fn ip_text_bytes(ip: &IpAddress) -> (r: Vec<u8>)
    ensures
        r@ == spec_ip_text(*ip),
        forall|i: int| 0 <= i < r@.len() ==> r@[i] < 128,
{
    let mut out: Vec<u8> = Vec::new();
    match *ip {
        IpAddress::V4 { a, b, c, d } => {
            push_dec(&mut out, a);
            out.push(46);
            push_dec(&mut out, b);
            out.push(46);
            push_dec(&mut out, c);
            out.push(46);
            push_dec(&mut out, d);
            proof {
                assert(out@ =~= spec_ip_text(*ip));
            }
        },
        IpAddress::V6 { s0, s1, s2, s3, s4, s5, s6, s7 } => {
            let mut gv: Vec<u16> = Vec::new();
            gv.push(s0);
            gv.push(s1);
            gv.push(s2);
            gv.push(s3);
            gv.push(s4);
            gv.push(s5);
            gv.push(s6);
            gv.push(s7);
            proof {
                assert(gv@ =~= ip.v6_groups());
            }
            if gv[0] == 0 && gv[1] == 0 && gv[2] == 0 && gv[3] == 0 && gv[4] == 0 && gv[5]
                == 0xffff {
                out.push(58);
                out.push(58);
                out.push(102);
                out.push(102);
                out.push(102);
                out.push(102);
                out.push(58);
                push_dec(&mut out, (s6 / 256) as u8);
                out.push(46);
                push_dec(&mut out, (s6 % 256) as u8);
                out.push(46);
                push_dec(&mut out, (s7 / 256) as u8);
                out.push(46);
                push_dec(&mut out, (s7 % 256) as u8);
                proof {
                    assert(out@ =~= spec_ip_text(*ip));
                }
            } else {
                let s = best_run(&gv, 0);
                let l = run_len(&gv, s);
                if l > 1 {
                    push_join(&mut out, &gv, 0, s);
                    out.push(58);
                    out.push(58);
                    push_join(&mut out, &gv, s + l, 8);
                    proof {
                        assert(gv@.take(s as int) =~= gv@.subrange(0, s as int));
                        assert(gv@.skip(s as int + l as int) =~= gv@.subrange(
                            s as int + l as int,
                            8,
                        ));
                        assert(out@ =~= spec_ip_text(*ip));
                    }
                } else {
                    push_join(&mut out, &gv, 0, 8);
                    proof {
                        assert(gv@ =~= gv@.subrange(0, 8));
                        assert(out@ =~= spec_ip_text(*ip));
                    }
                }
            }
        },
    }
    out
}

/// The chars standing for a run of ASCII bytes.
pub open spec fn chars_of(s: Seq<u8>) -> Seq<char> {
    Seq::new(s.len(), |i: int| s[i] as char)
}

/// Relies on `String::from_utf8`: bytes below 128 are valid UTF-8 and decode
/// to the chars of the same values.
#[verifier::external_body]
fn ascii_to_string(v: Vec<u8>) -> (r: String)
    requires
        forall|i: int| 0 <= i < v@.len() ==> v@[i] < 128,
    ensures
        r@.len() == v@.len(),
        forall|i: int| 0 <= i < v@.len() ==> r@[i] == v@[i] as char,
{
    match String::from_utf8(v) {
        Ok(s) => s,
        Err(_) => String::new(),
    }
}

impl IpAddress {
    /// The textual form of this address.
    pub fn text(&self) -> (r: String)
        ensures
            r@ == chars_of(spec_ip_text(*self)),
    {
        let bytes = ip_text_bytes(self);
        let s = ascii_to_string(bytes);
        proof {
            assert(s@ =~= chars_of(spec_ip_text(*self)));
        }
        s
    }
}

} // verus!
