//! IP address literals: dotted IPv4, and IPv6 with `::` and an embedded IPv4
//! tail.

use vstd::prelude::*;
use crate::bytes::{byte_range, byte_range_grows};
use crate::ip::IpAddr;
use crate::text::{
    all_digits, chars_of, decimal_value, find_char, index_of, index_of_bounds, is_digit,
};

verus! {

/// The pieces of `s` between the separators `c`.
pub open spec fn split(s: Seq<char>, c: char) -> Seq<Seq<char>>
    decreases s.len(),
    via split_decreases
{
    let at = index_of(s, c);
    if at >= s.len() {
        seq![s]
    } else {
        seq![s.subrange(0, at)] + split(s.skip(at + 1), c)
    }
}

#[via_fn]
proof fn split_decreases(s: Seq<char>, c: char) {
    index_of_bounds(s, c);
}

/// One part of a dotted IPv4 address: one to three decimal digits without a
/// leading zero, at most 255.
pub open spec fn octet_value(s: Seq<char>) -> Option<nat> {
    if 1 <= s.len() <= 3 && all_digits(s) && (s[0] == '0' ==> s.len() == 1) && decimal_value(s)
        <= 255 {
        Some(decimal_value(s))
    } else {
        None
    }
}

/// The address in dotted IPv4 text: four octets.
pub open spec fn ipv4_value(s: Seq<char>) -> Option<u32> {
    let parts = split(s, '.');
    if parts.len() == 4 && octet_value(parts[0]) is Some && octet_value(parts[1]) is Some
        && octet_value(parts[2]) is Some && octet_value(parts[3]) is Some {
        Some(
            (((octet_value(parts[0])->0 * 256 + octet_value(parts[1])->0) * 256
                + octet_value(parts[2])->0) * 256 + octet_value(parts[3])->0) as u32,
        )
    } else {
        None
    }
}

/// The value of a hexadecimal digit, 16 for any other character.
pub open spec fn hex_digit(c: char) -> nat {
    if '0' <= c <= '9' {
        (c as nat - 48) as nat
    } else if 'a' <= c <= 'f' {
        (c as nat - 87) as nat
    } else if 'A' <= c <= 'F' {
        (c as nat - 55) as nat
    } else {
        16
    }
}

/// The number that hexadecimal digits spell.
pub open spec fn hex_value(s: Seq<char>) -> nat
    decreases s.len(),
{
    if s.len() == 0 {
        0
    } else {
        hex_value(s.drop_last()) * 16 + hex_digit(s.last())
    }
}

/// One group of an IPv6 address: one to four hexadecimal digits.
pub open spec fn group_value(s: Seq<char>) -> Option<nat> {
    if 1 <= s.len() <= 4 && forall|i: int| 0 <= i < s.len() ==> #[trigger] hex_digit(s[i]) < 16 {
        Some(hex_value(s))
    } else {
        None
    }
}

/// The groups that colon-separated pieces spell; where `v4_tail` holds, the
/// last piece may be a dotted IPv4 address, which spells two.
pub open spec fn piece_groups(pieces: Seq<Seq<char>>, v4_tail: bool) -> Option<Seq<nat>>
    decreases pieces.len(),
{
    if pieces.len() == 0 {
        Some(Seq::empty())
    } else if pieces.len() == 1 && v4_tail && ipv4_value(pieces[0]) is Some {
        let bits = ipv4_value(pieces[0])->0 as nat;
        Some(seq![bits / 65536, bits % 65536])
    } else {
        match (group_value(pieces[0]), piece_groups(pieces.skip(1), v4_tail)) {
            (Some(group), Some(rest)) => Some(seq![group] + rest),
            _ => None,
        }
    }
}

/// The groups on one side of `::`, or of an address without one.
pub open spec fn groups_in(s: Seq<char>, v4_tail: bool) -> Option<Seq<nat>> {
    if s.len() == 0 {
        Some(Seq::empty())
    } else {
        piece_groups(split(s, ':'), v4_tail)
    }
}

/// The place of the first `::` in `s`, or the length of `s`.
pub open spec fn double_colon(s: Seq<char>) -> int
    decreases s.len(),
{
    if s.len() < 2 {
        s.len() as int
    } else if s[0] == ':' && s[1] == ':' {
        0
    } else {
        1 + double_colon(s.skip(1))
    }
}

/// The number that 16-bit groups spell, most significant first.
pub open spec fn groups_value(groups: Seq<nat>) -> nat
    decreases groups.len(),
{
    if groups.len() == 0 {
        0
    } else {
        groups_value(groups.drop_last()) * 65536 + groups.last()
    }
}

/// The address in IPv6 text: eight groups, or fewer with one `::` in place of
/// the missing ones, of which there is at least one.
pub open spec fn ipv6_value(s: Seq<char>) -> Option<u128> {
    let at = double_colon(s);
    if at >= s.len() {
        match groups_in(s, true) {
            Some(groups) => if groups.len() == 8 {
                Some(groups_value(groups) as u128)
            } else {
                None
            },
            None => None,
        }
    } else {
        match (groups_in(s.subrange(0, at), false), groups_in(s.skip(at + 2), true)) {
            (Some(head), Some(tail)) => if head.len() + tail.len() <= 7 {
                let missing = (8 - head.len() - tail.len()) as nat;
                Some(groups_value(head + Seq::new(missing, |i: int| 0nat) + tail) as u128)
            } else {
                None
            },
            _ => None,
        }
    }
}

/// The address that `s` spells, IPv4 or IPv6.
pub open spec fn ip_value(s: Seq<char>) -> Option<IpAddr> {
    match ipv4_value(s) {
        Some(bits) => Some(IpAddr::V4(bits)),
        None => match ipv6_value(s) {
            Some(bits) => Some(IpAddr::V6(bits)),
            None => None,
        },
    }
}

fn parse_octet(chars: &Vec<char>, from: usize, to: usize) -> (value: Option<u32>)
    requires
        from <= to <= chars@.len(),
    ensures
        match value {
            Some(v) => octet_value(chars@.subrange(from as int, to as int)) == Some(v as nat),
            None => octet_value(chars@.subrange(from as int, to as int)) is None,
        },
{
    let ghost part = chars@.subrange(from as int, to as int);
    if to - from < 1 || to - from > 3 {
        return None;
    }
    if chars[from] == '0' && to - from > 1 {
        assert(part[0] == '0');
        return None;
    }
    let mut value: u32 = 0;
    let mut i: usize = from;
    while i < to
        invariant
            from <= i <= to <= chars@.len(),
            to - from <= 3,
            part == chars@.subrange(from as int, to as int),
            value == decimal_value(part.subrange(0, i - from)),
            i - from == 0 ==> value < 1,
            i - from == 1 ==> value < 10,
            i - from == 2 ==> value < 100,
            i - from == 3 ==> value < 1000,
            forall|j: int| 0 <= j < i - from ==> is_digit(#[trigger] part[j]),
        decreases to - i,
    {
        let c: char = chars[i];
        assert(part[i - from] == c);
        if c < '0' || c > '9' {
            return None;
        }
        assert(part.subrange(0, i - from + 1).drop_last() =~= part.subrange(0, i - from));
        value = value * 10 + (c as u32 - 48);
        i = i + 1;
    }
    assert(part.subrange(0, to - from) =~= part);
    assert(part[0] == chars[from as int]);
    if value <= 255 {
        Some(value)
    } else {
        None
    }
}

fn parse_group(chars: &Vec<char>, from: usize, to: usize) -> (value: Option<u16>)
    requires
        from <= to <= chars@.len(),
    ensures
        match value {
            Some(v) => group_value(chars@.subrange(from as int, to as int)) == Some(v as nat),
            None => group_value(chars@.subrange(from as int, to as int)) is None,
        },
{
    let ghost part = chars@.subrange(from as int, to as int);
    if to - from < 1 || to - from > 4 {
        return None;
    }
    let mut value: u32 = 0;
    let mut i: usize = from;
    while i < to
        invariant
            from <= i <= to <= chars@.len(),
            to - from <= 4,
            part == chars@.subrange(from as int, to as int),
            value == hex_value(part.subrange(0, i - from)),
            i - from == 0 ==> value < 1,
            i - from == 1 ==> value < 16,
            i - from == 2 ==> value < 256,
            i - from == 3 ==> value < 4096,
            i - from == 4 ==> value < 65536,
            forall|j: int| 0 <= j < i - from ==> #[trigger] hex_digit(part[j]) < 16,
        decreases to - i,
    {
        let c: char = chars[i];
        assert(part[i - from] == c);
        let d: u32 = if '0' <= c && c <= '9' {
            c as u32 - 48
        } else if 'a' <= c && c <= 'f' {
            c as u32 - 87
        } else if 'A' <= c && c <= 'F' {
            c as u32 - 55
        } else {
            assert(hex_digit(part[i - from]) == 16);
            return None;
        };
        assert(part.subrange(0, i - from + 1).drop_last() =~= part.subrange(0, i - from));
        value = value * 16 + d;
        i = i + 1;
    }
    assert(part.subrange(0, to - from) =~= part);
    Some(value as u16)
}

/// Splitting off the first piece.
proof fn split_step(s: Seq<char>, c: char, at: int)
    requires
        at == index_of(s, c),
    ensures
        at == s.len() ==> split(s, c) == seq![s],
        0 <= at < s.len() ==> split(s, c).len() == 1 + split(s.skip(at + 1), c).len()
            && split(s, c)[0] == s.subrange(0, at) && split(s, c).skip(1) == split(
            s.skip(at + 1),
            c,
        ),
        split(s, c).len() >= 1,
{
    index_of_bounds(s, c);
    if at < s.len() {
        assert(split(s, c).skip(1) =~= split(s.skip(at + 1), c));
    }
}

fn parse_v4(chars: &Vec<char>, from: usize, to: usize) -> (value: Option<u32>)
    requires
        from <= to <= chars@.len(),
    ensures
        value == ipv4_value(chars@.subrange(from as int, to as int)),
{
    let ghost s0 = chars@.subrange(from as int, to as int);
    let end1: usize = find_char(chars, from, to, '.');
    proof {
        split_step(s0, '.', end1 - from);
    }
    if end1 == to {
        return None;
    }
    let ghost s1 = chars@.subrange(end1 + 1, to as int);
    assert(s0.skip(end1 - from + 1) =~= s1);
    let end2: usize = find_char(chars, end1 + 1, to, '.');
    proof {
        split_step(s1, '.', end2 - end1 - 1);
    }
    if end2 == to {
        return None;
    }
    let ghost s2 = chars@.subrange(end2 + 1, to as int);
    assert(s1.skip(end2 - end1 - 1 + 1) =~= s2);
    let end3: usize = find_char(chars, end2 + 1, to, '.');
    proof {
        split_step(s2, '.', end3 - end2 - 1);
    }
    if end3 == to {
        return None;
    }
    let ghost s3 = chars@.subrange(end3 + 1, to as int);
    assert(s2.skip(end3 - end2 - 1 + 1) =~= s3);
    let end4: usize = find_char(chars, end3 + 1, to, '.');
    proof {
        split_step(s3, '.', end4 - end3 - 1);
    }
    if end4 != to {
        return None;
    }
    proof {
        let parts = split(s0, '.');
        assert(parts[1] == parts.skip(1)[0]);
        assert(parts[2] == parts.skip(1).skip(1)[0]);
        assert(parts[3] == parts.skip(1).skip(1).skip(1)[0]);
        assert(parts[0] =~= chars@.subrange(from as int, end1 as int));
        assert(parts[1] =~= chars@.subrange(end1 + 1, end2 as int));
        assert(parts[2] =~= chars@.subrange(end2 + 1, end3 as int));
        assert(parts[3] =~= chars@.subrange(end3 + 1, end4 as int));
    }
    match (
        parse_octet(chars, from, end1),
        parse_octet(chars, end1 + 1, end2),
        parse_octet(chars, end2 + 1, end3),
        parse_octet(chars, end3 + 1, end4),
    ) {
        (Some(a), Some(b), Some(c), Some(d)) => Some(((a * 256 + b) * 256 + c) * 256 + d),
        _ => None,
    }
}

/// Groups in front of the groups that are still to be read.
spec fn after(done: Seq<nat>, rest: Option<Seq<nat>>) -> Option<Seq<nat>> {
    match rest {
        Some(groups) => Some(done + groups),
        None => None,
    }
}

spec fn nats(groups: Seq<u16>) -> Seq<nat> {
    groups.map_values(|g: u16| g as nat)
}

fn parse_groups(chars: &Vec<char>, from: usize, to: usize, v4_tail: bool) -> (groups: Option<
    Vec<u16>,
>)
    requires
        from <= to <= chars@.len(),
    ensures
        match groups {
            Some(g) => groups_in(chars@.subrange(from as int, to as int), v4_tail) == Some(
                nats(g@),
            ),
            None => groups_in(chars@.subrange(from as int, to as int), v4_tail) is None,
        },
{
    let ghost whole = chars@.subrange(from as int, to as int);
    let mut groups: Vec<u16> = Vec::new();
    if from == to {
        assert(nats(groups@) =~= Seq::<nat>::empty());
        return Some(groups);
    }
    let mut at: usize = from;
    assert(after(nats(groups@), groups_in(whole, v4_tail)) == groups_in(whole, v4_tail)) by {
        if groups_in(whole, v4_tail) is Some {
            assert(nats(groups@) + groups_in(whole, v4_tail)->0 =~= groups_in(whole, v4_tail)->0);
        }
    }
    loop
        invariant
            from <= at <= to <= chars@.len(),
            whole == chars@.subrange(from as int, to as int),
            groups_in(whole, v4_tail) == after(
                nats(groups@),
                piece_groups(split(chars@.subrange(at as int, to as int), ':'), v4_tail),
            ),
        decreases to - at,
    {
        let ghost rest = chars@.subrange(at as int, to as int);
        let ghost pieces = split(rest, ':');
        let end: usize = find_char(chars, at, to, ':');
        proof {
            split_step(rest, ':', end - at);
            assert(rest.subrange(0, end - at) =~= chars@.subrange(at as int, end as int));
            if end < to {
                assert(rest.skip(end - at + 1) =~= chars@.subrange(end + 1, to as int));
            } else {
                assert(rest =~= chars@.subrange(at as int, end as int));
                assert(pieces.skip(1) =~= Seq::<Seq<char>>::empty());
            }
            assert(pieces[0] == chars@.subrange(at as int, end as int));
        }
        if end == to && v4_tail {
            if let Some(bits) = parse_v4(chars, at, end) {
                let ghost before = groups@;
                groups.push((bits / 65536) as u16);
                groups.push((bits % 65536) as u16);
                assert(nats(groups@) =~= nats(before) + seq![
                    bits as nat / 65536,
                    bits as nat % 65536,
                ]);
                return Some(groups);
            }
        }
        match parse_group(chars, at, end) {
            Some(group) => {
                let ghost before = groups@;
                groups.push(group);
                proof {
                    let tail = piece_groups(pieces.skip(1), v4_tail);
                    if tail is Some {
                        assert(nats(before) + (seq![group as nat] + tail->0) =~= nats(groups@)
                            + tail->0);
                    }
                }
                if end == to {
                    assert(nats(groups@) + Seq::<nat>::empty() =~= nats(groups@));
                    return Some(groups);
                }
            },
            None => {
                return None;
            },
        }
        at = end + 1;
    }
}

/// The first `::` of `s` stands at `at`, or nowhere.
proof fn double_colon_is(s: Seq<char>, at: int)
    requires
        0 <= at <= s.len(),
        forall|i: int| 0 <= i < at && i + 1 < s.len() ==> !(#[trigger] s[i] == ':' && s[i + 1] == ':'),
        at == s.len() || (at + 1 < s.len() && s[at] == ':' && s[at + 1] == ':'),
    ensures
        double_colon(s) == at,
    decreases s.len(),
{
    if s.len() >= 2 && at > 0 {
        let t = s.skip(1);
        assert forall|i: int| 0 <= i < at - 1 && i + 1 < t.len() implies !(#[trigger] t[i] == ':'
            && t[i + 1] == ':') by {
            assert(t[i] == s[i + 1] && t[i + 1] == s[i + 2]);
        }
        assert(!(s[0] == ':' && s[1] == ':'));
        double_colon_is(t, at - 1);
    }
}

fn find_double_colon(chars: &Vec<char>) -> (at: usize)
    ensures
        at == double_colon(chars@),
        at < chars@.len() ==> at + 2 <= chars@.len(),
{
    let len: usize = chars.len();
    let mut at: usize = 0;
    while at < len && len - at >= 2
        invariant
            at <= len,
            len == chars@.len(),
            forall|i: int|
                0 <= i < at && i + 1 < len ==> !(#[trigger] chars@[i] == ':' && chars@[i + 1]
                    == ':'),
        decreases len - at,
    {
        if chars[at] == ':' && chars[at + 1] == ':' {
            proof {
                double_colon_is(chars@, at as int);
            }
            return at;
        }
        at = at + 1;
    }
    proof {
        double_colon_is(chars@, len as int);
    }
    len
}

fn value_of_groups(groups: &Vec<u16>) -> (value: u128)
    requires
        groups@.len() == 8,
    ensures
        value == groups_value(nats(groups@)),
{
    let mut value: u128 = 0;
    let mut i: usize = 0;
    while i < 8
        invariant
            i <= 8,
            groups@.len() == 8,
            value == groups_value(nats(groups@.subrange(0, i as int))),
            value < byte_range((2 * i) as nat),
        decreases 8 - i,
    {
        proof {
            let next = nats(groups@.subrange(0, i + 1));
            assert(next.drop_last() =~= nats(groups@.subrange(0, i as int)));
            assert(next.last() == groups@[i as int] as nat);
            reveal_with_fuel(byte_range, 3);
            assert(byte_range((2 * i + 2) as nat) == 65536 * byte_range((2 * i) as nat));
            byte_range_grows((2 * i + 2) as nat, 16);
            assert(byte_range(16) == 0x1_0000_0000_0000_0000_0000_0000_0000_0000) by {
                reveal_with_fuel(byte_range, 17);
            }
        }
        value = value * 65536 + groups[i] as u128;
        i = i + 1;
    }
    assert(groups@.subrange(0, 8) =~= groups@);
    value
}

fn parse_v6(chars: &Vec<char>) -> (value: Option<u128>)
    ensures
        value == ipv6_value(chars@),
{
    let len: usize = chars.len();
    let at: usize = find_double_colon(chars);
    assert(chars@.subrange(0, len as int) =~= chars@);
    if at >= len {
        return match parse_groups(chars, 0, len, true) {
            Some(groups) => if groups.len() == 8 {
                Some(value_of_groups(&groups))
            } else {
                None
            },
            None => None,
        };
    }
    assert(chars@.subrange(at + 2, len as int) =~= chars@.skip(at + 2));
    let head: Vec<u16> = match parse_groups(chars, 0, at, false) {
        Some(groups) => groups,
        None => {
            return None;
        },
    };
    let tail: Vec<u16> = match parse_groups(chars, at + 2, len, true) {
        Some(groups) => groups,
        None => {
            return None;
        },
    };
    if head.len() > 7 || tail.len() > 7 - head.len() {
        return None;
    }
    let mut groups: Vec<u16> = Vec::new();
    let mut i: usize = 0;
    while i < head.len()
        invariant
            i <= head@.len(),
            groups@ == head@.subrange(0, i as int),
        decreases head@.len() - i,
    {
        groups.push(head[i]);
        i = i + 1;
        assert(groups@ =~= head@.subrange(0, i as int));
    }
    assert(groups@ =~= head@);
    while groups.len() < 8 - tail.len()
        invariant
            head@.len() + tail@.len() <= 7,
            head@.len() <= groups@.len() <= 8 - tail@.len(),
            groups@ == head@ + Seq::new((groups@.len() - head@.len()) as nat, |j: int| 0u16),
        decreases 8 - groups@.len(),
    {
        groups.push(0);
        assert(groups@ =~= head@ + Seq::new(
            (groups@.len() - head@.len()) as nat,
            |j: int| 0u16,
        ));
    }
    let ghost padded = groups@;
    i = 0;
    while i < tail.len()
        invariant
            i <= tail@.len(),
            groups@ == padded + tail@.subrange(0, i as int),
        decreases tail@.len() - i,
    {
        groups.push(tail[i]);
        i = i + 1;
        assert(groups@ =~= padded + tail@.subrange(0, i as int));
    }
    proof {
        let missing = (8 - head@.len() - tail@.len()) as nat;
        assert(nats(groups@) =~= nats(head@) + Seq::new(missing, |j: int| 0nat) + nats(tail@));
    }
    Some(value_of_groups(&groups))
}

/// Parses an address literal held in `chars`.
pub fn parse_ip_chars(chars: &Vec<char>) -> (ip: Option<IpAddr>)
    ensures
        ip == ip_value(chars@),
{
    assert(chars@.subrange(0, chars.len() as int) =~= chars@);
    match parse_v4(chars, 0, chars.len()) {
        Some(bits) => Some(IpAddr::V4(bits)),
        None => match parse_v6(chars) {
            Some(bits) => Some(IpAddr::V6(bits)),
            None => None,
        },
    }
}

/// Parses an address literal.
pub fn parse_ip(text: &str) -> (ip: Option<IpAddr>)
    ensures
        ip == ip_value(text@),
{
    let chars: Vec<char> = chars_of(text);
    parse_ip_chars(&chars)
}

} // verus!
