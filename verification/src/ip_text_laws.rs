//! What holds of address literals: which texts are addresses, and which.

use vstd::prelude::*;
use crate::ip::IpAddr;
use crate::ip_text::{
    double_colon, group_value, groups_in, groups_value, hex_digit, hex_value, ip_value, ipv4_value,
    ipv6_value, octet_value, piece_groups, split,
};
use crate::text::{
    all_digits, decimal, decimal_value, index_of, index_of_bounds, index_of_is, is_digit,
};
use crate::vm_spec::{decimal_is_digits, decimal_spells_the_number};

verus! {

/// `pieces` with a `c` between each two.
pub open spec fn joined_by(pieces: Seq<Seq<char>>, c: char) -> Seq<char>
    decreases pieces.len(),
{
    if pieces.len() == 0 {
        Seq::empty()
    } else if pieces.len() == 1 {
        pieces[0]
    } else {
        pieces[0] + seq![c] + joined_by(pieces.skip(1), c)
    }
}

proof fn first_piece(piece: Seq<char>, rest: Seq<char>, c: char)
    requires
        !piece.contains(c),
    ensures
        split(piece, c) == seq![piece],
        split(piece + seq![c] + rest, c) == seq![piece] + split(rest, c),
{
    let whole = piece + seq![c] + rest;
    assert forall|i: int| 0 <= i < piece.len() implies piece[i] != c && whole[i] != c by {
        assert(whole[i] == piece[i]);
        assert(piece.contains(piece[i]));
    }
    index_of_is(piece, c, piece.len() as int);
    assert(whole[piece.len() as int] == c);
    index_of_is(whole, c, piece.len() as int);
    assert(whole.subrange(0, piece.len() as int) =~= piece);
    assert(whole.skip(piece.len() as int + 1) =~= rest);
}

/// Splitting at `c` undoes joining by `c`, where no piece holds one.
pub proof fn joined_pieces_split(pieces: Seq<Seq<char>>, c: char)
    requires
        pieces.len() > 0,
        forall|i: int| 0 <= i < pieces.len() ==> !(#[trigger] pieces[i]).contains(c),
    ensures
        split(joined_by(pieces, c), c) == pieces,
    decreases pieces.len(),
{
    assert(!pieces[0].contains(c));
    if pieces.len() == 1 {
        first_piece(pieces[0], Seq::empty(), c);
        assert(pieces =~= seq![pieces[0]]);
    } else {
        let rest = pieces.skip(1);
        assert forall|i: int| 0 <= i < rest.len() implies !(#[trigger] rest[i]).contains(c) by {
            assert(rest[i] == pieces[i + 1]);
        }
        joined_pieces_split(rest, c);
        first_piece(pieces[0], joined_by(rest, c), c);
        assert(seq![pieces[0]] + rest =~= pieces);
    }
}

proof fn before_the_first(s: Seq<char>, c: char)
    ensures
        0 <= index_of(s, c) <= s.len(),
        !s.subrange(0, index_of(s, c)).contains(c),
        index_of(s, c) < s.len() ==> s[index_of(s, c)] == c,
    decreases s.len(),
{
    index_of_bounds(s, c);
    let at = index_of(s, c);
    if s.len() > 0 && s[0] != c {
        let rest = s.skip(1);
        before_the_first(rest, c);
        let head = s.subrange(0, at);
        assert forall|i: int| 0 <= i < head.len() implies head[i] != c by {
            if i > 0 {
                assert(head[i] == rest.subrange(0, at - 1)[i - 1]);
                assert(rest.subrange(0, at - 1).contains(rest.subrange(0, at - 1)[i - 1]));
            }
        }
        if at < s.len() {
            assert(s[at] == rest[at - 1]);
        }
    }
}

/// Joining by `c` undoes splitting at `c`, and no piece of a split holds one.
pub proof fn split_pieces_join(s: Seq<char>, c: char)
    ensures
        joined_by(split(s, c), c) == s,
        split(s, c).len() > 0,
        forall|i: int| 0 <= i < split(s, c).len() ==> !(#[trigger] split(s, c)[i]).contains(c),
    decreases s.len(),
{
    let at = index_of(s, c);
    before_the_first(s, c);
    let pieces = split(s, c);
    if at >= s.len() {
        assert(s.subrange(0, at) =~= s);
    } else {
        let rest = s.skip(at + 1);
        split_pieces_join(rest, c);
        assert(pieces.skip(1) =~= split(rest, c));
        assert(s =~= s.subrange(0, at) + seq![c] + rest);
        assert forall|i: int| 0 <= i < pieces.len() implies !(#[trigger] pieces[i]).contains(c) by {
            if i > 0 {
                assert(pieces[i] == split(rest, c)[i - 1]);
            }
        }
    }
}

proof fn digits_are_unique(s: Seq<char>)
    requires
        s.len() > 0,
        all_digits(s),
        s[0] == '0' ==> s.len() == 1,
    ensures
        decimal(decimal_value(s)) == s,
        s[0] != '0' ==> decimal_value(s) > 0,
    decreases s.len(),
{
    let front = s.drop_last();
    let low = (s.last() as nat - 48) as nat;
    assert(is_digit(s.last()));
    reveal_with_fuel(decimal_value, 2);
    if s.len() == 1 {
        assert(front =~= Seq::empty());
        assert(decimal_value(s) == low);
        assert(decimal(low) =~= s);
    } else {
        assert forall|i: int| 0 <= i < front.len() implies is_digit(#[trigger] front[i]) by {
            assert(is_digit(s[i]));
        }
        assert(front[0] == s[0]);
        digits_are_unique(front);
        let n = decimal_value(s);
        assert(n / 10 == decimal_value(front) && n % 10 == low);
        assert(decimal(n) =~= s);
    }
}

/// An octet in dotted text is a number up to 255 in plain decimal, and nothing
/// else: no sign, no leading zero, nothing empty.
pub proof fn octets_are_plain_decimal(s: Seq<char>, value: nat)
    ensures
        octet_value(s) == Some(value) <==> value <= 255 && s == decimal(value),
{
    if octet_value(s) is Some {
        digits_are_unique(s);
    }
    if value <= 255 && s == decimal(value) {
        decimal_is_digits(value);
        decimal_spells_the_number(value);
        reveal_with_fuel(decimal, 4);
        assert(s.len() <= 3);
    }
}

/// The dotted text of an IPv4 address.
pub open spec fn quad_text(a: u8, b: u8, c: u8, d: u8) -> Seq<char> {
    joined_by(
        seq![decimal(a as nat), decimal(b as nat), decimal(c as nat), decimal(d as nat)],
        '.',
    )
}

proof fn digits_hold_no_other(s: Seq<char>, c: char)
    requires
        all_digits(s),
        !is_digit(c),
    ensures
        !s.contains(c),
{
    if s.contains(c) {
        let i = choose|i: int| 0 <= i < s.len() && s[i] == c;
        assert(is_digit(s[i]));
    }
}

/// IPv4 literals, exactly: the four octets in plain decimal, with dots between
/// them, the first one the highest; and no other text is one.
pub proof fn quads_are_read_exactly(s: Seq<char>, a: u8, b: u8, c: u8, d: u8)
    ensures
        ipv4_value(s) == Some((a * 16777216 + b * 65536 + c * 256 + d) as u32) <==> s == quad_text(
            a,
            b,
            c,
            d,
        ),
{
    let texts = seq![decimal(a as nat), decimal(b as nat), decimal(c as nat), decimal(d as nat)];
    decimal_is_digits(a as nat);
    decimal_is_digits(b as nat);
    decimal_is_digits(c as nat);
    decimal_is_digits(d as nat);
    assert forall|i: int| 0 <= i < texts.len() implies !(#[trigger] texts[i]).contains('.') by {
        digits_hold_no_other(texts[i], '.');
    }
    joined_pieces_split(texts, '.');
    octets_are_plain_decimal(texts[0], a as nat);
    octets_are_plain_decimal(texts[1], b as nat);
    octets_are_plain_decimal(texts[2], c as nat);
    octets_are_plain_decimal(texts[3], d as nat);
    if ipv4_value(s) == Some((a * 16777216 + b * 65536 + c * 256 + d) as u32) {
        let parts = split(s, '.');
        split_pieces_join(s, '.');
        let v0 = octet_value(parts[0])->0;
        let v1 = octet_value(parts[1])->0;
        let v2 = octet_value(parts[2])->0;
        let v3 = octet_value(parts[3])->0;
        octets_are_plain_decimal(parts[0], v0);
        octets_are_plain_decimal(parts[1], v1);
        octets_are_plain_decimal(parts[2], v2);
        octets_are_plain_decimal(parts[3], v3);
        assert(((v0 * 256 + v1) * 256 + v2) * 256 + v3 == a * 16777216 + b * 65536 + c * 256 + d);
        assert(v0 == a && v1 == b && v2 == c && v3 == d);
        assert(parts =~= texts);
    }
}

/// A hexadecimal digit counts as its place in `0` to `9` and `a` to `f`, in
/// either case; digits in a row count by place.
pub proof fn hex_digits_count_by_place(c: char, n: nat, front: Seq<char>)
    ensures
        n < 10 ==> (hex_digit(c) == n <==> c as nat == '0' as nat + n),
        10 <= n < 16 ==> (hex_digit(c) == n <==> c as nat == 'a' as nat + n - 10 || c as nat
            == 'A' as nat + n - 10),
        hex_value(seq![c]) == hex_digit(c),
        hex_value(front.push(c)) == 16 * hex_value(front) + hex_digit(c),
{
    reveal_with_fuel(hex_value, 2);
    assert(seq![c].drop_last() =~= Seq::empty());
    assert(front.push(c).drop_last() =~= front);
}

/// Groups in a row count by place, the first one the highest.
pub proof fn groups_count_by_place(groups: Seq<nat>, group: nat)
    ensures
        groups_value(Seq::empty()) == 0,
        groups_value(groups.push(group)) == 65536 * groups_value(groups) + group,
{
    assert(groups.push(group).drop_last() =~= groups);
}

/// Whether `pieces` mean `values`: one to four hexadecimal digits mean a group,
/// and where `quad` holds, the last piece is a dotted address and means two.
pub open spec fn pieces_mean(pieces: Seq<Seq<char>>, quad: bool, values: Seq<nat>) -> bool {
    let plain = pieces.len() - (if quad {
        1int
    } else {
        0
    });
    &&& plain >= 0
    &&& values.len() == plain + (if quad {
        2int
    } else {
        0
    })
    &&& forall|i: int| 0 <= i < plain ==> is_group(#[trigger] pieces[i], values[i])
    &&& quad ==> ipv4_value(pieces.last()) == Some(
        (values[plain] * 65536 + values[plain + 1]) as u32,
    ) && values[plain] < 65536 && values[plain + 1] < 65536
}

/// Whether `s` is one to four hexadecimal digits that spell `value`.
pub open spec fn is_group(s: Seq<char>, value: nat) -> bool {
    &&& 1 <= s.len() <= 4
    &&& forall|i: int| 0 <= i < s.len() ==> hex_digit(#[trigger] s[i]) < 16
    &&& value == hex_value(s)
}

proof fn group_is_its_value(s: Seq<char>, value: nat)
    ensures
        group_value(s) == Some(value) <==> is_group(s, value),
{
    if forall|i: int| 0 <= i < s.len() ==> hex_digit(#[trigger] s[i]) < 16 {
        assert forall|i: int| 0 <= i < s.len() implies #[trigger] hex_digit(s[i]) < 16 by {}
    }
    if group_value(s) is Some {
        assert forall|i: int| 0 <= i < s.len() implies hex_digit(#[trigger] s[i]) < 16 by {
            assert(hex_digit(s[i]) < 16);
        }
    }
}

proof fn groups_hold_no(s: Seq<char>, value: nat, c: char)
    requires
        is_group(s, value),
        hex_digit(c) >= 16,
    ensures
        !s.contains(c),
{
    if s.contains(c) {
        let i = choose|i: int| 0 <= i < s.len() && s[i] == c;
        assert(hex_digit(s[i]) < 16);
    }
}

proof fn quads_hold_dots(s: Seq<char>)
    requires
        ipv4_value(s) is Some,
    ensures
        s.contains('.'),
        !s.contains(':'),
{
    let parts = split(s, '.');
    if !s.contains('.') {
        first_piece(s, Seq::empty(), '.');
    }
    split_pieces_join(s, '.');
    assert forall|i: int| 0 <= i < parts.len() implies !(#[trigger] parts[i]).contains(':') by {
        assert(octet_value(parts[i]) is Some);
        digits_hold_no_other(parts[i], ':');
    }
    joined_holds_no(parts, '.', ':');
}

proof fn joined_holds_no(pieces: Seq<Seq<char>>, c: char, other: char)
    requires
        c != other,
        forall|i: int| 0 <= i < pieces.len() ==> !(#[trigger] pieces[i]).contains(other),
    ensures
        !joined_by(pieces, c).contains(other),
    decreases pieces.len(),
{
    if pieces.len() == 1 {
        assert(!pieces[0].contains(other));
    } else if pieces.len() > 1 {
        let rest = pieces.skip(1);
        assert forall|i: int| 0 <= i < rest.len() implies !(#[trigger] rest[i]).contains(
            other,
        ) by {
            assert(rest[i] == pieces[i + 1]);
        }
        joined_holds_no(rest, c, other);
        let whole = joined_by(pieces, c);
        assert(!pieces[0].contains(other));
        if whole.contains(other) {
            let i = choose|i: int| 0 <= i < whole.len() && whole[i] == other;
            let n = pieces[0].len() as int;
            if i < n {
                assert(pieces[0][i] == other);
                assert(pieces[0].contains(other));
            } else if i > n {
                assert(joined_by(rest, c)[i - n - 1] == other);
                assert(joined_by(rest, c).contains(other));
            }
        }
    }
}

proof fn pieces_are_read(pieces: Seq<Seq<char>>, v4_tail: bool, values: Seq<nat>)
    ensures
        piece_groups(pieces, v4_tail) == Some(values) <==> pieces_mean(pieces, false, values) || (
        v4_tail && pieces_mean(pieces, true, values)),
    decreases pieces.len(),
{
    if pieces.len() == 0 {
        if pieces_mean(pieces, false, values) {
            assert(values =~= Seq::empty());
        }
    } else if pieces.len() == 1 && v4_tail && ipv4_value(pieces[0]) is Some {
        let bits = ipv4_value(pieces[0])->0 as nat;
        quads_hold_dots(pieces[0]);
        if pieces_mean(pieces, false, values) {
            assert(is_group(pieces[0], values[0]));
            groups_hold_no(pieces[0], values[0], '.');
        }
        if pieces_mean(pieces, true, values) {
            assert(values =~= seq![bits / 65536, bits % 65536]);
        }
        if values == seq![bits / 65536, bits % 65536] {
            assert(values[0] * 65536 + values[1] == bits);
        }
    } else {
        let rest = pieces.skip(1);
        let later = values.skip(1);
        pieces_are_read(rest, v4_tail, later);
        if values.len() > 0 {
            group_is_its_value(pieces[0], values[0]);
            assert(seq![values[0]] + later =~= values);
        }
        if piece_groups(pieces, v4_tail) == Some(values) {
            let group = group_value(pieces[0])->0;
            let others = piece_groups(rest, v4_tail)->0;
            assert(values == seq![group] + others);
            assert(values[0] == group);
            assert(later =~= others);
            means_step(pieces, values, false);
            means_step(pieces, values, true);
        }
        if pieces_mean(pieces, false, values) {
            assert(is_group(pieces[0], values[0]));
            means_step(pieces, values, false);
        }
        if v4_tail && pieces_mean(pieces, true, values) {
            if pieces.len() > 1 {
                assert(is_group(pieces[0], values[0]));
                means_step(pieces, values, true);
            }
        }
    }
}

proof fn means_step(pieces: Seq<Seq<char>>, values: Seq<nat>, quad: bool)
    requires
        pieces.len() > 0,
        values.len() > 0,
    ensures
        is_group(pieces[0], values[0]) && pieces_mean(pieces.skip(1), quad, values.skip(1))
            ==> pieces_mean(pieces, quad, values),
        pieces_mean(pieces, quad, values) && (pieces.len() > 1 || !quad) ==> pieces_mean(
            pieces.skip(1),
            quad,
            values.skip(1),
        ),
{
    let rest = pieces.skip(1);
    let later = values.skip(1);
    let plain = pieces.len() - (if quad {
        1int
    } else {
        0
    });
    if is_group(pieces[0], values[0]) && pieces_mean(rest, quad, later) {
        assert forall|i: int| 0 <= i < plain implies is_group(#[trigger] pieces[i], values[i]) by {
            if i > 0 {
                assert(is_group(rest[i - 1], later[i - 1]));
            }
        }
    }
    if pieces_mean(pieces, quad, values) && (pieces.len() > 1 || !quad) {
        assert forall|i: int| 0 <= i < plain - 1 implies is_group(#[trigger] rest[i], later[i]) by {
            assert(is_group(pieces[i + 1], values[i + 1]));
        }
    }
}

/// The text of an IPv6 address: groups with colons between them, or groups, a
/// double colon, and groups.
pub open spec fn v6_text(
    head: Seq<Seq<char>>,
    short: bool,
    tail: Seq<Seq<char>>,
) -> Seq<char> {
    if short {
        joined_by(head, ':') + seq![':', ':'] + joined_by(tail, ':')
    } else {
        joined_by(head, ':')
    }
}

/// Whether groups `front` and `back` make an address: eight in all, or at most
/// seven where a double colon stands for the missing ones.
pub open spec fn v6_groups(front: Seq<nat>, short: bool, back: Seq<nat>) -> Seq<nat> {
    if short {
        front + Seq::new((8 - front.len() - back.len()) as nat, |i: int| 0nat) + back
    } else {
        front
    }
}

/// Whether the pieces of an IPv6 text mean the groups `front` and `back`. Only
/// the very last piece can be a dotted address.
pub open spec fn v6_means(
    head: Seq<Seq<char>>,
    front: Seq<nat>,
    short: bool,
    tail: Seq<Seq<char>>,
    back: Seq<nat>,
    quad: bool,
) -> bool {
    if short {
        &&& pieces_mean(head, false, front)
        &&& pieces_mean(tail, quad, back)
        &&& front.len() + back.len() <= 7
    } else {
        &&& pieces_mean(head, quad, front)
        &&& tail.len() == 0
        &&& back.len() == 0
        &&& front.len() == 8
    }
}

/// Pieces that mean something hold no colon and are not empty.
proof fn meaningful_pieces(pieces: Seq<Seq<char>>, quad: bool, values: Seq<nat>, i: int)
    requires
        pieces_mean(pieces, quad, values),
        0 <= i < pieces.len(),
    ensures
        !pieces[i].contains(':'),
        pieces[i].len() > 0,
{
    if quad && i == pieces.len() - 1 {
        quads_hold_dots(pieces[i]);
    } else {
        assert(is_group(pieces[i], values[i]));
        groups_hold_no(pieces[i], values[i], ':');
    }
}

/// A text of pieces without colons that are not empty has no double colon.
proof fn no_double_colon(pieces: Seq<Seq<char>>, behind: Seq<char>)
    requires
        pieces.len() > 0,
        forall|i: int|
            0 <= i < pieces.len() ==> !(#[trigger] pieces[i]).contains(':') && pieces[i].len() > 0,
        behind.len() >= 2 ==> behind[0] == ':' && behind[1] == ':',
        behind.len() != 1,
    ensures
        double_colon(joined_by(pieces, ':') + behind) == joined_by(pieces, ':').len(),
        joined_by(pieces, ':').len() > 0,
        joined_by(pieces, ':')[0] != ':',
    decreases pieces.len(),
{
    let first = pieces[0];
    assert(!first.contains(':'));
    assert(first.contains(first[0]));
    if pieces.len() == 1 {
        walk(first, behind);
        if behind.len() == 0 {
            assert(first + behind =~= first);
        }
    } else {
        let rest = pieces.skip(1);
        assert forall|i: int| 0 <= i < rest.len() implies !(#[trigger] rest[i]).contains(':')
            && rest[i].len() > 0 by {
            assert(rest[i] == pieces[i + 1]);
        }
        no_double_colon(rest, behind);
        let later = joined_by(rest, ':') + behind;
        let colon = seq![':'] + later;
        assert(joined_by(pieces, ':') + behind =~= first + colon);
        assert(later[0] == joined_by(rest, ':')[0]);
        assert(colon.skip(1) =~= later);
        assert(double_colon(colon) == 1 + double_colon(later));
        walk(first, colon);
    }
}

/// Characters that are no colons are walked over.
proof fn walk(piece: Seq<char>, behind: Seq<char>)
    requires
        !piece.contains(':'),
    ensures
        double_colon(piece + behind) == piece.len() + double_colon(behind),
    decreases piece.len(),
{
    let whole = piece + behind;
    if piece.len() == 0 {
        assert(whole =~= behind);
    } else {
        let rest = piece.skip(1);
        assert(piece.contains(piece[0]));
        assert(whole[0] == piece[0]);
        assert(!rest.contains(':')) by {
            if rest.contains(':') {
                let i = choose|i: int| 0 <= i < rest.len() && rest[i] == ':';
                assert(piece[i + 1] == ':');
            }
        }
        assert(whole.skip(1) =~= rest + behind);
        walk(rest, behind);
        if whole.len() < 2 {
            assert(behind.len() == 0);
        }
    }
}

proof fn joined_pieces_are_read(pieces: Seq<Seq<char>>, v4_tail: bool, quad: bool, values: Seq<nat>)
    requires
        pieces_mean(pieces, quad, values),
        quad ==> v4_tail,
    ensures
        groups_in(joined_by(pieces, ':'), v4_tail) == Some(values),
{
    let text = joined_by(pieces, ':');
    if pieces.len() == 0 {
        assert(values =~= Seq::empty());
    } else {
        assert forall|i: int| 0 <= i < pieces.len() implies !(#[trigger] pieces[i]).contains(':')
            && pieces[i].len() > 0 by {
            meaningful_pieces(pieces, quad, values, i);
        }
        joined_pieces_split(pieces, ':');
        no_double_colon(pieces, Seq::empty());
        pieces_are_read(pieces, v4_tail, values);
    }
}

proof fn read_pieces_were_joined(s: Seq<char>, v4_tail: bool, values: Seq<nat>)
    requires
        groups_in(s, v4_tail) == Some(values),
    ensures
        exists|pieces: Seq<Seq<char>>, quad: bool|
            #[trigger] pieces_mean(pieces, quad, values) && (quad ==> v4_tail) && joined_by(
                pieces,
                ':',
            ) == s,
{
    if s.len() == 0 {
        let none = Seq::<Seq<char>>::empty();
        assert(pieces_mean(none, false, values));
        assert(joined_by(none, ':') =~= s);
    } else {
        let pieces = split(s, ':');
        split_pieces_join(s, ':');
        pieces_are_read(pieces, v4_tail, values);
        if pieces_mean(pieces, false, values) {
            assert(joined_by(pieces, ':') == s);
        } else {
            assert(pieces_mean(pieces, true, values));
        }
    }
}

/// IPv6 literals that are well formed are read: eight groups, or fewer around
/// one double colon, which stands for zeros; and the last two groups may be a
/// dotted IPv4 address.
pub proof fn v6_literals_are_read(
    head: Seq<Seq<char>>,
    front: Seq<nat>,
    short: bool,
    tail: Seq<Seq<char>>,
    back: Seq<nat>,
    quad: bool,
)
    requires
        v6_means(head, front, short, tail, back, quad),
    ensures
        ipv6_value(v6_text(head, short, tail)) == Some(
            groups_value(v6_groups(front, short, back)) as u128,
        ),
{
    let s = v6_text(head, short, tail);
    if short {
        let left = joined_by(head, ':');
        let behind = seq![':', ':'] + joined_by(tail, ':');
        assert(s =~= left + behind);
        if head.len() > 0 {
            assert forall|i: int| 0 <= i < head.len() implies !(#[trigger] head[i]).contains(':')
                && head[i].len() > 0 by {
                meaningful_pieces(head, false, front, i);
            }
            no_double_colon(head, behind);
        } else {
            assert(left + behind =~= behind);
        }
        let at = double_colon(s);
        assert(at == left.len());
        assert(s.subrange(0, at) =~= left);
        assert(s.skip(at + 2) =~= joined_by(tail, ':'));
        joined_pieces_are_read(head, false, false, front);
        joined_pieces_are_read(tail, true, quad, back);
    } else {
        assert forall|i: int| 0 <= i < head.len() implies !(#[trigger] head[i]).contains(':')
            && head[i].len() > 0 by {
            meaningful_pieces(head, quad, front, i);
        }
        no_double_colon(head, Seq::empty());
        assert(s + Seq::<char>::empty() =~= s);
        joined_pieces_are_read(head, true, quad, front);
    }
}

/// Whatever is read as an IPv6 address is such a literal.
pub proof fn v6_literals_are_well_formed(s: Seq<char>)
    requires
        ipv6_value(s) is Some,
    ensures
        exists|
            head: Seq<Seq<char>>,
            front: Seq<nat>,
            short: bool,
            tail: Seq<Seq<char>>,
            back: Seq<nat>,
            quad: bool,
        |
            #[trigger] v6_means(head, front, short, tail, back, quad) && s == v6_text(
                head,
                short,
                tail,
            ) && ipv6_value(s) == Some(groups_value(v6_groups(front, short, back)) as u128),
{
    let at = double_colon(s);
    double_colon_bounds(s);
    if at >= s.len() {
        let front = groups_in(s, true)->0;
        read_pieces_were_joined(s, true, front);
        let (head, quad) = choose|pieces: Seq<Seq<char>>, quad: bool|
            #[trigger] pieces_mean(pieces, quad, front) && joined_by(pieces, ':') == s;
        let none = Seq::<Seq<char>>::empty();
        assert(v6_means(head, front, false, none, Seq::empty(), quad));
        assert(s == v6_text(head, false, none));
    } else {
        let left = s.subrange(0, at);
        let right = s.skip(at + 2);
        let front = groups_in(left, false)->0;
        let back = groups_in(right, true)->0;
        read_pieces_were_joined(left, false, front);
        read_pieces_were_joined(right, true, back);
        let (head, plain) = choose|pieces: Seq<Seq<char>>, quad: bool|
            #[trigger] pieces_mean(pieces, quad, front) && (quad ==> false) && joined_by(
                pieces,
                ':',
            ) == left;
        let (tail, quad) = choose|pieces: Seq<Seq<char>>, quad: bool|
            #[trigger] pieces_mean(pieces, quad, back) && joined_by(pieces, ':') == right;
        assert(v6_means(head, front, true, tail, back, quad));
        assert(s =~= v6_text(head, true, tail));
    }
}

proof fn double_colon_bounds(s: Seq<char>)
    ensures
        0 <= double_colon(s) <= s.len(),
        double_colon(s) < s.len() ==> double_colon(s) + 2 <= s.len() && s[double_colon(s)] == ':'
            && s[double_colon(s) + 1] == ':',
    decreases s.len(),
{
    if s.len() >= 2 && !(s[0] == ':' && s[1] == ':') {
        double_colon_bounds(s.skip(1));
    }
}

/// A text is an IPv4 literal or an IPv6 one, never both, and is read as what it
/// is; a text that is neither is no address.
pub proof fn literals_are_of_one_family(s: Seq<char>)
    ensures
        ipv4_value(s) matches Some(bits) ==> ip_value(s) == Some(IpAddr::V4(bits)) && ipv6_value(
            s,
        ) is None,
        ipv6_value(s) matches Some(bits) ==> ip_value(s) == Some(IpAddr::V6(bits)) && ipv4_value(
            s,
        ) is None,
        ipv4_value(s) is None && ipv6_value(s) is None ==> ip_value(s) is None,
{
    if ipv4_value(s) is Some && ipv6_value(s) is Some {
        quads_hold_dots(s);
        v6_literals_are_well_formed(s);
        let (head, front, short, tail, back, quad) = choose|
            head: Seq<Seq<char>>,
            front: Seq<nat>,
            short: bool,
            tail: Seq<Seq<char>>,
            back: Seq<nat>,
            quad: bool,
        |
            #[trigger] v6_means(head, front, short, tail, back, quad) && s == v6_text(
                head,
                short,
                tail,
            );
        if short {
            let n = joined_by(head, ':').len() as int;
            assert(s[n] == ':');
            assert(s.contains(':'));
        } else {
            assert(head.len() >= 2);
            assert(s[head[0].len() as int] == ':');
            assert(s.contains(':'));
        }
    }
}

} // verus!
