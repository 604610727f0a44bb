//! What holds of text: numbers, case and white space.

use vstd::prelude::*;
use crate::text::{
    all_digits, decimal, decimal_value, index_of, index_of_bounds, is_digit, is_white_space,
    lowered, number_value, trimmed, trimmed_end, trimmed_start, uppered,
};
use crate::vm_spec::{decimal_is_digits, decimal_spells_the_number};

verus! {

/// Decimal digits count by place: each is its distance from `0`, and what
/// stands before it counts ten times.
pub proof fn digits_count_by_place(front: Seq<char>, c: char, n: nat)
    requires
        n < 10,
        c as nat == '0' as nat + n,
    ensures
        decimal_value(Seq::empty()) == 0,
        decimal_value(front.push(c)) == 10 * decimal_value(front) + n,
        is_digit(c),
{
    assert(front.push(c).drop_last() =~= front);
}

/// Numbers are read where they are digits, with or without a plus sign and with
/// or without leading zeros, and not above the limit.
pub proof fn numbers_are_read(n: nat, max: nat, zeros: Seq<char>, s: Seq<char>)
    requires
        forall|i: int| 0 <= i < zeros.len() ==> #[trigger] zeros[i] == '0',
    ensures
        number_value(zeros + decimal(n), max) == (if n <= max {
            Some(n)
        } else {
            None
        }),
        number_value(seq!['+'] + zeros + decimal(n), max) == (if n <= max {
            Some(n)
        } else {
            None
        }),
        number_value(s, max) matches Some(value) ==> value <= max && s.len() > 0 && (all_digits(s)
            && value == decimal_value(s) || s[0] == '+' && s.len() > 1 && all_digits(s.skip(1))
            && value == decimal_value(s.skip(1))),
{
    decimal_is_digits(n);
    decimal_spells_the_number(n);
    zeros_count_nothing(zeros, decimal(n));
    let digits = zeros + decimal(n);
    assert forall|i: int| 0 <= i < digits.len() implies is_digit(#[trigger] digits[i]) by {
        if i < zeros.len() {
            assert(digits[i] == zeros[i]);
        } else {
            assert(digits[i] == decimal(n)[i - zeros.len()]);
        }
    }
    assert(is_digit(digits[0]));
    let signed = seq!['+'] + zeros + decimal(n);
    assert(signed.skip(1) =~= digits);
}

proof fn zeros_count_nothing(zeros: Seq<char>, digits: Seq<char>)
    requires
        forall|i: int| 0 <= i < zeros.len() ==> #[trigger] zeros[i] == '0',
    ensures
        decimal_value(zeros + digits) == decimal_value(digits),
        decimal_value(zeros) == 0,
    decreases zeros.len() + digits.len(),
{
    let whole = zeros + digits;
    if digits.len() > 0 {
        zeros_count_nothing(zeros, digits.drop_last());
        assert(whole.drop_last() =~= zeros + digits.drop_last());
    } else {
        assert(whole =~= zeros);
        if zeros.len() > 0 {
            let fewer = zeros.drop_last();
            assert forall|i: int| 0 <= i < fewer.len() implies #[trigger] fewer[i] == '0' by {
                assert(zeros[i] == '0');
            }
            assert(zeros[zeros.len() - 1] == '0');
            zeros_count_nothing(fewer, Seq::empty());
            assert(fewer + Seq::<char>::empty() =~= fewer);
        }
    }
}

/// Case changes letter by letter: `A` to `Z` become `a` to `z` and back, in
/// order, and no other character changes.
pub proof fn letters_change_case_in_order(s: Seq<char>, i: int, n: nat)
    requires
        0 <= i < s.len(),
    ensures
        lowered(s).len() == s.len(),
        uppered(s).len() == s.len(),
        n < 26 && s[i] as nat == 'A' as nat + n ==> lowered(s)[i] as nat == 'a' as nat + n,
        n < 26 && s[i] as nat == 'a' as nat + n ==> uppered(s)[i] as nat == 'A' as nat + n,
        !('A' <= s[i] <= 'Z') ==> lowered(s)[i] == s[i],
        !('a' <= s[i] <= 'z') ==> uppered(s)[i] == s[i],
{
}

/// Trimming cuts off exactly the white space at both ends: what it leaves
/// neither begins nor ends with any, and stands in the text between nothing
/// else.
pub proof fn trimming_is_exact(before: Seq<char>, body: Seq<char>, after: Seq<char>)
    requires
        forall|i: int| 0 <= i < before.len() ==> is_white_space(#[trigger] before[i]),
        forall|i: int| 0 <= i < after.len() ==> is_white_space(#[trigger] after[i]),
        body.len() > 0 ==> !is_white_space(body[0]) && !is_white_space(body.last()),
    ensures
        trimmed(before + body + after) == body,
{
    trimmed_start_is_exact(before, body + after);
    assert(before + body + after =~= before + (body + after));
    if body.len() == 0 {
        assert(body + after =~= after);
        trimmed_start_is_exact(after, Seq::empty());
        assert(after + Seq::<char>::empty() =~= after);
        assert(trimmed_start(body + after) =~= body);
    } else {
        assert(trimmed_start(body + after) == body + after);
        trimmed_end_is_exact(body, after);
    }
}

proof fn trimmed_start_is_exact(before: Seq<char>, rest: Seq<char>)
    requires
        forall|i: int| 0 <= i < before.len() ==> is_white_space(#[trigger] before[i]),
    ensures
        trimmed_start(before + rest) == trimmed_start(rest),
    decreases before.len(),
{
    let whole = before + rest;
    if before.len() == 0 {
        assert(whole =~= rest);
    } else {
        let less = before.skip(1);
        assert forall|i: int| 0 <= i < less.len() implies is_white_space(#[trigger] less[i]) by {
            assert(is_white_space(before[i + 1]));
        }
        assert(is_white_space(before[0]));
        assert(whole.skip(1) =~= less + rest);
        trimmed_start_is_exact(less, rest);
    }
}

proof fn trimmed_end_is_exact(body: Seq<char>, after: Seq<char>)
    requires
        forall|i: int| 0 <= i < after.len() ==> is_white_space(#[trigger] after[i]),
        body.len() > 0,
        !is_white_space(body.last()),
    ensures
        trimmed_end(body + after) == body,
    decreases after.len(),
{
    let whole = body + after;
    if after.len() == 0 {
        assert(whole =~= body);
    } else {
        let less = after.drop_last();
        assert forall|i: int| 0 <= i < less.len() implies is_white_space(#[trigger] less[i]) by {
            assert(is_white_space(after[i]));
        }
        assert(is_white_space(after[after.len() - 1]));
        assert(whole.drop_last() =~= body + less);
        trimmed_end_is_exact(body, less);
    }
}

/// The characters that count as white space: tab to carriage return, space,
/// next line, no-break space, ogham space mark, en quad to hair space, line and
/// paragraph separator, narrow no-break space, medium mathematical space and
/// ideographic space.
pub proof fn white_space_characters(c: char)
    ensures
        is_white_space(c) <==> {
            ||| '\u{9}' <= c <= '\u{d}'
            ||| c == ' '
            ||| c == '\u{85}'
            ||| c == '\u{a0}'
            ||| c == '\u{1680}'
            ||| '\u{2000}' <= c <= '\u{200a}'
            ||| c == '\u{2028}'
            ||| c == '\u{2029}'
            ||| c == '\u{202f}'
            ||| c == '\u{205f}'
            ||| c == '\u{3000}'
        },
{
}

/// The place of a character is that of its first occurrence, or the end.
pub proof fn places_are_first(s: Seq<char>, c: char, i: int)
    ensures
        0 <= index_of(s, c) <= s.len(),
        0 <= i < index_of(s, c) ==> s[i] != c,
        index_of(s, c) < s.len() ==> s[index_of(s, c)] == c,
    decreases s.len(),
{
    index_of_bounds(s, c);
    if s.len() > 0 && s[0] != c {
        places_are_first(s.skip(1), c, i - 1);
        if 0 < i < index_of(s, c) {
            assert(s[i] == s.skip(1)[i - 1]);
        }
    }
}

} // verus!
