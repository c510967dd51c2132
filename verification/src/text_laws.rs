//! What holds of the text helpers: the order of texts, trimming, case and the digits of numbers.

use crate::text::{
    ascii_lower, ascii_lowered, decimal_digits, digit_char, hex_fixed, int_text, lex_le, trimmed,
    white_space,
};
use vstd::prelude::*;
use vstd::string::*;

verus! {

/// The order of texts is total: of two different texts exactly one comes first.
pub proof fn law_order_is_total(a: Seq<char>, b: Seq<char>)
    ensures
        lex_le(a, a),
        lex_le(a, b) || lex_le(b, a),
        lex_le(a, b) && lex_le(b, a) ==> a == b,
    decreases a.len(),
{
    if a.len() > 0 {
        if b.len() > 0 {
            law_order_is_total(a.drop_first(), b.drop_first());
            if a[0] == b[0] && a.drop_first() == b.drop_first() {
                assert(a =~= seq![a[0]] + a.drop_first());
                assert(b =~= seq![b[0]] + b.drop_first());
            }
        } else {
            law_order_is_total(a.drop_first(), Seq::empty());
        }
    } else if b.len() == 0 {
        assert(a =~= b);
    }
}

/// A text that comes before one that comes before a third comes before the third.
pub proof fn law_order_is_transitive(a: Seq<char>, b: Seq<char>, c: Seq<char>)
    requires
        lex_le(a, b),
        lex_le(b, c),
    ensures
        lex_le(a, c),
    decreases a.len(),
{
    if a.len() > 0 && b.len() > 0 && c.len() > 0 && a[0] == b[0] && b[0] == c[0] {
        law_order_is_transitive(a.drop_first(), b.drop_first(), c.drop_first());
    }
}

/// The first character in which two texts differ decides which comes first; a text comes before
/// those that it begins.
pub proof fn law_first_difference_decides(a: Seq<char>, b: Seq<char>, k: int)
    requires
        0 <= k <= a.len(),
        k <= b.len(),
        a.take(k) == b.take(k),
    ensures
        k < a.len() && k < b.len() && a[k] < b[k] ==> lex_le(a, b) && !lex_le(b, a),
        k == a.len() ==> lex_le(a, b),
        k == a.len() && k < b.len() ==> !lex_le(b, a),
    decreases k,
{
    if k > 0 {
        assert(a[0] == a.take(k)[0] && b[0] == b.take(k)[0]);
        assert(a.drop_first().take(k - 1) =~= a.take(k).drop_first());
        assert(b.drop_first().take(k - 1) =~= b.take(k).drop_first());
        law_first_difference_decides(a.drop_first(), b.drop_first(), k - 1);
    }
}

/// Every character is white space.
pub open spec fn blank(s: Seq<char>) -> bool {
    forall|i: int| 0 <= i < s.len() ==> white_space(#[trigger] s[i])
}

/// A text that neither begins nor ends with white space.
pub open spec fn bare(s: Seq<char>) -> bool {
    s.len() > 0 ==> !white_space(s[0]) && !white_space(s.last())
}

/// Trimming takes white space off the two ends of a text and nothing else: blank texts around one
/// that has none at its ends are left off, whatever that one holds inside.
pub proof fn law_trimming_takes_off_the_ends(before: Seq<char>, inner: Seq<char>, after: Seq<char>)
    requires
        blank(before),
        blank(after),
        bare(inner),
    ensures
        trimmed(before + inner + after) == inner,
    decreases before.len() + after.len(),
{
    let s = before + inner + after;
    if before.len() > 0 {
        assert(s[0] == before[0]);
        assert(s.drop_first() =~= before.drop_first() + inner + after);
        assert(blank(before.drop_first())) by {
            assert forall|i: int| 0 <= i < before.drop_first().len() implies white_space(
                #[trigger] before.drop_first()[i],
            ) by {
                assert(before.drop_first()[i] == before[i + 1]);
            }
        }
        law_trimming_takes_off_the_ends(before.drop_first(), inner, after);
    } else if inner.len() == 0 {
        assert(s =~= after);
        if after.len() > 0 {
            assert(s[0] == after[0]);
            assert(s.drop_first() =~= before + inner + after.drop_first());
            assert(blank(after.drop_first())) by {
                assert forall|i: int| 0 <= i < after.drop_first().len() implies white_space(
                    #[trigger] after.drop_first()[i],
                ) by {
                    assert(after.drop_first()[i] == after[i + 1]);
                }
            }
            law_trimming_takes_off_the_ends(before, inner, after.drop_first());
        } else {
            assert(s =~= inner);
        }
    } else if after.len() > 0 {
        assert(s[0] == inner[0]);
        assert(s.last() == after.last());
        assert(after.last() == after[after.len() - 1]);
        assert(s.drop_last() =~= before + inner + after.drop_last());
        assert(blank(after.drop_last())) by {
            assert forall|i: int| 0 <= i < after.drop_last().len() implies white_space(
                #[trigger] after.drop_last()[i],
            ) by {
                assert(after.drop_last()[i] == after[i]);
            }
        }
        law_trimming_takes_off_the_ends(before, inner, after.drop_last());
    } else {
        assert(s =~= inner);
    }
}

/// Every text is a trimmed one between two blank ones.
pub proof fn law_trimmed_lies_inside(s: Seq<char>) -> (r: (Seq<char>, Seq<char>))
    ensures
        blank(r.0),
        blank(r.1),
        bare(trimmed(s)),
        s == r.0 + trimmed(s) + r.1,
    decreases s.len(),
{
    if s.len() == 0 {
        assert(s =~= Seq::<char>::empty() + s + Seq::<char>::empty());
        (Seq::empty(), Seq::empty())
    } else if white_space(s[0]) {
        let (a, b) = law_trimmed_lies_inside(s.drop_first());
        let before = seq![s[0]] + a;
        assert(blank(before)) by {
            assert forall|i: int| 0 <= i < before.len() implies white_space(
                #[trigger] before[i],
            ) by {
                if i > 0 {
                    assert(before[i] == a[i - 1]);
                }
            }
        }
        assert(s =~= seq![s[0]] + s.drop_first());
        assert(s =~= before + trimmed(s) + b);
        (before, b)
    } else if white_space(s.last()) {
        let (a, b) = law_trimmed_lies_inside(s.drop_last());
        let after = b.push(s.last());
        assert(blank(after)) by {
            assert forall|i: int| 0 <= i < after.len() implies white_space(#[trigger] after[i]) by {
                if i < b.len() {
                    assert(after[i] == b[i]);
                }
            }
        }
        assert(s =~= s.drop_last().push(s.last()));
        assert(s =~= a + trimmed(s) + after);
        (a, after)
    } else {
        assert(s =~= Seq::<char>::empty() + s + Seq::<char>::empty());
        (Seq::empty(), Seq::empty())
    }
}

/// Of the ASCII characters, space and the five controls from tab to carriage return are white
/// space, and none of those that can be seen.
pub proof fn law_ascii_white_space(c: char)
    requires
        (c as u32) < 0x80,
    ensures
        white_space(c) <==> c == ' ' || c == '\t' || c == '\n' || c == '\r' || c as u32 == 0x0B
            || c as u32 == 0x0C,
        0x21 <= c as u32 <= 0x7E ==> !white_space(c),
{
}

/// Beyond ASCII, white space is the next line, the no-break space, the Ogham space mark, the spaces of
/// fixed width, the line and paragraph separators, the narrow and the mathematical space, and the
/// ideographic space.
pub proof fn law_other_white_space(c: char)
    requires
        c as u32 >= 0x80,
    ensures
        white_space(c) <==> seq![
            0x85u32,
            0xA0,
            0x1680,
            0x2000,
            0x2001,
            0x2002,
            0x2003,
            0x2004,
            0x2005,
            0x2006,
            0x2007,
            0x2008,
            0x2009,
            0x200A,
            0x2028,
            0x2029,
            0x202F,
            0x205F,
            0x3000,
        ].contains(c as u32),
{
    let spaces = seq![
        0x85u32,
        0xA0,
        0x1680,
        0x2000,
        0x2001,
        0x2002,
        0x2003,
        0x2004,
        0x2005,
        0x2006,
        0x2007,
        0x2008,
        0x2009,
        0x200A,
        0x2028,
        0x2029,
        0x202F,
        0x205F,
        0x3000,
    ];
    let u: u32 = c as u32;
    if white_space(c) {
        let i: int = if u == 0x85 {
            0
        } else if u == 0xA0 {
            1
        } else if u == 0x1680 {
            2
        } else if u <= 0x200A {
            u - 0x2000 + 3
        } else if u == 0x2028 {
            14
        } else if u == 0x2029 {
            15
        } else if u == 0x202F {
            16
        } else if u == 0x205F {
            17
        } else {
            18
        };
        assert(spaces[i] == u);
    }
}

/// The two characters are equal but for the case of an ASCII letter.
pub open spec fn same_letter(a: char, b: char) -> bool {
    ||| a == b
    ||| 'A' <= a <= 'Z' && b as u32 == a as u32 + 32
    ||| 'A' <= b <= 'Z' && a as u32 == b as u32 + 32
}

/// The two texts are equal but for the case of ASCII letters.
pub open spec fn same_letters(a: Seq<char>, b: Seq<char>) -> bool {
    a.len() == b.len() && forall|i: int|
        0 <= i < a.len() ==> same_letter(#[trigger] a[i], #[trigger] b[i])
}

/// Two texts have the same lower-case form exactly where they are equal but for the case of ASCII
/// letters; the lower-case form is one of these texts and holds no upper-case letter.
pub proof fn law_lower_case_ignores_case(a: Seq<char>, b: Seq<char>)
    ensures
        ascii_lowered(a) == ascii_lowered(b) <==> same_letters(a, b),
        same_letters(ascii_lowered(a), a),
        forall|i: int|
            0 <= i < ascii_lowered(a).len() ==> !('A' <= (#[trigger] ascii_lowered(a)[i]) <= 'Z'),
{
    let (x, y) = (ascii_lowered(a), ascii_lowered(b));
    assert forall|i: int| 0 <= i < a.len() implies x[i] == ascii_lower(#[trigger] a[i]) by {}
    assert forall|i: int| 0 <= i < b.len() implies y[i] == ascii_lower(#[trigger] b[i]) by {}
    if same_letters(a, b) {
        assert forall|i: int| 0 <= i < a.len() implies x[i] == y[i] by {
            assert(same_letter(a[i], b[i]));
        }
        assert(x =~= y);
    }
    if x == y {
        assert(a.len() == x.len() && b.len() == y.len());
        assert forall|i: int| 0 <= i < a.len() implies same_letter(#[trigger] a[i], #[trigger] b[i]) by {
            assert(x[i] == ascii_lower(a[i]) && y[i] == ascii_lower(b[i]));
        }
    }
}

/// The number that a digit stands for; those above nine are lower-case letters.
pub open spec fn digit_value(c: char) -> int {
    if c <= '9' {
        c as int - '0' as int
    } else {
        c as int - 'a' as int + 10
    }
}

/// The number that digits of a base write down, the most significant one first.
pub open spec fn digits_value(digits: Seq<char>, base: int) -> int
    decreases digits.len(),
{
    if digits.len() == 0 {
        0
    } else {
        digits_value(digits.drop_last(), base) * base + digit_value(digits.last())
    }
}

/// A text of one decimal digit or more, and of nothing else.
pub open spec fn only_digits(s: Seq<char>) -> bool {
    s.len() > 0 && forall|i: int| 0 <= i < s.len() ==> '0' <= (#[trigger] s[i]) <= '9'
}

/// The digits of a number are decimal digits that write it down, the first of which is no zero but
/// for the number zero.
pub proof fn law_digits_write_the_number(n: nat)
    ensures
        only_digits(decimal_digits(n)),
        digits_value(decimal_digits(n), 10) == n,
        n > 0 ==> decimal_digits(n)[0] != '0',
        n == 0 ==> decimal_digits(n).len() == 1,
    decreases n,
{
    let s = decimal_digits(n);
    if n < 10 {
        assert(s.drop_last() =~= Seq::empty());
        assert(digits_value(s.drop_last(), 10) == 0);
    } else {
        law_digits_write_the_number(n / 10);
        let t = decimal_digits(n / 10);
        assert(s.drop_last() =~= t);
        assert(s.last() == digit_char(n % 10));
        assert(s[0] == t[0]);
        assert forall|i: int| 0 <= i < s.len() implies '0' <= (#[trigger] s[i]) <= '9' by {
            if i < t.len() {
                assert(s[i] == t[i]);
            }
        }
    }
}

/// A whole number is written with the digits of its magnitude, behind a minus sign where it is
/// negative.
pub proof fn law_number_text(i: int)
    ensures
        i >= 0 ==> only_digits(int_text(i)) && digits_value(int_text(i), 10) == i,
        i < 0 ==> {
            &&& int_text(i)[0] == '-'
            &&& only_digits(int_text(i).drop_first())
            &&& digits_value(int_text(i).drop_first(), 10) == -i
        },
{
    if i < 0 {
        law_digits_write_the_number((-i) as nat);
        assert(int_text(i).drop_first() =~= decimal_digits((-i) as nat));
    } else {
        law_digits_write_the_number(i as nat);
    }
}

spec fn power16(n: nat) -> nat
    decreases n,
{
    if n == 0 {
        1
    } else {
        16 * power16((n - 1) as nat)
    }
}

proof fn lemma_hex_value(n: nat, width: nat)
    requires
        n < power16(width),
    ensures
        hex_fixed(n, width).len() == width,
        digits_value(hex_fixed(n, width), 16) == n,
    decreases width,
{
    if width > 0 {
        lemma_hex_value(n / 16, (width - 1) as nat);
        let s = hex_fixed(n, width);
        assert(s.drop_last() =~= hex_fixed(n / 16, (width - 1) as nat));
        assert(s.last() == digit_char(n % 16));
    }
}

/// Two hexadecimal digits write down a byte.
pub proof fn law_two_digits_write_a_byte(byte: u8)
    ensures
        hex_fixed(byte as nat, 2).len() == 2,
        digit_value(hex_fixed(byte as nat, 2)[0]) * 16 + digit_value(hex_fixed(byte as nat, 2)[1])
            == byte,
{
    let s = hex_fixed(byte as nat, 2);
    reveal_with_fuel(power16, 3);
    lemma_hex_value(byte as nat, 2);
    reveal_with_fuel(digits_value, 3);
    assert(s.drop_last().last() == s[0]);
    assert(s.last() == s[1]);
    assert(s.drop_last().drop_last() =~= Seq::empty());
}

/// Sixteen hexadecimal digits write down a number of 32 bits.
pub proof fn law_sixteen_digits_write_a_number(n: u32)
    ensures
        hex_fixed(n as nat, 16).len() == 16,
        digits_value(hex_fixed(n as nat, 16), 16) == n,
{
    reveal_with_fuel(power16, 9);
    assert(power16(8) == 0x1_0000_0000);
    assert(power16(16) >= power16(8)) by {
        reveal_with_fuel(power16, 9);
    }
    lemma_hex_value(n as nat, 16);
}

} // verus!
