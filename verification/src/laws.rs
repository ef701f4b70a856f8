//! Properties of the grammar that span its rules, proved from the rules'
//! spec functions.

use vstd::prelude::*;

use crate::parser::comment_marker_at;
use crate::parser::comment_step;
use crate::parser::hex_digits;
use crate::parser::hex_value;
use crate::parser::is_hex_digit;
use crate::parser::is_space;
use crate::parser::is_word_char;
use crate::parser::is_word_start;
use crate::parser::lemma_line_end;
use crate::parser::line_end;
use crate::parser::number_hex_step;
use crate::parser::number_prefix_at;
use crate::parser::number_step;
use crate::parser::underscored_step;
use crate::parser::whitespace_end;
use crate::parser::word_end;
use crate::parser::word_step;
use crate::parser::Step;
use crate::parser::UNDERSCORE;

verus! {

// The byte classes of the grammar, written out with their byte values.

/// Space, tab, carriage return and line feed.
pub open spec fn blank(b: u8) -> bool {
    b == 0x20 || b == 0x09 || b == 0x0d || b == 0x0a
}

/// 'A'..'Z', 'a'..'z' and '_'.
pub open spec fn letter_or_underscore(b: u8) -> bool {
    (0x41 <= b <= 0x5a) || (0x61 <= b <= 0x7a) || b == 0x5f
}

/// '0'..'9', 'A'..'Z', 'a'..'z' and '_'.
pub open spec fn identifier_byte(b: u8) -> bool {
    (0x30 <= b <= 0x39) || letter_or_underscore(b)
}

/// '0'..'9', 'a'..'f' and 'A'..'F'.
pub open spec fn hexit(b: u8) -> bool {
    (0x30 <= b <= 0x39) || (0x61 <= b <= 0x66) || (0x41 <= b <= 0x46)
}

/// What a hexit is worth: '0'..'9' are 0..9, 'a'..'f' and 'A'..'F' are 10..15.
pub open spec fn hexit_worth(b: u8) -> nat {
    if 0x30 <= b <= 0x39 {
        (b - 0x30) as nat
    } else if 0x61 <= b <= 0x66 {
        (b - 0x61 + 10) as nat
    } else {
        (b - 0x41 + 10) as nat
    }
}

/// The base-16 positional value of a string of hexits, most significant first.
pub open spec fn base16_value(h: Seq<u8>) -> nat
    decreases h.len(),
{
    if h.len() == 0 {
        0
    } else {
        16 * base16_value(h.drop_last()) + hexit_worth(h.last())
    }
}

/// "//" stands at `j`.
pub open spec fn double_slash_at(s: Seq<u8>, j: int) -> bool {
    0 <= j && j + 1 < s.len() && s[j] == 0x2f && s[j + 1] == 0x2f
}

/// Byte `i` lies in a comment that starts at `j`: "//" stands at `j` and no
/// carriage return or line feed comes after it up to `i`.
pub open spec fn inside_comment(s: Seq<u8>, j: int, i: int) -> bool {
    &&& double_slash_at(s, j)
    &&& j <= i
    &&& forall|k: int| j + 2 <= k <= i ==> s[k] != 0x0d && s[k] != 0x0a
}

proof fn lemma_hex_value_is_base16(h: Seq<u8>)
    requires
        forall|i: int| 0 <= i < h.len() ==> hexit(#[trigger] h[i]),
    ensures
        hex_value(h) == base16_value(h),
    decreases h.len(),
{
    if h.len() > 0 {
        lemma_hex_value_is_base16(h.drop_last());
    }
}

/// The hexadecimal digits of `t`, in order, with the underscores left out.
pub open spec fn hexits_of(t: Seq<u8>) -> Seq<u8>
    decreases t.len(),
{
    if t.len() == 0 {
        seq![]
    } else if t[0] == 0x5f {
        hexits_of(t.drop_first())
    } else {
        seq![t[0]] + hexits_of(t.drop_first())
    }
}

/// The shape of what the digit loop of a hexadecimal number reads from `q`.
proof fn lemma_hex_digits_shape(s: Seq<u8>, q: int, acc: Seq<u8>)
    requires
        0 <= q <= s.len(),
    ensures
        hex_digits(s, q, acc) matches Step::Done { value: digits, end } ==> {
            &&& q <= end <= s.len()
            &&& (q < s.len() && is_hex_digit(s[q]) ==> q < end)
            &&& (q < end ==> is_hex_digit(s[end - 1]))
            &&& forall|i: int| q <= i < end ==> is_hex_digit(#[trigger] s[i]) || s[i] == UNDERSCORE
            &&& forall|i: int|
                q <= i < end && #[trigger] s[i] == UNDERSCORE ==> i + 1 < end && is_hex_digit(
                    s[i + 1],
                )
            &&& end == s.len() || (!is_hex_digit(s[end]) && s[end] != UNDERSCORE)
            &&& digits == acc + hexits_of(s.subrange(q, end))
        },
        hex_digits(s, q, acc) matches Step::Failed { at, cut, .. } ==> {
            &&& cut
            &&& q < at <= s.len()
            &&& s[at - 1] == UNDERSCORE
            &&& (at == s.len() || !is_hex_digit(s[at]))
        },
    decreases s.len() - q,
{
    if q < s.len() && is_hex_digit(s[q]) {
        lemma_hex_digits_shape(s, q + 1, acc.push(s[q]));
        if let Step::Done { value: digits, end } = hex_digits(s, q, acc) {
            let t = s.subrange(q, end);
            assert(t[0] == s[q]);
            assert(t.drop_first() =~= s.subrange(q + 1, end));
            assert(digits =~= acc + hexits_of(t));
        }
    } else if q < s.len() && s[q] == UNDERSCORE && q + 1 < s.len() && is_hex_digit(s[q + 1]) {
        lemma_hex_digits_shape(s, q + 1, acc);
        if let Step::Done { value: digits, end } = hex_digits(s, q, acc) {
            let t = s.subrange(q, end);
            assert(t[0] == s[q]);
            assert(t.drop_first() =~= s.subrange(q + 1, end));
            assert(digits =~= acc + hexits_of(t));
        }
    } else {
        if let Step::Done { value: digits, end } = hex_digits(s, q, acc) {
            assert(s.subrange(q, end) =~= Seq::<u8>::empty());
            assert(digits =~= acc + hexits_of(s.subrange(q, end)));
        }
    }
}

/// `s[p..end]` is a word of the grammar's hexadecimal numbers: it starts and
/// ends with a digit, holds only digits and underscores, and every underscore
/// stands before a digit, so no two stand together.
pub open spec fn grouped_hexits(s: Seq<u8>, p: int, end: int) -> bool {
    &&& 0 <= p < end <= s.len()
    &&& hexit(s[p])
    &&& hexit(s[end - 1])
    &&& forall|i: int| p <= i < end ==> hexit(#[trigger] s[i]) || s[i] == 0x5f
    &&& forall|i: int| p <= i < end && #[trigger] s[i] == 0x5f ==> i + 1 < end && hexit(s[i + 1])
}

/// Nothing at `end` could continue a hexadecimal number: the end of the text,
/// or a byte that is neither a hexit nor '_'.
pub open spec fn ends_hexits(s: Seq<u8>, end: int) -> bool {
    end == s.len() || (!hexit(s[end]) && s[end] != 0x5f)
}

/// A hexadecimal number reads the longest run of grouped hexits, of at most
/// four digits, and its value is the base-16 positional value of its digits,
/// less than 2^16.
pub proof fn number_hex_accepts_only_grouped_hexits(s: Seq<u8>, p: int)
    requires
        0 <= p <= s.len(),
    ensures
        number_hex_step(s, p) matches Step::Done { value, end } ==> {
            &&& grouped_hexits(s, p, end)
            &&& ends_hexits(s, end)
            &&& hexits_of(s.subrange(p, end)).len() <= 4
            &&& value == base16_value(hexits_of(s.subrange(p, end)))
            &&& value < 0x10000
        },
{
    lemma_hex_digits_shape(s, p, seq![]);
    if let Step::Done { value, end } = number_hex_step(s, p) {
        if let Step::Done { value: digits, .. } = hex_digits(s, p, seq![]) {
            assert(digits =~= hexits_of(s.subrange(p, end)));
            lemma_hexits_are_digits(s.subrange(p, end));
            lemma_hex_value_is_base16(digits);
            lemma_hex_value_bound(digits);
            assert(value < 0x10000) by {
                reveal_with_fuel(crate::parser::pow16, 5);
                if digits.len() < 4 {
                    lemma_pow16_monotone(digits.len(), 4);
                }
            }
        }
    }
}

/// Every longest run of grouped hexits with at most four digits is read
/// whole as a hexadecimal number, with the base-16 value of its digits.
pub proof fn number_hex_accepts_every_grouped_hexits(s: Seq<u8>, p: int, end: int)
    requires
        grouped_hexits(s, p, end),
        ends_hexits(s, end),
        hexits_of(s.subrange(p, end)).len() <= 4,
    ensures
        number_hex_step(s, p) == (Step::Done {
            value: base16_value(hexits_of(s.subrange(p, end))),
            end,
        }),
{
    lemma_hex_digits_complete(s, p, end, seq![]);
    lemma_hexits_are_digits(s.subrange(p, end));
    lemma_hex_value_is_base16(hexits_of(s.subrange(p, end)));
    assert(Seq::<u8>::empty() + hexits_of(s.subrange(p, end)) =~= hexits_of(s.subrange(p, end)));
}

proof fn lemma_hex_digits_complete(s: Seq<u8>, q: int, end: int, acc: Seq<u8>)
    requires
        0 <= q <= end <= s.len(),
        forall|i: int| q <= i < end ==> is_hex_digit(#[trigger] s[i]) || s[i] == UNDERSCORE,
        forall|i: int|
            q <= i < end && #[trigger] s[i] == UNDERSCORE ==> i + 1 < end && is_hex_digit(s[i + 1]),
        ends_hexits(s, end),
    ensures
        hex_digits(s, q, acc) == (Step::Done { value: acc + hexits_of(s.subrange(q, end)), end }),
    decreases end - q,
{
    let t = s.subrange(q, end);
    if q == end {
        assert(t =~= Seq::<u8>::empty());
        assert(acc + hexits_of(t) =~= acc);
    } else {
        assert(t[0] == s[q]);
        assert(t.drop_first() =~= s.subrange(q + 1, end));
        if is_hex_digit(s[q]) {
            lemma_hex_digits_complete(s, q + 1, end, acc.push(s[q]));
            assert(acc.push(s[q]) + hexits_of(s.subrange(q + 1, end)) =~= acc + hexits_of(t));
        } else {
            assert(s[q] == UNDERSCORE);
            lemma_hex_digits_complete(s, q + 1, end, acc);
        }
    }
}

/// The only failure of a hexadecimal number that is final is an underscore
/// without a digit after it; it is reported just past the underscore. Every
/// other failure (no hexit at the start, more than four hexits) is reported
/// where the number started.
pub proof fn number_hex_cuts_only_at_dangling_underscore(s: Seq<u8>, p: int)
    requires
        0 <= p <= s.len(),
    ensures
        number_hex_step(s, p) matches Step::Failed { at, cut, .. } ==> (cut <==> (p < at
            && s[at - 1] == 0x5f && (at == s.len() || !hexit(s[at])))),
        number_hex_step(s, p) matches Step::Failed { at, cut, .. } ==> (!cut ==> at == p),
        (p == s.len() || !hexit(s[p])) ==> (number_hex_step(s, p) matches Step::Failed {
            at,
            cut,
            ..
        } && at == p && !cut),
{
    lemma_hex_digits_shape(s, p, seq![]);
}

proof fn lemma_hexits_are_digits(t: Seq<u8>)
    requires
        forall|i: int| 0 <= i < t.len() ==> is_hex_digit(#[trigger] t[i]) || t[i] == UNDERSCORE,
    ensures
        forall|i: int|
            0 <= i < hexits_of(t).len() ==> is_hex_digit(#[trigger] hexits_of(t)[i]),
    decreases t.len(),
{
    if t.len() > 0 {
        assert forall|i: int| 0 <= i < t.drop_first().len() implies is_hex_digit(
            #[trigger] t.drop_first()[i],
        ) || t.drop_first()[i] == UNDERSCORE by {
            assert(t.drop_first()[i] == t[i + 1]);
        }
        lemma_hexits_are_digits(t.drop_first());
        if t[0] != UNDERSCORE {
            assert(is_hex_digit(t[0]));
            let h = hexits_of(t);
            assert forall|i: int| 0 <= i < h.len() implies is_hex_digit(#[trigger] h[i]) by {
                if i > 0 {
                    assert(h[i] == hexits_of(t.drop_first())[i - 1]);
                }
            }
        }
    }
}

proof fn lemma_hex_value_bound(digits: Seq<u8>)
    requires
        forall|i: int| 0 <= i < digits.len() ==> is_hex_digit(#[trigger] digits[i]),
    ensures
        hex_value(digits) < crate::parser::pow16(digits.len()),
    decreases digits.len(),
{
    if digits.len() > 0 {
        lemma_hex_value_bound(digits.drop_last());
    }
}

proof fn lemma_pow16_monotone(m: nat, n: nat)
    requires
        m <= n,
    ensures
        crate::parser::pow16(m) <= crate::parser::pow16(n),
    decreases n - m,
{
    if m < n {
        lemma_pow16_monotone(m, (n - 1) as nat);
    }
}


/// A comment is read exactly where "//" stands; it reads every byte after the
/// marker up to the first carriage return or line feed, which it leaves
/// unread, or up to the end of the text. Without a marker it fails, not finally,
/// where it started.
pub proof fn comment_reads_rest_of_line(s: Seq<u8>, p: int)
    requires
        0 <= p <= s.len(),
    ensures
        comment_step(s, p) is Done <==> double_slash_at(s, p),
        comment_step(s, p) matches Step::Done { end, .. } ==> {
            &&& p + 2 <= end <= s.len()
            &&& forall|i: int| p + 2 <= i < end ==> #[trigger] s[i] != 0x0d && s[i] != 0x0a
            &&& end == s.len() || s[end] == 0x0d || s[end] == 0x0a
        },
        comment_step(s, p) matches Step::Failed { at, cut, .. } ==> at == p && !cut,
{
    if comment_marker_at(s, p) {
        lemma_line_end(s, p + 2);
    }
}

/// Skipping blanks and comments never moves back, stops where neither a blank
/// nor a comment starts, and skipping again from there reads nothing.
pub proof fn whitespace_is_idempotent(s: Seq<u8>, p: int)
    requires
        0 <= p <= s.len(),
    ensures
        p <= whitespace_end(s, p) <= s.len(),
        whitespace_end(s, p) == s.len() || (!blank(s[whitespace_end(s, p)]) && !double_slash_at(
            s,
            whitespace_end(s, p),
        )),
        whitespace_end(s, whitespace_end(s, p)) == whitespace_end(s, p),
    decreases s.len() - p,
{
    if p < s.len() && is_space(s[p]) {
        whitespace_is_idempotent(s, p + 1);
    } else if comment_marker_at(s, p) {
        lemma_line_end(s, p + 2);
        whitespace_is_idempotent(s, line_end(s, p + 2));
    }
}

/// Every byte that skipping whitespace reads is a blank (space, tab, carriage
/// return, line feed) or lies in a comment that starts at or after where the
/// skipping started.
pub proof fn whitespace_skips_only_blanks_and_comments(s: Seq<u8>, p: int)
    requires
        0 <= p <= s.len(),
    ensures
        forall|i: int|
            p <= i < whitespace_end(s, p) ==> blank(#[trigger] s[i]) || exists|j: int|
                p <= j && #[trigger] inside_comment(s, j, i),
    decreases s.len() - p,
{
    let w = whitespace_end(s, p);
    if p < s.len() && is_space(s[p]) {
        whitespace_skips_only_blanks_and_comments(s, p + 1);
        assert forall|i: int| p <= i < w implies blank(#[trigger] s[i]) || exists|j: int|
            p <= j && #[trigger] inside_comment(s, j, i) by {
            if i > p && !blank(s[i]) {
                let j = choose|j: int| p + 1 <= j && #[trigger] inside_comment(s, j, i);
                assert(inside_comment(s, j, i));
            }
        }
    } else if comment_marker_at(s, p) {
        let e = line_end(s, p + 2);
        lemma_line_end(s, p + 2);
        whitespace_skips_only_blanks_and_comments(s, e);
        assert forall|i: int| p <= i < w implies blank(#[trigger] s[i]) || exists|j: int|
            p <= j && #[trigger] inside_comment(s, j, i) by {
            if i < e {
                assert(inside_comment(s, p, i));
            } else if !blank(s[i]) {
                let j = choose|j: int| e <= j && #[trigger] inside_comment(s, j, i);
                assert(inside_comment(s, j, i));
            }
        }
    }
}

proof fn lemma_word_end(s: Seq<u8>, p: int)
    requires
        0 <= p <= s.len(),
    ensures
        p <= word_end(s, p) <= s.len(),
        forall|i: int| p <= i < word_end(s, p) ==> is_word_char(#[trigger] s[i]),
        word_end(s, p) == s.len() || !is_word_char(s[word_end(s, p)]),
    decreases s.len() - p,
{
    if p < s.len() && is_word_char(s[p]) {
        lemma_word_end(s, p + 1);
    }
}

/// A word is read exactly where a letter or '_' stands; it reads the longest
/// run of letters, digits '0'..'9' and underscores from there.
pub proof fn word_reads_longest_identifier(s: Seq<u8>, p: int)
    requires
        0 <= p <= s.len(),
    ensures
        word_step(s, p) is Done <==> (p < s.len() && letter_or_underscore(s[p])),
        word_step(s, p) matches Step::Done { end, .. } ==> {
            &&& p < end <= s.len()
            &&& forall|i: int| p <= i < end ==> identifier_byte(#[trigger] s[i])
            &&& end == s.len() || !identifier_byte(s[end])
        },
        word_step(s, p) matches Step::Failed { at, cut, .. } ==> at == p && !cut,
{
    if p < s.len() && is_word_start(s[p]) {
        lemma_word_end(s, p + 1);
    }
}

/// A number literal is "0x" followed by the longest run of grouped hexits, of
/// at most four digits; its value is the base-16 value of the digits.
pub proof fn number_reads_prefixed_hexits(s: Seq<u8>, p: int)
    requires
        0 <= p <= s.len(),
    ensures
        number_step(s, p) matches Step::Done { value, end } ==> {
            &&& p + 2 <= s.len()
            &&& s[p] == 0x30
            &&& s[p + 1] == 0x78
            &&& grouped_hexits(s, p + 2, end)
            &&& ends_hexits(s, end)
            &&& hexits_of(s.subrange(p + 2, end)).len() <= 4
            &&& value == base16_value(hexits_of(s.subrange(p + 2, end)))
            &&& value < 0x10000
        },
{
    if number_prefix_at(s, p) {
        number_hex_accepts_only_grouped_hexits(s, p + 2);
    }
}

/// Without "0x" where it starts, a number literal fails there, not finally.
pub proof fn number_needs_prefix(s: Seq<u8>, p: int)
    requires
        0 <= p <= s.len(),
        !(p + 2 <= s.len() && s[p] == 0x30 && s[p + 1] == 0x78),
    ensures
        number_step(s, p) matches Step::Failed { at, cut, .. } && at == p && !cut,
{
}

/// Every "0x" followed by the longest run of grouped hexits with at most four
/// digits is read whole as a number literal, with the base-16 value of its
/// digits, whatever those digits are.
pub proof fn number_accepts_every_prefixed_literal(s: Seq<u8>, p: int, end: int)
    requires
        0 <= p,
        p + 2 <= s.len(),
        s[p] == 0x30,
        s[p + 1] == 0x78,
        grouped_hexits(s, p + 2, end),
        ends_hexits(s, end),
        hexits_of(s.subrange(p + 2, end)).len() <= 4,
    ensures
        number_step(s, p) == (Step::Done {
            value: base16_value(hexits_of(s.subrange(p + 2, end))),
            end,
        }),
{
    number_hex_accepts_every_grouped_hexits(s, p + 2, end);
}

/// The underscore rule reads only the underscore and leaves the digit after it
/// unread; without an underscore it fails where it started and lets the caller
/// go on; an underscore without a digit after it is a cut failure just past the
/// underscore, which no enclosing repetition or alternative backtracks over.
pub proof fn underscored_reads_only_the_underscore(s: Seq<u8>, p: int)
    requires
        0 <= p <= s.len(),
    ensures
        underscored_step(s, p) matches Step::Done { end, .. } ==> {
            &&& s[p] == 0x5f
            &&& end == p + 1
            &&& end < s.len()
            &&& hexit(s[end])
        },
        underscored_step(s, p) matches Step::Failed { at, cut, .. } ==> {
            &&& cut <==> (p < s.len() && s[p] == 0x5f)
            &&& cut ==> at == p + 1 && (at == s.len() || !hexit(s[at]))
            &&& !cut ==> at == p
        },
{
}

} // verus!
