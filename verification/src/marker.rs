//! The line number that a violation description gives, as in "... on line 264.", and the
//! range and column that follow from it for the error control operator `@`.
//!
//! PHPMD reports that operator with the lines of the enclosing method; the description
//! names the line of the operator itself.
use crate::text::{
    blank, byte_len, byte_offset, is_whitespace, leading, leading_whitespace, lemma_first_at,
    lemma_first_nowhere, lemma_leading, lemma_leading_is, other_than, position_of, positions,
    starts_at, text_of, to_chars,
};
use vstd::prelude::*;

verus! {

/// What stands in front of the line number.
pub open spec fn line_marker() -> Seq<char> {
    "on line "@
}

/// The regular expression that finds the line number: the marker and a run of digits.
pub open spec fn line_pattern() -> Seq<char> {
    "on line (\\d+)"@
}

/// The ASCII digits.
pub open spec fn is_digit(c: char) -> bool {
    '0' <= c <= '9'
}

/// The predicate that holds of the ASCII digits.
pub open spec fn digit() -> spec_fn(char) -> bool {
    |c: char| is_digit(c)
}

/// Whether the marker stands at `i` with an ASCII digit after it.
pub open spec fn marks_line(text: Seq<char>, i: int) -> bool {
    let n = i + line_marker().len();
    starts_at(text, i, line_marker()) && n < text.len() && is_digit(text[n])
}

/// Whether `group` can be the digits after the marker at `i`: a run of characters, each an
/// ASCII digit or not ASCII at all, that no ASCII digit follows.
pub open spec fn follows_marker(text: Seq<char>, i: int, group: Seq<char>) -> bool {
    let from = i + line_marker().len();
    let to = from + group.len();
    &&& starts_at(text, i, line_marker())
    &&& starts_at(text, from, group)
    &&& group.len() > 0
    &&& forall|k: int| 0 <= k < group.len() ==> is_digit(#[trigger] group[k]) || group[k] > '\u{7f}'
    &&& to < text.len() ==> !is_digit(text[to])
}

/// Whether `group` can be what the leftmost match captures.
pub open spec fn leftmost_group(text: Seq<char>, group: Option<Seq<char>>) -> bool {
    match group {
        Some(g) => exists|i: int|
            #[trigger] follows_marker(text, i, g) && forall|k: int|
                0 <= k < i ==> !marks_line(text, k),
        None => forall|i: int| !marks_line(text, i),
    }
}

/// What the group of `line_pattern` captures at its leftmost match in `text`.
pub uninterp spec fn line_group(text: Seq<char>) -> Option<Seq<char>>;

/// `regex::Regex::captures` with the pattern `on line (\d+)`, and of its captures the first
/// group.
///
/// A match is the leftmost one, its group the longest run of digits after the marker. `\d`
/// stands for all decimal digits of Unicode: which characters outside ASCII belong to them
/// is left to the name `line_group`.
#[verifier::external_body]
fn capture_line(pattern: &str, text: &str) -> (r: Option<String>)
    requires
        pattern@ == line_pattern(),
    ensures
        text_of(r) == line_group(text@),
        leftmost_group(text@, text_of(r)),
{
    let regex = regex::Regex::new(pattern).ok()?;
    let captures = regex.captures(text)?;
    captures.get(1).map(|group| group.as_str().to_string())
}

/// The number that a run of ASCII digits stands for.
pub open spec fn decimal(s: Seq<char>) -> nat
    decreases s.len(),
{
    if s.len() == 0 {
        0
    } else {
        decimal(s.drop_last()) * 10 + (s.last() as nat - '0' as nat) as nat
    }
}

/// The line number in captured digits: none where a digit is not ASCII or where the number
/// does not fit.
pub open spec fn line_number(group: Option<Seq<char>>) -> Option<u32> {
    match group {
        Some(g) => if g.len() > 0 && leading(g, digit()) == g.len() && decimal(g) <= u32::MAX {
            Some(decimal(g) as u32)
        } else {
            None
        },
        None => None,
    }
}

/// A longer run of digits does not stand for a smaller number.
proof fn lemma_decimal_grows(s: Seq<char>, n: int)
    requires
        0 <= n <= s.len(),
        forall|i: int| 0 <= i < s.len() ==> is_digit(#[trigger] s[i]),
    ensures
        decimal(s.take(n)) <= decimal(s),
    decreases s.len(),
{
    if n < s.len() {
        let front = s.drop_last();
        assert(front.take(n) =~= s.take(n));
        lemma_decimal_grows(front, n);
        assert(is_digit(s.last()));
    } else {
        assert(s.take(n) =~= s);
    }
}

/// Reads the line number from captured digits.
pub fn line_number_of(group: &str) -> (r: Option<u32>)
    ensures
        r == line_number(Some(group@)),
{
    let s = to_chars(group);
    let mut value: u64 = 0;
    let mut i: usize = 0;
    while i < s.len()
        invariant
            i <= s@.len(),
            s@ == group@,
            forall|j: int| 0 <= j < i ==> is_digit(#[trigger] s@[j]),
            value == decimal(s@.take(i as int)),
            value <= u32::MAX,
        decreases s@.len() - i,
    {
        let c = s[i];
        if c < '0' || '9' < c {
            proof {
                lemma_leading_is(s@, digit(), i as nat);
            }
            return None;
        }
        assert(s@.take(i + 1).drop_last() =~= s@.take(i as int));
        value = value * 10 + (c as u64 - '0' as u64);
        i = i + 1;
        if value > u32::MAX as u64 {
            proof {
                lemma_leading(s@, digit());
                if leading(s@, digit()) == s@.len() {
                    assert forall|j: int| 0 <= j < s@.len() implies is_digit(
                        #[trigger] s@[j],
                    ) by {
                        assert(digit()(s@[j]));
                    }
                    lemma_decimal_grows(s@, i as int);
                }
            }
            return None;
        }
    }
    if s.len() == 0 {
        return None;
    }
    proof {
        lemma_leading_is(s@, digit(), s@.len());
        assert(s@.take(i as int) =~= s@);
    }
    Some(value as u32)
}

/// The predicate that holds of the positions of `text` without a marked line number.
pub open spec fn unmarked(text: Seq<char>) -> spec_fn(int) -> bool {
    |i: int| !marks_line(text, i)
}

/// The digits after the first marker that an ASCII digit follows.
pub open spec fn marked_digits(text: Seq<char>) -> Option<Seq<char>> {
    let i = leading(positions(text.len()), unmarked(text)) as int;
    if i < text.len() {
        let rest = text.skip(i + line_marker().len());
        Some(rest.take(leading(rest, digit()) as int))
    } else {
        None
    }
}

/// Whether no marker, with the ASCII digits that may follow it, runs into a character
/// outside ASCII. Every ASCII text is of this kind.
pub open spec fn plain_markers(text: Seq<char>) -> bool {
    forall|i: int|
        #[trigger] starts_at(text, i, line_marker()) ==> {
            let rest = text.skip(i + line_marker().len());
            let n = leading(rest, digit());
            n < rest.len() ==> rest[n as int] <= '\u{7f}'
        }
}

/// Where markers are plain, the leftmost match captures the ASCII digits after the first
/// marker that has any.
proof fn lemma_plain_group(text: Seq<char>, group: Option<Seq<char>>)
    requires
        plain_markers(text),
        leftmost_group(text, group),
    ensures
        group == marked_digits(text),
{
    let ps = positions(text.len());
    let p = unmarked(text);
    let n = line_marker().len();
    match group {
        Some(g) => {
            let i = choose|i: int|
                #[trigger] follows_marker(text, i, g) && forall|k: int|
                    0 <= k < i ==> !marks_line(text, k);
            let rest = text.skip(i + n);
            assert(starts_at(text, i, line_marker()));
            let m = leading(rest, digit());
            lemma_leading(rest, digit());
            assert forall|k: int| 0 <= k < g.len() implies rest[k] == g[k] by {
                assert(text.subrange(i + n, i + n + g.len())[k] == g[k]);
            }
            if m < g.len() {
                assert(is_digit(g[m as int]) || g[m as int] > '\u{7f}');
            } else if g.len() < m {
                assert(digit()(rest[g.len() as int]));
            }
            assert(rest.take(m as int) =~= g);
            assert(digit()(rest[0]));
            assert(marks_line(text, i));
            assert forall|k: int| 0 <= k < i implies p(#[trigger] ps[k]) by {
                assert(!marks_line(text, k));
            }
            lemma_leading_is(ps, p, i as nat);
        },
        None => {
            assert forall|k: int| 0 <= k < ps.len() implies p(#[trigger] ps[k]) by {
                assert(!marks_line(text, k));
            }
            lemma_leading_is(ps, p, ps.len());
        },
    }
}

/// The line number that a description gives, if it gives one.
pub open spec fn described_line(description: Seq<char>) -> Option<u32> {
    line_number(line_group(description))
}

/// Reads the line number that a violation description gives after "on line ".
pub fn parse_line_from_description(description: &str) -> (r: Option<u32>)
    ensures
        r == described_line(description@),
        plain_markers(description@) ==> r == line_number(marked_digits(description@)),
{
    let group = capture_line("on line (\\d+)", description);
    proof {
        if plain_markers(description@) {
            lemma_plain_group(description@, text_of(group));
        }
    }
    match group {
        Some(digits) => line_number_of(digits.as_str()),
        None => None,
    }
}

/// The lines that an error control operator takes: the described line alone, or the first
/// reported line alone.
pub open spec fn operator_lines(described: Option<u32>, begin_line: u32) -> (u32, u32) {
    match described {
        Some(line) => (line, line),
        None => (begin_line, begin_line),
    }
}

/// The lines to highlight for an error control operator that was reported from
/// `begin_line` on.
pub fn error_control_operator_range(description: &str, begin_line: u32) -> (r: (u32, u32))
    ensures
        r == operator_lines(described_line(description@), begin_line),
        plain_markers(description@) ==> r == operator_lines(
            line_number(marked_digits(description@)),
            begin_line,
        ),
        r.0 == r.1,
{
    match parse_line_from_description(description) {
        Some(line) => (line, line),
        None => (begin_line, begin_line),
    }
}

/// How many bytes of white space stand in front of a line.
pub open spec fn indent(line: Seq<char>) -> nat {
    byte_len(line.take(leading(line, blank()) as int))
}

/// Byte column of the first `@` on a line; where there is none, of the first character that
/// is not white space.
pub open spec fn operator_column(line: Seq<char>) -> nat {
    let n = leading(line, other_than('@')) as int;
    if n < line.len() {
        byte_len(line.take(n))
    } else {
        indent(line)
    }
}

/// Byte column of the first character of a line that is not white space.
pub fn indent_of(line: &str) -> (r: usize)
    ensures
        r == indent(line@),
{
    let s = to_chars(line);
    let n = leading_whitespace(&s);
    byte_offset(line, &s, n)
}

/// Byte column at which the highlight of an error control operator begins.
pub fn error_control_operator_start_char(line_content: &str) -> (r: usize)
    ensures
        r == operator_column(line_content@),
{
    let s = to_chars(line_content);
    let n = position_of(&s, '@');
    if n < s.len() {
        byte_offset(line_content, &s, n)
    } else {
        indent_of(line_content)
    }
}

/// The digit for a number below 10.
pub open spec fn digit_char(n: nat) -> char {
    ('0' as nat + n) as char
}

/// A number in decimal digits.
pub open spec fn numeral(n: nat) -> Seq<char>
    decreases n,
{
    if n < 10 {
        seq![digit_char(n)]
    } else {
        numeral(n / 10).push(digit_char(n % 10))
    }
}

/// A numeral, possibly behind zeros, consists of digits and stands for its number.
proof fn lemma_numeral(zeros: Seq<char>, n: nat)
    requires
        forall|i: int| 0 <= i < zeros.len() ==> zeros[i] == '0',
    ensures
        decimal(zeros + numeral(n)) == n,
        (zeros + numeral(n)).len() > 0,
        forall|i: int|
            0 <= i < (zeros + numeral(n)).len() ==> is_digit(#[trigger] (zeros + numeral(n))[i]),
    decreases n,
{
    let s = zeros + numeral(n);
    if n < 10 {
        assert(s.drop_last() =~= zeros);
        lemma_zeros(zeros);
        assert(s.last() == digit_char(n));
    } else {
        lemma_numeral(zeros, n / 10);
        let front = zeros + numeral(n / 10);
        assert(s.drop_last() =~= front);
        assert(s.last() == digit_char(n % 10));
        assert forall|i: int| 0 <= i < s.len() implies is_digit(#[trigger] s[i]) by {
            if i < front.len() {
                assert(s[i] == front[i]);
            }
        }
    }
}

/// Zeros stand for 0.
proof fn lemma_zeros(zeros: Seq<char>)
    requires
        forall|i: int| 0 <= i < zeros.len() ==> zeros[i] == '0',
    ensures
        decimal(zeros) == 0,
    decreases zeros.len(),
{
    if zeros.len() > 0 {
        assert(zeros.last() == zeros[zeros.len() - 1]);
        lemma_zeros(zeros.drop_last());
    }
}

/// Captured digits give back the number that was written in them, behind any zeros, where it
/// fits into 32 bits, and no number where it does not.
pub proof fn law_line_number_is_read(zeros: Seq<char>, n: nat)
    requires
        forall|i: int| 0 <= i < zeros.len() ==> zeros[i] == '0',
    ensures
        line_number(Some(zeros + numeral(n))) == if n <= u32::MAX {
            Some(n as u32)
        } else {
            None
        },
{
    lemma_numeral(zeros, n);
    lemma_leading_is(zeros + numeral(n), digit(), (zeros + numeral(n)).len());
}

/// Nothing, and anything with a character that is no ASCII digit, gives no line number.
pub proof fn law_other_text_is_no_line_number(group: Seq<char>, i: int)
    requires
        group.len() > 0 ==> 0 <= i < group.len() && !('0' <= group[i] <= '9'),
    ensures
        line_number(Some(group)) is None,
        line_number(None) is None,
{
    lemma_leading(group, digit());
    if leading(group, digit()) == group.len() && group.len() > 0 {
        assert(digit()(group[i]));
    }
}

/// A text in which a character follows "on line ".
pub open spec fn marked_text(before: Seq<char>, c: char, after: Seq<char>) -> Seq<char> {
    before + "on line "@ + seq![c] + after
}

/// A marked line number stands just where the text can be put together around it.
proof fn lemma_marks_line(text: Seq<char>, i: int)
    requires
        marks_line(text, i),
    ensures
        0 <= i < text.len(),
        ({
            let n = i + line_marker().len();
            text == marked_text(text.take(i), text[n], text.skip(n + 1))
        }),
{
    let n = i + line_marker().len();
    assert(text =~= marked_text(text.take(i), text[n], text.skip(n + 1))) by {
        assert(text.subrange(i, n) == "on line "@);
        assert(text =~= text.take(i) + text.subrange(i, n) + seq![text[n]] + text.skip(n + 1));
    }
}

/// Of a text with digits behind "on line ", where no digit stands behind an earlier one of
/// these words and none follows the digits, just the digits are taken.
pub proof fn law_first_marked_number_is_taken(
    before: Seq<char>,
    digits: Seq<char>,
    after: Seq<char>,
)
    requires
        digits.len() > 0,
        forall|i: int| 0 <= i < digits.len() ==> '0' <= #[trigger] digits[i] <= '9',
        after.len() > 0 ==> !('0' <= after[0] <= '9'),
        forall|x: Seq<char>, c: char, y: Seq<char>|
            x.len() < before.len() && before + "on line "@ + digits + after
                == #[trigger] marked_text(x, c, y) ==> !('0' <= c <= '9'),
    ensures
        marked_digits(before + "on line "@ + digits + after) == Some(digits),
{
    let text = before + "on line "@ + digits + after;
    let i = before.len() as int;
    let n = i + line_marker().len();
    let ps = positions(text.len());
    let p = unmarked(text);
    assert forall|k: int| 0 <= k < i implies p(#[trigger] ps[k]) by {
        if marks_line(text, k) {
            lemma_marks_line(text, k);
            assert(text.take(k).len() < before.len());
        }
    }
    assert(text.subrange(i, n) =~= "on line "@);
    assert(text[n] == digits[0]);
    assert(marks_line(text, i));
    lemma_leading_is(ps, p, i as nat);
    let rest = text.skip(n);
    assert(rest =~= digits + after);
    assert forall|k: int| 0 <= k < digits.len() implies digit()(#[trigger] rest[k]) by {
        assert(rest[k] == digits[k]);
    }
    lemma_leading_is(rest, digit(), digits.len());
    assert(rest.take(digits.len() as int) =~= digits);
}

/// A text in which no digit stands behind "on line " has no marked number.
pub proof fn law_text_without_a_marked_number(text: Seq<char>)
    requires
        forall|x: Seq<char>, c: char, y: Seq<char>|
            text == #[trigger] marked_text(x, c, y) ==> !('0' <= c <= '9'),
    ensures
        marked_digits(text) is None,
{
    let ps = positions(text.len());
    let p = unmarked(text);
    assert forall|k: int| 0 <= k < ps.len() implies p(#[trigger] ps[k]) by {
        if marks_line(text, k) {
            lemma_marks_line(text, k);
        }
    }
    lemma_leading_is(ps, p, ps.len());
}

/// In an ASCII text no marker runs into a character outside ASCII.
pub proof fn law_ascii_has_plain_markers(text: Seq<char>)
    requires
        forall|i: int| 0 <= i < text.len() ==> #[trigger] text[i] <= '\u{7f}',
    ensures
        plain_markers(text),
{
    assert forall|i: int| #[trigger] starts_at(text, i, line_marker()) implies {
        let rest = text.skip(i + line_marker().len());
        let n = leading(rest, digit());
        n < rest.len() ==> rest[n as int] <= '\u{7f}'
    } by {
        let rest = text.skip(i + line_marker().len());
        let n = leading(rest, digit());
        if n < rest.len() {
            assert(rest[n as int] == text[i + line_marker().len() + n]);
        }
    }
}

/// An error control operator takes one line: the described one, else the first reported one.
pub proof fn law_operator_takes_one_line(line: u32, begin_line: u32)
    ensures
        operator_lines(Some(line), begin_line) == (line, line),
        operator_lines(None, begin_line) == (begin_line, begin_line),
{
}

/// A line that begins with white space, and then with something else or nothing, is indented
/// by the bytes of that white space.
pub proof fn law_indent_is_the_white_space_in_front(front: Seq<char>, rest: Seq<char>)
    requires
        forall|i: int| 0 <= i < front.len() ==> is_whitespace(#[trigger] front[i]),
        rest.len() > 0 ==> !is_whitespace(rest[0]),
    ensures
        indent(front + rest) == byte_len(front),
        !(front + rest).contains('@') ==> operator_column(front + rest) == byte_len(front),
{
    let line = front + rest;
    assert forall|i: int| 0 <= i < front.len() implies blank()(#[trigger] line[i]) by {
        assert(line[i] == front[i]);
    }
    if rest.len() > 0 {
        assert(line[front.len() as int] == rest[0]);
    }
    lemma_leading_is(line, blank(), front.len());
    assert(line.take(front.len() as int) =~= front);
    if !line.contains('@') {
        lemma_first_nowhere(line, '@');
    }
}

/// The column of an operator is the count of bytes in front of the first `@`.
pub proof fn law_operator_column_is_that_of_the_sign(front: Seq<char>, rest: Seq<char>)
    requires
        !front.contains('@'),
    ensures
        operator_column(front + seq!['@'] + rest) == byte_len(front),
{
    lemma_first_at(front, '@', rest);
    assert((front + seq!['@'] + rest).take(front.len() as int) =~= front);
}

/// The line that a description gives is the number in what the pattern captures, whatever the
/// description holds besides.
pub proof fn law_described_line_is_the_captured_number(description: Seq<char>)
    ensures
        match line_group(description) {
            Some(digits) => described_line(description) == line_number(Some(digits)),
            None => described_line(description) is None,
        },
{
}

} // verus!
