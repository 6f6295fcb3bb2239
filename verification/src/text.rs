//! Character sequences: the searches, splits and measures of text that the rest of the
//! library is stated over.
use vstd::prelude::*;
use vstd::utf8::*;

verus! {

/// `String::push` appends the character at the end.
pub assume_specification[ String::push ](text: &mut String, c: char)
    ensures
        final(text)@ == old(text)@.push(c),
;

/// How many items at the front of `s` satisfy `p`, up to the first that does not.
pub open spec fn leading<A>(s: Seq<A>, p: spec_fn(A) -> bool) -> nat
    decreases s.len(),
{
    if s.len() == 0 || !p(s[0]) {
        0
    } else {
        1 + leading(s.drop_first(), p)
    }
}

/// `leading` counts a prefix that satisfies `p` and stops at an item that does not.
pub proof fn lemma_leading<A>(s: Seq<A>, p: spec_fn(A) -> bool)
    ensures
        leading(s, p) <= s.len(),
        forall|i: int| 0 <= i < leading(s, p) ==> p(#[trigger] s[i]),
        leading(s, p) < s.len() ==> !p(s[leading(s, p) as int]),
    decreases s.len(),
{
    if s.len() != 0 && p(s[0]) {
        let rest = s.drop_first();
        lemma_leading(rest, p);
        assert forall|i: int| 0 <= i < leading(s, p) implies p(#[trigger] s[i]) by {
            if i > 0 {
                assert(s[i] == rest[i - 1]);
            }
        }
    }
}

/// The count that `leading` gives is the only one with those two properties.
pub proof fn lemma_leading_is<A>(s: Seq<A>, p: spec_fn(A) -> bool, n: nat)
    requires
        n <= s.len(),
        forall|i: int| 0 <= i < n ==> p(#[trigger] s[i]),
        n < s.len() ==> !p(s[n as int]),
    ensures
        leading(s, p) == n,
{
    lemma_leading(s, p);
    let m = leading(s, p);
    if m < n {
        assert(p(s[m as int]));
    } else if n < m {
        assert(p(s[n as int]));
    }
}

/// The positions below `n`, in order.
pub open spec fn positions(n: nat) -> Seq<int> {
    Seq::new(n, |i: int| i)
}

/// The characters of `text`, one per element.
pub fn to_chars(text: &str) -> (r: Vec<char>)
    ensures
        r@ == text@,
{
    let mut r: Vec<char> = Vec::new();
    for c in it: text.chars()
        invariant
            it.seq() == text@,
            r@ == it.seq().take(it.index() as int),
    {
        r.push(c);
    }
    r
}

/// Whether two texts hold the same characters.
pub fn same_text(a: &str, b: &str) -> (r: bool)
    ensures
        r == (a@ == b@),
{
    let x = a.as_bytes();
    let y = b.as_bytes();
    proof {
        encode_utf8_decode_utf8(a@);
        encode_utf8_decode_utf8(b@);
    }
    if x.len() != y.len() {
        return false;
    }
    let mut i: usize = 0;
    while i < x.len()
        invariant
            x@.len() == y@.len(),
            i <= x@.len(),
            forall|j: int| 0 <= j < i ==> x@[j] == y@[j],
            x@ == encode_utf8(a@),
            y@ == encode_utf8(b@),
        decreases x@.len() - i,
    {
        if x[i] != y[i] {
            return false;
        }
        i = i + 1;
    }
    assert(x@ =~= y@);
    true
}

/// Whether `pattern` stands in `s` from position `i` on.
pub open spec fn starts_at(s: Seq<char>, i: int, pattern: Seq<char>) -> bool {
    &&& 0 <= i
    &&& i + pattern.len() <= s.len()
    &&& s.subrange(i, i + pattern.len()) == pattern
}

/// Whether `pattern` stands anywhere in `s`.
pub open spec fn occurs_in(pattern: Seq<char>, s: Seq<char>) -> bool {
    exists|i: int| starts_at(s, i, pattern)
}

/// Whether `s` begins with `pattern`.
pub open spec fn begins_with(s: Seq<char>, pattern: Seq<char>) -> bool {
    starts_at(s, 0, pattern)
}

/// Whether `s` ends with `pattern`.
pub open spec fn finishes_with(s: Seq<char>, pattern: Seq<char>) -> bool {
    starts_at(s, s.len() - pattern.len(), pattern)
}

/// Tests for `pattern` at one position.
pub fn matches_at(s: &Vec<char>, i: usize, pattern: &Vec<char>) -> (r: bool)
    ensures
        r == starts_at(s@, i as int, pattern@),
{
    let n: usize = s.len();
    if i > n || n - i < pattern.len() {
        return false;
    }
    let mut k: usize = 0;
    while k < pattern.len()
        invariant
            i + pattern@.len() <= n == s@.len(),
            k <= pattern@.len(),
            forall|j: int| 0 <= j < k ==> s@[i + j] == pattern@[j],
        decreases pattern@.len() - k,
    {
        if s[i + k] != pattern[k] {
            assert(s@.subrange(i as int, i + pattern@.len())[k as int] != pattern@[k as int]);
            return false;
        }
        k = k + 1;
    }
    assert(s@.subrange(i as int, i + pattern@.len()) =~= pattern@);
    true
}

/// Searches the whole of `s` for `pattern`.
pub fn contains_chars(s: &Vec<char>, pattern: &Vec<char>) -> (r: bool)
    ensures
        r == occurs_in(pattern@, s@),
{
    if s.len() < pattern.len() {
        return false;
    }
    let last: usize = s.len() - pattern.len();
    let mut i: usize = 0;
    loop
        invariant
            last == s@.len() - pattern@.len(),
            i <= last,
            forall|j: int| 0 <= j < i ==> !starts_at(s@, j, pattern@),
        decreases last - i,
    {
        if matches_at(s, i, pattern) {
            return true;
        }
        if i == last {
            return false;
        }
        i = i + 1;
    }
}

/// Searches `text` for `pattern`.
pub fn contains(text: &str, pattern: &str) -> (r: bool)
    ensures
        r == occurs_in(pattern@, text@),
{
    contains_chars(&to_chars(text), &to_chars(pattern))
}

/// Whether `text` ends with `suffix`.
pub fn ends_with(text: &str, suffix: &str) -> (r: bool)
    ensures
        r == finishes_with(text@, suffix@),
{
    let s = to_chars(text);
    let p = to_chars(suffix);
    if s.len() < p.len() {
        return false;
    }
    matches_at(&s, s.len() - p.len(), &p)
}

/// The characters with the Unicode property `White_Space`.
pub open spec fn is_whitespace(c: char) -> bool {
    ||| '\t' <= c <= '\r'
    ||| c == ' '
    ||| c == '\u{85}'
    ||| c == '\u{a0}'
    ||| c == '\u{1680}'
    ||| '\u{2000}' <= c <= '\u{200a}'
    ||| c == '\u{2028}'
    ||| c == '\u{2029}'
    ||| c == '\u{202f}'
    ||| c == '\u{205f}'
    ||| c == '\u{3000}'
}

/// Tests one character for the Unicode property `White_Space`.
pub fn whitespace(c: char) -> (r: bool)
    ensures
        r == is_whitespace(c),
{
    ('\t' <= c && c <= '\r') || c == ' ' || c == '\u{85}' || c == '\u{a0}' || c == '\u{1680}' || (
    '\u{2000}' <= c && c <= '\u{200a}') || c == '\u{2028}' || c == '\u{2029}' || c == '\u{202f}'
        || c == '\u{205f}' || c == '\u{3000}'
}

/// The predicate that holds of every character but `c`.
pub open spec fn other_than(c: char) -> spec_fn(char) -> bool {
    |x: char| x != c
}

/// The predicate that holds of white space.
pub open spec fn blank() -> spec_fn(char) -> bool {
    |x: char| is_whitespace(x)
}

/// `s` without the white space in front.
pub open spec fn trim_start(s: Seq<char>) -> Seq<char> {
    s.skip(leading(s, blank()) as int)
}

/// `s` without the white space at the back.
pub open spec fn trim_end(s: Seq<char>) -> Seq<char>
    decreases s.len(),
{
    if s.len() > 0 && is_whitespace(s.last()) {
        trim_end(s.drop_last())
    } else {
        s
    }
}

/// `s` without the white space at either end.
pub open spec fn trim(s: Seq<char>) -> Seq<char> {
    trim_end(trim_start(s))
}

/// Position of the first `c` in `s`, or the length of `s`.
pub fn position_of(s: &Vec<char>, c: char) -> (r: usize)
    ensures
        r == leading(s@, other_than(c)),
        r <= s@.len(),
{
    let mut i: usize = 0;
    while i < s.len() && s[i] != c
        invariant
            i <= s@.len(),
            forall|j: int| 0 <= j < i ==> s@[j] != c,
        decreases s@.len() - i,
    {
        i = i + 1;
    }
    proof {
        lemma_leading_is(s@, other_than(c), i as nat);
    }
    i
}

/// How many white space characters stand in front of `s`.
pub fn leading_whitespace(s: &Vec<char>) -> (r: usize)
    ensures
        r == leading(s@, blank()),
        r <= s@.len(),
{
    let mut i: usize = 0;
    while i < s.len() && whitespace(s[i])
        invariant
            i <= s@.len(),
            forall|j: int| 0 <= j < i ==> is_whitespace(#[trigger] s@[j]),
        decreases s@.len() - i,
    {
        i = i + 1;
    }
    proof {
        lemma_leading_is(s@, blank(), i as nat);
    }
    i
}

/// Copies the characters from position `from` up to position `to`.
pub fn copy_range(s: &Vec<char>, from: usize, to: usize) -> (r: Vec<char>)
    requires
        from <= to <= s@.len(),
    ensures
        r@ == s@.subrange(from as int, to as int),
{
    let mut r: Vec<char> = Vec::new();
    let mut i: usize = from;
    while i < to
        invariant
            from <= i <= to <= s@.len(),
            r@ == s@.subrange(from as int, i as int),
        decreases to - i,
    {
        r.push(s[i]);
        assert(s@.subrange(from as int, i + 1) =~= s@.subrange(from as int, i as int).push(
            s@[i as int],
        ));
        i = i + 1;
    }
    r
}

/// Builds the text that holds the given characters.
pub fn to_text(s: &Vec<char>) -> (r: String)
    ensures
        r@ == s@,
{
    let mut r: String = String::new();
    let mut i: usize = 0;
    while i < s.len()
        invariant
            i <= s@.len(),
            r@ == s@.take(i as int),
        decreases s@.len() - i,
    {
        r.push(s[i]);
        assert(s@.take(i + 1) =~= s@.take(i as int).push(s@[i as int]));
        i = i + 1;
    }
    assert(s@.take(i as int) =~= s@);
    r
}

/// Removes the white space at both ends.
pub fn trimmed(s: &Vec<char>) -> (r: Vec<char>)
    ensures
        r@ == trim(s@),
{
    let from = leading_whitespace(s);
    let mut to: usize = s.len();
    assert(s@.subrange(from as int, to as int) =~= trim_start(s@));
    while from < to && whitespace(s[to - 1])
        invariant
            from <= to <= s@.len(),
            trim_end(s@.subrange(from as int, to as int)) == trim(s@),
        decreases to,
    {
        assert(s@.subrange(from as int, to as int).drop_last() =~= s@.subrange(
            from as int,
            to - 1,
        ));
        to = to - 1;
    }
    copy_range(s, from, to)
}

/// Joins two texts.
pub fn joined(a: &str, b: &str) -> (r: String)
    ensures
        r@ == a@ + b@,
{
    let mut r: String = a.to_owned();
    let tail = to_chars(b);
    let mut i: usize = 0;
    while i < tail.len()
        invariant
            i <= tail@.len(),
            tail@ == b@,
            r@ == a@ + tail@.take(i as int),
        decreases tail@.len() - i,
    {
        r.push(tail[i]);
        assert(tail@.take(i + 1) =~= tail@.take(i as int).push(tail@[i as int]));
        i = i + 1;
    }
    assert(tail@.take(i as int) =~= b@);
    r
}

/// A line without the carriage return that may end it.
pub open spec fn drop_return(line: Seq<char>) -> Seq<char> {
    if line.len() > 0 && line.last() == '\r' {
        line.drop_last()
    } else {
        line
    }
}

/// The lines of `s`. A line ends at a line feed, or at a carriage return and a line feed,
/// and holds neither; what follows the last line feed is a line unless it is empty, and
/// keeps a carriage return that ends it.
pub open spec fn lines(s: Seq<char>) -> Seq<Seq<char>>
    decreases s.len(),
{
    let n = leading(s, other_than('\n')) as int;
    if s.len() == 0 {
        seq![]
    } else if n >= s.len() {
        seq![s]
    } else {
        seq![drop_return(s.take(n))] + lines(s.skip(n + 1))
    }
}

/// What an optional text holds.
pub open spec fn text_of(text: Option<String>) -> Option<Seq<char>> {
    match text {
        Some(t) => Some(t@),
        None => None,
    }
}

/// What a list of texts holds.
pub open spec fn texts(v: Seq<String>) -> Seq<Seq<char>> {
    Seq::new(v.len(), |i: int| v[i]@)
}

/// Splits a text into its lines.
pub fn split_lines(text: &str) -> (r: Vec<String>)
    ensures
        texts(r@) == lines(text@),
{
    let s = to_chars(text);
    let mut r: Vec<String> = Vec::new();
    let mut from: usize = 0;
    assert(s@.skip(0) =~= s@);
    assert(texts(r@) + lines(s@) =~= lines(s@));
    while from < s.len()
        invariant
            s@ == text@,
            from <= s@.len(),
            texts(r@) + lines(s@.skip(from as int)) == lines(s@),
        decreases s@.len() - from,
    {
        let ghost rest = s@.skip(from as int);
        let mut to: usize = from;
        while to < s.len() && s[to] != '\n'
            invariant
                from <= to <= s@.len(),
                forall|j: int| from <= j < to ==> s@[j] != '\n',
            decreases s@.len() - to,
        {
            to = to + 1;
        }
        proof {
            assert forall|i: int| 0 <= i < to - from implies other_than('\n')(
                #[trigger] rest[i],
            ) by {
                assert(rest[i] == s@[from + i]);
            }
            lemma_leading_is(rest, other_than('\n'), (to - from) as nat);
        }
        let ghost before = r@;
        if to == s.len() {
            let line = copy_range(&s, from, to);
            r.push(to_text(&line));
            proof {
                assert(line@ =~= rest);
                assert(lines(rest) =~= seq![rest]);
                assert(texts(r@) =~= texts(before) + seq![rest]);
                assert(s@.skip(to as int) =~= Seq::<char>::empty());
                assert(texts(r@) + lines(s@.skip(to as int)) =~= texts(r@));
            }
            from = to;
        } else {
            let mut end: usize = to;
            if from < to && s[to - 1] == '\r' {
                end = to - 1;
            }
            let line = copy_range(&s, from, end);
            r.push(to_text(&line));
            proof {
                assert(rest.take(to - from) =~= s@.subrange(from as int, to as int));
                assert(line@ =~= drop_return(rest.take(to - from)));
                assert(rest.skip(to - from + 1) =~= s@.skip(to + 1));
                assert(texts(r@) =~= texts(before) + seq![line@]);
                assert(texts(r@) + lines(s@.skip(to + 1)) =~= texts(before) + lines(rest));
            }
            from = to + 1;
        }
    }
    assert(s@.skip(from as int) =~= Seq::<char>::empty());
    assert(texts(r@) + lines(s@.skip(from as int)) =~= texts(r@));
    r
}

/// How many bytes the UTF-8 encoding of `s` takes.
pub open spec fn byte_len(s: Seq<char>) -> nat {
    encode_utf8(s).len()
}

/// The encoding of a concatenation is the concatenation of the encodings.
pub proof fn lemma_encode_concat(a: Seq<char>, b: Seq<char>)
    ensures
        encode_utf8(a + b) == encode_utf8(a) + encode_utf8(b),
    decreases a.len(),
{
    if a.len() == 0 {
        assert(a + b =~= b);
        assert(encode_utf8(a) + encode_utf8(b) =~= encode_utf8(b));
    } else {
        assert((a + b).drop_first() =~= a.drop_first() + b);
        lemma_encode_concat(a.drop_first(), b);
        assert(encode_utf8(a + b) =~= encode_utf8(a) + encode_utf8(b));
    }
}

/// How many bytes one character takes in UTF-8.
pub fn char_width(c: char) -> (r: usize)
    ensures
        r == byte_len(seq![c]),
        1 <= r <= 4,
{
    let code: u32 = c as u32;
    proof {
        assert(seq![c].drop_first() =~= Seq::<char>::empty());
        assert(encode_utf8(seq![c].drop_first()).len() == 0);
        assert(byte_len(seq![c]) == encode_scalar(code).len());
    }
    if code <= 0x7f {
        1
    } else if code <= 0x7ff {
        2
    } else if code <= 0xffff {
        3
    } else {
        4
    }
}

/// Byte offset in `text` of the character at position `end`, where `s` holds the characters
/// of `text`.
pub fn byte_offset(text: &str, s: &Vec<char>, end: usize) -> (r: usize)
    requires
        s@ == text@,
        end <= s@.len(),
    ensures
        r == byte_len(text@.take(end as int)),
{
    let total: usize = text.as_bytes().len();
    let mut r: usize = 0;
    let mut i: usize = 0;
    assert(s@.take(0) =~= Seq::<char>::empty());
    while i < end
        invariant
            i <= end <= s@.len(),
            byte_len(s@) == total,
            r == byte_len(s@.take(i as int)),
        decreases end - i,
    {
        let width = char_width(s[i]);
        proof {
            let c = s@[i as int];
            assert(s@.take(i + 1) =~= s@.take(i as int) + seq![c]);
            lemma_encode_concat(s@.take(i as int), seq![c]);
            assert(s@ =~= s@.take(i + 1) + s@.skip(i + 1));
            lemma_encode_concat(s@.take(i + 1), s@.skip(i + 1));
        }
        r = r + width;
        i = i + 1;
    }
    r
}

/// `piece` with `before` in front of it and `after` behind it.
pub open spec fn placed(before: Seq<char>, piece: Seq<char>, after: Seq<char>) -> Seq<char> {
    before + piece + after
}

/// Whether `text` is `piece` with something, possibly nothing, in front of it and behind it.
pub open spec fn within(piece: Seq<char>, text: Seq<char>) -> bool {
    exists|before: Seq<char>, after: Seq<char>| text == #[trigger] placed(before, piece, after)
}

/// A search finds a piece just where the text can be put together around it.
pub proof fn law_search_finds_what_is_within(piece: Seq<char>, text: Seq<char>)
    ensures
        occurs_in(piece, text) <==> within(piece, text),
{
    if occurs_in(piece, text) {
        let i = choose|i: int| starts_at(text, i, piece);
        assert(placed(text.take(i), piece, text.skip(i + piece.len())) =~= text);
    }
    if within(piece, text) {
        let (before, after) = choose|before: Seq<char>, after: Seq<char>|
            text == #[trigger] placed(before, piece, after);
        assert(text.subrange(
            before.len() as int,
            (before.len() + piece.len()) as int,
        ) =~= piece);
        assert(starts_at(text, before.len() as int, piece));
    }
}

/// A text begins with what stands in front of it, and ends with what stands behind it.
pub proof fn law_ends_of_a_joined_text(a: Seq<char>, b: Seq<char>)
    ensures
        begins_with(a + b, a),
        finishes_with(a + b, b),
{
    assert((a + b).subrange(0, a.len() as int) =~= a);
    assert((a + b).subrange(a.len() as int, (a + b).len() as int) =~= b);
}

/// What a text begins or ends with can be split off.
pub proof fn law_ends_can_be_split_off(text: Seq<char>, piece: Seq<char>)
    ensures
        begins_with(text, piece) ==> exists|rest: Seq<char>| text == #[trigger] (piece + rest),
        finishes_with(text, piece) ==> exists|rest: Seq<char>| text == #[trigger] (rest + piece),
{
    if begins_with(text, piece) {
        assert(text =~= piece + text.skip(piece.len() as int));
    }
    if finishes_with(text, piece) {
        assert(text =~= text.take(text.len() - piece.len()) + piece);
    }
}

/// What `trim_end` keeps and what it takes off.
pub proof fn lemma_trim_end_splits(s: Seq<char>)
    ensures
        trim_end(s).len() <= s.len(),
        trim_end(s) == s.take(trim_end(s).len() as int),
        forall|i: int| trim_end(s).len() <= i < s.len() ==> is_whitespace(#[trigger] s[i]),
        trim_end(s).len() > 0 ==> !is_whitespace(trim_end(s).last()),
    decreases s.len(),
{
    if s.len() > 0 && is_whitespace(s.last()) {
        lemma_trim_end_splits(s.drop_last());
        let n = trim_end(s).len() as int;
        assert(s.drop_last().take(n) =~= s.take(n));
        assert forall|i: int| n <= i < s.len() implies is_whitespace(#[trigger] s[i]) by {
            if i < s.len() - 1 {
                assert(s.drop_last()[i] == s[i]);
            }
        }
    } else {
        assert(s.take(s.len() as int) =~= s);
    }
}

/// `trim_end` takes white space off the back and stops at a character that is none.
proof fn lemma_trim_end(middle: Seq<char>, back: Seq<char>)
    requires
        forall|i: int| 0 <= i < back.len() ==> is_whitespace(#[trigger] back[i]),
        middle.len() > 0 ==> !is_whitespace(middle.last()),
    ensures
        trim_end(middle + back) == middle,
    decreases back.len(),
{
    let all = middle + back;
    if back.len() > 0 {
        assert(all.last() == back.last());
        assert(is_whitespace(back[back.len() - 1]));
        assert(all.drop_last() =~= middle + back.drop_last());
        lemma_trim_end(middle, back.drop_last());
    } else {
        assert(all =~= middle);
    }
}

/// Trimming gives what stands between white space in front and behind.
pub proof fn law_trimming_takes_off_white_space(
    front: Seq<char>,
    middle: Seq<char>,
    back: Seq<char>,
)
    requires
        forall|i: int| 0 <= i < front.len() ==> is_whitespace(#[trigger] front[i]),
        forall|i: int| 0 <= i < back.len() ==> is_whitespace(#[trigger] back[i]),
        middle.len() > 0 ==> !is_whitespace(middle[0]) && !is_whitespace(middle.last()),
    ensures
        trim(front + middle + back) == middle,
{
    let all = front + middle + back;
    if middle.len() > 0 {
        assert forall|i: int| 0 <= i < front.len() implies blank()(#[trigger] all[i]) by {
            assert(all[i] == front[i]);
        }
        assert(all[front.len() as int] == middle[0]);
        lemma_leading_is(all, blank(), front.len());
        assert(all.skip(front.len() as int) =~= middle + back);
        lemma_trim_end(middle, back);
    } else {
        assert forall|i: int| 0 <= i < all.len() implies blank()(#[trigger] all[i]) by {
            if i < front.len() {
                assert(all[i] == front[i]);
            } else {
                assert(all[i] == back[i - front.len()]);
            }
        }
        lemma_leading_is(all, blank(), all.len());
        assert(all.skip(all.len() as int) =~= middle);
    }
}

/// The predicate `other_than` counts up to the first of a character that stands nowhere
/// before.
pub proof fn lemma_first_at(before: Seq<char>, c: char, after: Seq<char>)
    requires
        !before.contains(c),
    ensures
        leading(before + seq![c] + after, other_than(c)) == before.len(),
{
    let all = before + seq![c] + after;
    assert forall|i: int| 0 <= i < before.len() implies other_than(c)(#[trigger] all[i]) by {
        assert(all[i] == before[i]);
        assert(before.contains(before[i]));
    }
    assert(all[before.len() as int] == c);
    lemma_leading_is(all, other_than(c), before.len());
}

/// The predicate `other_than` counts the whole of a text without the character.
pub proof fn lemma_first_nowhere(text: Seq<char>, c: char)
    requires
        !text.contains(c),
    ensures
        leading(text, other_than(c)) == text.len(),
{
    assert forall|i: int| 0 <= i < text.len() implies other_than(c)(#[trigger] text[i]) by {
        assert(text.contains(text[i]));
    }
    lemma_leading_is(text, other_than(c), text.len());
}

/// The first line of a text ends at its first line feed, without a carriage return in front
/// of that, and the other lines are those of what follows.
pub proof fn law_lines_end_at_line_feeds(first: Seq<char>, rest: Seq<char>)
    requires
        !first.contains('\n'),
    ensures
        !(first.len() > 0 && first.last() == '\r') ==> lines(first + seq!['\n'] + rest) == seq![
            first,
        ] + lines(rest),
        lines(first + seq!['\r'] + seq!['\n'] + rest) == seq![first] + lines(rest),
{
    lemma_first_at(first, '\n', rest);
    let all = first + seq!['\n'] + rest;
    assert(all.take(first.len() as int) =~= first);
    assert(all.skip(first.len() as int + 1) =~= rest);
    let longer = first.push('\r');
    assert forall|i: int| 0 <= i < longer.len() implies longer[i] != '\n' by {
        if i < first.len() {
            assert(first.contains(first[i]));
        }
    }
    lemma_first_at(longer, '\n', rest);
    let returned = first + seq!['\r'] + seq!['\n'] + rest;
    assert(returned =~= longer + seq!['\n'] + rest);
    assert(returned.take(longer.len() as int) =~= longer);
    assert(longer.drop_last() =~= first);
    assert(returned.skip(longer.len() as int + 1) =~= rest);
}

/// A text without a line feed is one line, a carriage return at its end included; the empty
/// text has no line.
pub proof fn law_last_line_is_kept(text: Seq<char>)
    requires
        !text.contains('\n'),
    ensures
        text.len() > 0 ==> lines(text) == seq![text],
        text.len() == 0 ==> lines(text).len() == 0,
{
    lemma_first_nowhere(text, '\n');
}

/// Bytes add up over a text; a character takes as many as UTF-8 gives it.
pub proof fn law_bytes_add_up(a: Seq<char>, b: Seq<char>, c: char)
    ensures
        byte_len(a + b) == byte_len(a) + byte_len(b),
        byte_len(Seq::empty()) == 0,
        byte_len(seq![c]) == if c <= '\u{7f}' {
            1nat
        } else if c <= '\u{7ff}' {
            2
        } else if c <= '\u{ffff}' {
            3
        } else {
            4
        },
{
    lemma_encode_concat(a, b);
    assert(seq![c].drop_first() =~= Seq::<char>::empty());
    assert(encode_utf8(seq![c].drop_first()).len() == 0);
    assert(byte_len(seq![c]) == encode_scalar(c as u32).len());
}

/// A list of texts holds what each of them holds, in order.
pub proof fn law_texts_are_those_of_the_list(v: Seq<String>, text: Option<String>)
    ensures
        texts(v).len() == v.len(),
        forall|i: int| 0 <= i < v.len() ==> #[trigger] texts(v)[i] == v[i]@,
        match text {
            Some(t) => text_of(text) == Some(t@),
            None => text_of(text) is None,
        },
{
}

} // verus!
