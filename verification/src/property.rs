//! Properties of a PHP class: the name that a violation description gives, and the line of
//! the source that declares it.
//!
//! PHPMD reports naming violations of properties with the lines of the class.
use crate::text::{
    begins_with, blank, contains_chars, copy_range, is_whitespace, joined,
    law_search_finds_what_is_within, leading, lemma_first_at, lemma_first_nowhere, lemma_leading,
    lemma_leading_is, lemma_trim_end_splits, lines, matches_at, occurs_in, other_than, placed,
    position_of, split_lines, texts, to_chars, to_text, trim, trim_start, trimmed, within,
};
use vstd::prelude::*;

verus! {

/// Whether a character is alphabetic or numeric in Unicode.
pub uninterp spec fn is_alphanumeric(c: char) -> bool;

/// The letters and digits of ASCII.
pub open spec fn is_ascii_alphanumeric(c: char) -> bool {
    'a' <= c <= 'z' || 'A' <= c <= 'Z' || '0' <= c <= '9'
}

/// `char::is_alphanumeric` tells whether a character is alphabetic or numeric in Unicode.
/// In ASCII those are the letters and the digits; for other characters the answer is left
/// to the name `is_alphanumeric`.
pub assume_specification[ char::is_alphanumeric ](c: char) -> (r: bool)
    ensures
        r == is_alphanumeric(c),
        c <= '\u{7f}' ==> r == is_ascii_alphanumeric(c),
;

/// The predicate that holds of the characters of a name.
pub open spec fn name_char() -> spec_fn(char) -> bool {
    |c: char| is_alphanumeric(c) || c == '_'
}

/// The name after the first `$` of a description: the run of letters, digits and
/// underscores, which may be empty.
pub open spec fn described_property(description: Seq<char>) -> Option<Seq<char>> {
    let n = leading(description, other_than('$')) as int;
    if n < description.len() {
        let rest = description.skip(n + 1);
        Some(rest.take(leading(rest, name_char()) as int))
    } else {
        None
    }
}

/// The predicate that holds of the characters of a name in ASCII.
pub open spec fn ascii_name_char() -> spec_fn(char) -> bool {
    |c: char| is_ascii_alphanumeric(c) || c == '_'
}

/// The name after the first `$` of an ASCII description.
pub open spec fn described_ascii_property(description: Seq<char>) -> Option<Seq<char>> {
    let n = leading(description, other_than('$')) as int;
    if n < description.len() {
        let rest = description.skip(n + 1);
        Some(rest.take(leading(rest, ascii_name_char()) as int))
    } else {
        None
    }
}

/// Reads the property name from a description such as "The property $property_name is not
/// named in camelCase."
pub fn property_name_of(description: &str) -> (r: Option<String>)
    ensures
        crate::text::text_of(r) == described_property(description@),
        vstd::utf8::is_ascii_chars(description@) ==> crate::text::text_of(r)
            == described_ascii_property(description@),
{
    let s = to_chars(description);
    let n: usize = s.len();
    let dollar = position_of(&s, '$');
    if dollar == n {
        return None;
    }
    let from: usize = dollar + 1;
    let mut to: usize = from;
    while to < n && (s[to].is_alphanumeric() || s[to] == '_')
        invariant
            n == s@.len(),
            from <= to <= n,
            forall|j: int| from <= j < to ==> name_char()(#[trigger] s@[j]),
            forall|j: int|
                from <= j < to && s@[j] <= '\u{7f}' ==> ascii_name_char()(#[trigger] s@[j]),
        decreases n - to,
    {
        to = to + 1;
    }
    let name = copy_range(&s, from, to);
    proof {
        let rest = s@.skip(from as int);
        assert forall|i: int| 0 <= i < to - from implies name_char()(#[trigger] rest[i]) by {
            assert(rest[i] == s@[from + i]);
        }
        lemma_leading_is(rest, name_char(), (to - from) as nat);
        assert(name@ =~= rest.take(to - from));
        if vstd::utf8::is_ascii_chars(description@) {
            assert forall|i: int| 0 <= i < to - from implies ascii_name_char()(
                #[trigger] rest[i],
            ) by {
                assert(rest[i] == s@[from + i]);
            }
            lemma_leading_is(rest, ascii_name_char(), (to - from) as nat);
        }
    }
    Some(to_text(&name))
}

/// Whether a line is part of a comment.
pub open spec fn is_comment(line: Seq<char>) -> bool {
    let t = trim(line);
    begins_with(t, "//"@) || begins_with(t, "/*"@) || begins_with(t, "*"@)
}

/// Whether a line has a word that a declaration begins with.
pub open spec fn has_visibility(line: Seq<char>) -> bool {
    ||| occurs_in("private"@, line)
    ||| occurs_in("protected"@, line)
    ||| occurs_in("public"@, line)
    ||| occurs_in("var"@, line)
    ||| occurs_in("static"@, line)
}

/// Whether a line declares the property `name`: it has `$name` outside a comment, a
/// function signature and an access through `$this->` or `self::`, and it has a visibility
/// word, or an assignment or a semicolon right after the name.
pub open spec fn declares(line: Seq<char>, name: Seq<char>) -> bool {
    let property = "$"@ + name;
    &&& !is_comment(line)
    &&& occurs_in(property, line)
    &&& !(occurs_in("function"@, line) && occurs_in("("@, line))
    &&& !occurs_in("$this->"@ + name, line)
    &&& !occurs_in("self::$"@ + name, line)
    &&& {
        ||| has_visibility(line)
        ||| occurs_in(property + " ="@, line)
        ||| occurs_in(property + "="@, line)
        ||| occurs_in(property + ";"@, line)
    }
}

/// The predicate that holds of the lines that do not declare `name`.
pub open spec fn declares_other_than(name: Seq<char>) -> spec_fn(Seq<char>) -> bool {
    |line: Seq<char>| !declares(line, name)
}

/// Number of the first line of `content`, counted from 1, that declares `name`.
pub open spec fn property_line(name: Seq<char>, content: Seq<char>) -> Option<u32> {
    let n = leading(lines(content), declares_other_than(name));
    if n < lines(content).len() {
        Some((n + 1) as u32)
    } else {
        None
    }
}

/// The line that is found is in the document and declares the property, and no line before
/// it does; where none is found, no line declares the property.
pub proof fn law_property_line_declares(name: Seq<char>, content: Seq<char>)
    requires
        lines(content).len() <= u32::MAX,
    ensures
        match property_line(name, content) {
            Some(n) => 1 <= n <= lines(content).len() && declares(lines(content)[n - 1], name)
                && forall|i: int| 0 <= i < n - 1 ==> !declares(#[trigger] lines(content)[i], name),
            None => forall|i: int|
                0 <= i < lines(content).len() ==> !declares(#[trigger] lines(content)[i], name),
        },
{
    let all = lines(content);
    let p = declares_other_than(name);
    lemma_leading(all, p);
    assert forall|i: int| 0 <= i < leading(all, p) implies !declares(#[trigger] all[i], name) by {
        assert(p(all[i]));
    }
    if leading(all, p) < all.len() {
        assert(!p(all[leading(all, p) as int]));
    }
}

/// Tests a line for being part of a comment.
fn comment(line: &Vec<char>) -> (r: bool)
    ensures
        r == is_comment(line@),
{
    let t = trimmed(line);
    matches_at(&t, 0, &to_chars("//")) || matches_at(&t, 0, &to_chars("/*")) || matches_at(
        &t,
        0,
        &to_chars("*"),
    )
}

/// Tests a line for a piece of text.
fn has_piece(line: &Vec<char>, piece: &str) -> (r: bool)
    ensures
        r == occurs_in(piece@, line@),
{
    contains_chars(line, &to_chars(piece))
}

/// Tests whether a line declares a property.
pub fn declares_property(line: &str, property_name: &str) -> (r: bool)
    ensures
        r == declares(line@, property_name@),
{
    let s = to_chars(line);
    let property = joined("$", property_name);
    if comment(&s) || !has_piece(&s, property.as_str()) {
        return false;
    }
    if has_piece(&s, "function") && has_piece(&s, "(") {
        return false;
    }
    if has_piece(&s, joined("$this->", property_name).as_str()) || has_piece(
        &s,
        joined("self::$", property_name).as_str(),
    ) {
        return false;
    }
    let visible = has_piece(&s, "private") || has_piece(&s, "protected") || has_piece(
        &s,
        "public",
    ) || has_piece(&s, "var") || has_piece(&s, "static");
    visible || has_piece(&s, joined(property.as_str(), " =").as_str()) || has_piece(
        &s,
        joined(property.as_str(), "=").as_str(),
    ) || has_piece(&s, joined(property.as_str(), ";").as_str())
}

/// Finds the line of `content` that declares a property.
pub fn find_property_line(property_name: &str, content: &str) -> (r: Option<u32>)
    ensures
        r == property_line(property_name@, content@),
{
    let all = split_lines(content);
    let n: usize = all.len();
    let mut i: usize = 0;
    while i < n
        invariant
            n == all@.len(),
            i <= n,
            texts(all@) == lines(content@),
            forall|j: int| 0 <= j < i ==> !declares(#[trigger] texts(all@)[j], property_name@),
        decreases n - i,
    {
        if declares_property(all[i].as_str(), property_name) {
            proof {
                lemma_leading_is(
                    lines(content@),
                    declares_other_than(property_name@),
                    i as nat,
                );
            }
            let number: usize = i + 1;
            return Some(number as u32);
        }
        assert(texts(all@)[i as int] == all@[i as int]@);
        i = i + 1;
    }
    proof {
        lemma_leading_is(lines(content@), declares_other_than(property_name@), n as nat);
    }
    None
}

/// Whether `piece` stands at the front of a line, behind nothing but white space.
pub open spec fn comes_first(piece: Seq<char>, line: Seq<char>) -> bool {
    exists|front: Seq<char>, rest: Seq<char>|
        line == #[trigger] placed(front, piece, rest) && forall|i: int|
            0 <= i < front.len() ==> is_whitespace(#[trigger] front[i])
}

/// A trimmed line begins with a piece that has no white space at its ends just where the
/// piece comes first on the line.
proof fn lemma_trimmed_begins(line: Seq<char>, piece: Seq<char>)
    requires
        piece.len() > 0,
        !is_whitespace(piece[0]),
        !is_whitespace(piece.last()),
    ensures
        begins_with(trim(line), piece) <==> comes_first(piece, line),
{
    let n = leading(line, blank()) as int;
    lemma_leading(line, blank());
    let started = trim_start(line);
    let t = trim(line);
    lemma_trim_end_splits(started);
    if begins_with(t, piece) {
        let front = line.take(n);
        let rest = line.skip(n + piece.len());
        assert forall|i: int| 0 <= i < front.len() implies is_whitespace(#[trigger] front[i]) by {
            assert(blank()(line[i]));
        }
        assert forall|i: int| 0 <= i < piece.len() implies line[n + i] == piece[i] by {
            assert(t.subrange(0, piece.len() as int)[i] == piece[i]);
            assert(t[i] == started[i]);
        }
        assert(placed(front, piece, rest) =~= line);
    }
    if comes_first(piece, line) {
        let (front, rest) = choose|front: Seq<char>, rest: Seq<char>|
            line == #[trigger] placed(front, piece, rest) && forall|i: int|
                0 <= i < front.len() ==> is_whitespace(#[trigger] front[i]);
        assert forall|i: int| 0 <= i < front.len() implies blank()(#[trigger] line[i]) by {
            assert(line[i] == front[i]);
        }
        assert(line[front.len() as int] == piece[0]);
        lemma_leading_is(line, blank(), front.len());
        assert(started =~= piece + rest);
        let m = piece.len() as int;
        assert(started[m - 1] == piece.last());
        assert(t.len() >= m);
        assert(t.subrange(0, m) =~= piece);
    }
}

/// A comment is a line on which `//`, `/*` or `*` comes first.
pub proof fn law_comment_has_its_sign_first(line: Seq<char>)
    ensures
        is_comment(line) <==> comes_first("//"@, line) || comes_first("/*"@, line)
            || comes_first("*"@, line),
{
    reveal_strlit("//");
    reveal_strlit("/*");
    reveal_strlit("*");
    lemma_trimmed_begins(line, "//"@);
    lemma_trimmed_begins(line, "/*"@);
    lemma_trimmed_begins(line, "*"@);
}

/// Whether a line has one of the words that a declaration begins with, or the property right
/// in front of an assignment or a semicolon.
pub open spec fn looks_declared(line: Seq<char>, name: Seq<char>) -> bool {
    ||| within("private"@, line)
    ||| within("protected"@, line)
    ||| within("public"@, line)
    ||| within("var"@, line)
    ||| within("static"@, line)
    ||| within("$"@ + name + " ="@, line)
    ||| within("$"@ + name + "="@, line)
    ||| within("$"@ + name + ";"@, line)
}

/// What `declares` searches for, it finds where it is within the line.
proof fn lemma_searches(line: Seq<char>, name: Seq<char>)
    ensures
        occurs_in("$"@ + name, line) <==> within("$"@ + name, line),
        occurs_in("function"@, line) <==> within("function"@, line),
        occurs_in("("@, line) <==> within("("@, line),
        occurs_in("$this->"@ + name, line) <==> within("$this->"@ + name, line),
        occurs_in("self::$"@ + name, line) <==> within("self::$"@ + name, line),
        (has_visibility(line) || occurs_in("$"@ + name + " ="@, line) || occurs_in(
            "$"@ + name + "="@,
            line,
        ) || occurs_in("$"@ + name + ";"@, line)) <==> looks_declared(line, name),
{
    law_search_finds_what_is_within("$"@ + name, line);
    law_search_finds_what_is_within("function"@, line);
    law_search_finds_what_is_within("("@, line);
    law_search_finds_what_is_within("$this->"@ + name, line);
    law_search_finds_what_is_within("self::$"@ + name, line);
    law_search_finds_what_is_within("private"@, line);
    law_search_finds_what_is_within("protected"@, line);
    law_search_finds_what_is_within("public"@, line);
    law_search_finds_what_is_within("var"@, line);
    law_search_finds_what_is_within("static"@, line);
    law_search_finds_what_is_within("$"@ + name + " ="@, line);
    law_search_finds_what_is_within("$"@ + name + "="@, line);
    law_search_finds_what_is_within("$"@ + name + ";"@, line);
}

/// A line that has the property, and looks like a declaration of it, declares it, whatever
/// else stands on the line: unless it is a comment or accesses the property through `$this->`
/// or `self::`, and as long as it has no word `function`, or has one and no parenthesis.
pub proof fn law_declaration_is_recognized(line: Seq<char>, name: Seq<char>)
    requires
        within("$"@ + name, line),
        looks_declared(line, name),
        !comes_first("//"@, line),
        !comes_first("/*"@, line),
        !comes_first("*"@, line),
        !within("$this->"@ + name, line),
        !within("self::$"@ + name, line),
        !within("function"@, line) || !within("("@, line),
    ensures
        declares(line, name),
{
    lemma_searches(line, name);
    law_comment_has_its_sign_first(line);
}

/// A line without the property, one that does not look like a declaration of it, a comment, a
/// function signature, and an access through `$this->` or `self::` declare no property.
pub proof fn law_use_is_no_declaration(line: Seq<char>, name: Seq<char>)
    requires
        ({
            ||| !within("$"@ + name, line)
            ||| !looks_declared(line, name)
            ||| comes_first("//"@, line)
            ||| comes_first("/*"@, line)
            ||| comes_first("*"@, line)
            ||| within("$this->"@ + name, line)
            ||| within("self::$"@ + name, line)
            ||| within("function"@, line) && within("("@, line)
        }),
    ensures
        !declares(line, name),
{
    lemma_searches(line, name);
    law_comment_has_its_sign_first(line);
}

/// The property that a description names is the run of name characters behind its first `$`,
/// be it empty.
pub proof fn law_described_property_is_the_first_name(
    before: Seq<char>,
    name: Seq<char>,
    after: Seq<char>,
)
    requires
        !before.contains('$'),
    ensures
        (forall|i: int|
            0 <= i < name.len() ==> is_alphanumeric(#[trigger] name[i]) || name[i] == '_') && (
        after.len() > 0 ==> !is_alphanumeric(after[0]) && after[0] != '_') ==> described_property(
            before + seq!['$'] + (name + after),
        ) == Some(name),
        (forall|i: int|
            0 <= i < name.len() ==> 'a' <= #[trigger] name[i] <= 'z' || 'A' <= name[i] <= 'Z'
                || '0' <= name[i] <= '9' || name[i] == '_') && (after.len() > 0 ==> !('a'
            <= after[0] <= 'z' || 'A' <= after[0] <= 'Z' || '0' <= after[0] <= '9' || after[0]
            == '_')) ==> described_ascii_property(before + seq!['$'] + (name + after)) == Some(name),
{
    let rest = name + after;
    let text = before + seq!['$'] + rest;
    lemma_first_at(before, '$', rest);
    assert(text.skip(before.len() as int + 1) =~= rest);
    assert(rest.take(name.len() as int) =~= name);
    if after.len() > 0 {
        assert(rest[name.len() as int] == after[0]);
    }
    if (forall|i: int|
        0 <= i < name.len() ==> is_alphanumeric(#[trigger] name[i]) || name[i] == '_') && (
    after.len() > 0 ==> !is_alphanumeric(after[0]) && after[0] != '_') {
        assert forall|i: int| 0 <= i < name.len() implies name_char()(#[trigger] rest[i]) by {
            assert(rest[i] == name[i]);
        }
        lemma_leading_is(rest, name_char(), name.len());
    }
    if (forall|i: int|
        0 <= i < name.len() ==> 'a' <= #[trigger] name[i] <= 'z' || 'A' <= name[i] <= 'Z' || '0'
            <= name[i] <= '9' || name[i] == '_') && (after.len() > 0 ==> !('a' <= after[0] <= 'z'
        || 'A' <= after[0] <= 'Z' || '0' <= after[0] <= '9' || after[0] == '_')) {
        assert forall|i: int| 0 <= i < name.len() implies ascii_name_char()(
            #[trigger] rest[i],
        ) by {
            assert(rest[i] == name[i]);
        }
        lemma_leading_is(rest, ascii_name_char(), name.len());
    }
}

/// A description without `$` names no property.
pub proof fn law_description_without_a_dollar_sign(description: Seq<char>)
    requires
        !description.contains('$'),
    ensures
        described_property(description) is None,
        described_ascii_property(description) is None,
{
    lemma_first_nowhere(description, '$');
}

} // verus!
