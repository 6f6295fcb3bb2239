//! What PHPMD writes to its standard output: a JSON object, possibly after other text.
use crate::text::{
    copy_range, leading, lemma_first_at, lemma_first_nowhere, lemma_leading, lemma_leading_is,
    other_than, position_of, positions, to_chars, to_text,
};
use vstd::prelude::*;
use vstd::utf8::{decode_utf8, valid_utf8};

verus! {

/// Where a reader of JSON text stands: how many braces are open, whether a string literal
/// is open, and whether the next character is taken literally.
pub struct Scan {
    pub depth: int,
    pub in_string: bool,
    pub escaped: bool,
}

/// Reads one character. Braces count only outside string literals; in a literal a
/// backslash takes the next character literally.
pub open spec fn read_char(scan: Scan, c: char) -> Scan {
    if scan.escaped {
        Scan { escaped: false, ..scan }
    } else if c == '\\' && scan.in_string {
        Scan { escaped: true, ..scan }
    } else {
        let in_string = if c == '"' { !scan.in_string } else { scan.in_string };
        let depth = if in_string {
            scan.depth
        } else if c == '{' {
            scan.depth + 1
        } else if c == '}' {
            scan.depth - 1
        } else {
            scan.depth
        };
        Scan { depth, in_string, escaped: false }
    }
}

/// Where a reader stands after the first `n` characters of `s`.
pub open spec fn scan_prefix(s: Seq<char>, n: int) -> Scan
    decreases n,
{
    if n <= 0 {
        Scan { depth: 0, in_string: false, escaped: false }
    } else {
        read_char(scan_prefix(s, n - 1), s[n - 1])
    }
}

/// The predicate that holds of the positions of `s` that leave a brace open.
pub open spec fn leaves_open(s: Seq<char>) -> spec_fn(int) -> bool {
    |i: int| scan_prefix(s, i + 1).depth != 0
}

/// Position of the brace that closes the first brace of `s`, or the length of `s`.
pub open spec fn closing_brace(s: Seq<char>) -> nat {
    leading(positions(s.len()), leaves_open(s))
}

/// Whether `output` has an opening brace and a brace that closes the first of them.
pub open spec fn has_object(output: Seq<char>) -> bool {
    let rest = output.skip(leading(output, other_than('{')) as int);
    rest.len() > 0 && closing_brace(rest) < rest.len()
}

/// The JSON object in `output`: from the first opening brace to the brace that closes it.
/// Where there is no opening brace, or nothing closes it, the whole of `output`.
pub open spec fn json_object(output: Seq<char>) -> Seq<char> {
    let start = leading(output, other_than('{')) as int;
    let rest = output.skip(start);
    if has_object(output) {
        rest.take(closing_brace(rest) as int + 1)
    } else {
        output
    }
}

/// The text that bytes stand for, where what is not UTF-8 is replaced.
pub uninterp spec fn lossy_text(bytes: Seq<u8>) -> Seq<char>;

/// `String::from_utf8_lossy` makes a text of the bytes. Where they are UTF-8 it is the text
/// that they encode; what is put in place of other bytes is left to the name `lossy_text`.
#[verifier::external_body]
fn from_utf8_lossy(bytes: &[u8]) -> (r: String)
    ensures
        r@ == lossy_text(bytes@),
        valid_utf8(bytes@) ==> r@ == decode_utf8(bytes@),
{
    String::from_utf8_lossy(bytes).into_owned()
}

/// Makes a text of the bytes that PHPMD wrote.
pub fn decode_output(bytes: &Vec<u8>) -> (r: String)
    ensures
        r@ == lossy_text(bytes@),
        valid_utf8(bytes@) ==> r@ == decode_utf8(bytes@),
{
    from_utf8_lossy(bytes.as_slice())
}

/// What `closing_brace` finds: no earlier position closes the first brace.
proof fn lemma_closing_brace(s: Seq<char>)
    ensures
        closing_brace(s) <= s.len(),
        forall|i: int| 0 <= i < closing_brace(s) ==> #[trigger] scan_prefix(s, i + 1).depth != 0,
        closing_brace(s) < s.len() ==> scan_prefix(s, closing_brace(s) as int + 1).depth == 0,
{
    let ps = positions(s.len());
    let open = leaves_open(s);
    lemma_leading(ps, open);
    assert forall|i: int| 0 <= i < closing_brace(s) implies #[trigger] scan_prefix(
        s,
        i + 1,
    ).depth != 0 by {
        assert(open(ps[i]));
    }
}

/// `closing_brace` is the first position that closes the first brace.
proof fn lemma_closing_brace_is(s: Seq<char>, n: nat)
    requires
        n <= s.len(),
        forall|i: int| 0 <= i < n ==> #[trigger] scan_prefix(s, i + 1).depth != 0,
        n < s.len() ==> scan_prefix(s, n as int + 1).depth == 0,
    ensures
        closing_brace(s) == n,
{
    let ps = positions(s.len());
    let open = leaves_open(s);
    assert forall|i: int| 0 <= i < n implies open(#[trigger] ps[i]) by {
        assert(scan_prefix(s, i + 1).depth != 0);
    }
    lemma_leading_is(ps, open, n);
}

/// Where a reader stands depends only on the characters it has read.
proof fn lemma_scan_of_prefix(s: Seq<char>, t: Seq<char>, n: int)
    requires
        n <= s.len(),
        n <= t.len(),
        s.take(n) == t.take(n),
    ensures
        scan_prefix(s, n) == scan_prefix(t, n),
    decreases n,
{
    if n > 0 {
        assert(s[n - 1] == s.take(n)[n - 1]);
        assert(t[n - 1] == t.take(n)[n - 1]);
        assert(s.take(n - 1) =~= s.take(n).take(n - 1));
        assert(t.take(n - 1) =~= t.take(n).take(n - 1));
        lemma_scan_of_prefix(s, t, n - 1);
    }
}

/// Extracts the JSON object from what PHPMD wrote, which may begin with other output.
pub fn extract_json_from_output(output: &str) -> (r: String)
    ensures
        r@ == json_object(output@),
{
    let s = to_chars(output);
    let n: usize = s.len();
    let start = position_of(&s, '{');
    let ghost rest = output@.skip(start as int);
    let mut depth: usize = 0;
    let mut in_string = false;
    let mut escaped = false;
    let mut i: usize = start;
    proof {
        lemma_leading(output@, other_than('{'));
    }
    while i < n
        invariant
            n == s@.len(),
            s@ == output@,
            start <= i <= n,
            start == leading(output@, other_than('{')),
            rest == output@.skip(start as int),
            i < n ==> s@[start as int] == '{',
            scan_prefix(rest, i - start) == (Scan { depth: depth as int, in_string, escaped }),
            depth <= i - start,
            start < i ==> depth > 0,
            forall|j: int| 0 <= j < i - start ==> #[trigger] scan_prefix(rest, j + 1).depth != 0,
        decreases n - i,
    {
        let c = s[i];
        assert(rest[i - start] == c);
        let ghost before = scan_prefix(rest, i - start);
        assert(scan_prefix(rest, i - start + 1) == read_char(before, c));
        if escaped {
            escaped = false;
        } else if c == '\\' && in_string {
            escaped = true;
        } else {
            if c == '"' {
                in_string = !in_string;
            }
            if !in_string {
                if c == '{' {
                    depth = depth + 1;
                } else if c == '}' {
                    depth = depth - 1;
                    if depth == 0 {
                        let object = copy_range(&s, start, i + 1);
                        proof {
                            lemma_closing_brace_is(rest, (i - start) as nat);
                            assert(object@ =~= rest.take(i - start + 1));
                        }
                        return to_text(&object);
                    }
                }
            }
        }
        i = i + 1;
    }
    proof {
        lemma_closing_brace_is(rest, rest.len());
    }
    output.to_owned()
}

/// As long as the first brace is open, the count of open braces is positive.
proof fn lemma_open_depth(s: Seq<char>, n: int)
    requires
        0 < n <= s.len(),
        s[0] == '{',
        forall|i: int| 0 <= i < n ==> #[trigger] scan_prefix(s, i + 1).depth != 0,
    ensures
        scan_prefix(s, n).depth > 0,
    decreases n,
{
    reveal_with_fuel(scan_prefix, 2);
    if n > 1 {
        lemma_open_depth(s, n - 1);
        assert(scan_prefix(s, (n - 1) + 1).depth != 0);
    }
}

/// Extraction either leaves the output as it is or gives a text that runs from an opening
/// brace to the closing brace that balances it, outside any string literal.
pub proof fn law_extraction_is_balanced(output: Seq<char>)
    ensures
        !has_object(output) ==> json_object(output) == output,
        has_object(output) ==> {
            let object = json_object(output);
            &&& object.len() >= 2
            &&& object[0] == '{'
            &&& object.last() == '}'
            &&& scan_prefix(object, object.len() as int) == (Scan {
                depth: 0,
                in_string: false,
                escaped: false,
            })
            &&& forall|i: int|
                0 < i < object.len() ==> (#[trigger] scan_prefix(object, i)).depth > 0
        },
{
    if has_object(output) {
        let start = leading(output, other_than('{')) as int;
        let rest = output.skip(start);
        let object = json_object(output);
        let n = closing_brace(rest) as int;
        lemma_leading(output, other_than('{'));
        lemma_closing_brace(rest);
        assert(rest[0] == '{');
        assert(scan_prefix(rest, 1).depth == 1) by {
            reveal_with_fuel(scan_prefix, 2);
        }
        lemma_open_depth(rest, n);
        assert(scan_prefix(rest, n + 1) == read_char(scan_prefix(rest, n), rest[n]));
        assert(object.take(n + 1) =~= rest.take(n + 1));
        lemma_scan_of_prefix(object, rest, n + 1);
        assert forall|i: int| 0 < i < object.len() implies (#[trigger] scan_prefix(
            object,
            i,
        )).depth > 0 by {
            assert(object.take(i) =~= rest.take(i));
            lemma_scan_of_prefix(object, rest, i);
            lemma_open_depth(rest, i);
        }
    }
}

/// Extracting from what was extracted changes nothing.
pub proof fn law_extraction_is_idempotent(output: Seq<char>)
    ensures
        json_object(json_object(output)) == json_object(output),
{
    if has_object(output) {
        let object = json_object(output);
        law_extraction_is_balanced(output);
        lemma_leading_is(object, other_than('{'), 0);
        assert(object.skip(0) =~= object);
        let n = (object.len() - 1) as nat;
        assert forall|i: int| 0 <= i < n implies #[trigger] scan_prefix(
            object,
            i + 1,
        ).depth != 0 by {}
        lemma_closing_brace_is(object, n);
        assert(object.take(n as int + 1) =~= object);
    }
}

/// Text without an opening brace in front of the output does not change what is extracted.
pub proof fn law_extraction_skips_noise(noise: Seq<char>, output: Seq<char>)
    requires
        !noise.contains('{'),
        has_object(output),
    ensures
        json_object(noise + output) == json_object(output),
{
    let start = leading(output, other_than('{'));
    lemma_leading(output, other_than('{'));
    let all = noise + output;
    assert forall|i: int| 0 <= i < noise.len() + start implies other_than('{')(
        #[trigger] all[i],
    ) by {
        if i < noise.len() {
            assert(all[i] == noise[i]);
        } else {
            assert(all[i] == output[i - noise.len()]);
        }
    }
    lemma_leading_is(all, other_than('{'), noise.len() + start);
    assert(all.skip((noise.len() + start) as int) =~= output.skip(start as int));
}

/// Text behind the closing brace of the object does not change what is extracted.
pub proof fn law_extraction_drops_the_tail(output: Seq<char>, tail: Seq<char>)
    requires
        has_object(output),
    ensures
        json_object(output + tail) == json_object(output),
{
    let all = output + tail;
    let start = leading(output, other_than('{'));
    let rest = output.skip(start as int);
    let longer = all.skip(start as int);
    let n = closing_brace(rest);
    lemma_leading(output, other_than('{'));
    lemma_closing_brace(rest);
    assert forall|i: int| 0 <= i < start implies other_than('{')(#[trigger] all[i]) by {
        assert(all[i] == output[i]);
    }
    lemma_leading_is(all, other_than('{'), start);
    assert(longer =~= rest + tail);
    assert forall|i: int| 0 <= i <= n + 1 implies #[trigger] scan_prefix(longer, i) == scan_prefix(
        rest,
        i,
    ) by {
        assert(longer.take(i) =~= rest.take(i));
        lemma_scan_of_prefix(longer, rest, i);
    }
    lemma_closing_brace_is(longer, n);
    assert(longer.take(n as int + 1) =~= rest.take(n as int + 1));
}

/// A part of a string literal: a character that stands for itself, or one behind a
/// backslash.
pub enum LiteralPart {
    Plain(char),
    Escaped(char),
}

/// A piece of JSON text, as far as braces go: a brace, a string literal, or any other
/// character.
pub enum Piece {
    Open,
    Close,
    Literal(Seq<LiteralPart>),
    Other(char),
}

/// The characters of the inside of a string literal.
pub open spec fn literal_text(parts: Seq<LiteralPart>) -> Seq<char>
    decreases parts.len(),
{
    if parts.len() == 0 {
        Seq::empty()
    } else {
        literal_text(parts.drop_last()) + match parts.last() {
            LiteralPart::Plain(c) => seq![c],
            LiteralPart::Escaped(c) => seq!['\\', c],
        }
    }
}

/// The characters of a piece.
pub open spec fn piece_text(piece: Piece) -> Seq<char> {
    match piece {
        Piece::Open => seq!['{'],
        Piece::Close => seq!['}'],
        Piece::Literal(parts) => seq!['"'] + literal_text(parts) + seq!['"'],
        Piece::Other(c) => seq![c],
    }
}

/// The characters of pieces, one piece after the other.
pub open spec fn pieces_text(pieces: Seq<Piece>) -> Seq<char>
    decreases pieces.len(),
{
    if pieces.len() == 0 {
        Seq::empty()
    } else {
        pieces_text(pieces.drop_last()) + piece_text(pieces.last())
    }
}

/// Whether the parts can stand in a string literal: a quote or a backslash only behind a
/// backslash.
pub open spec fn proper_literal(parts: Seq<LiteralPart>) -> bool {
    forall|i: int|
        0 <= i < parts.len() ==> match #[trigger] parts[i] {
            LiteralPart::Plain(c) => c != '"' && c != '\\',
            LiteralPart::Escaped(_) => true,
        }
}

/// Whether the pieces are what they are called: another character is no brace and no quote.
pub open spec fn proper_pieces(pieces: Seq<Piece>) -> bool {
    forall|i: int|
        0 <= i < pieces.len() ==> match #[trigger] pieces[i] {
            Piece::Literal(parts) => proper_literal(parts),
            Piece::Other(c) => c != '{' && c != '}' && c != '"',
            _ => true,
        }
}

/// How many more opening braces than closing ones there are.
pub open spec fn open_braces(pieces: Seq<Piece>) -> int
    decreases pieces.len(),
{
    if pieces.len() == 0 {
        0
    } else {
        open_braces(pieces.drop_last()) + match pieces.last() {
            Piece::Open => 1,
            Piece::Close => -1,
            _ => 0int,
        }
    }
}

/// Where a reader that stands at `scan` stands after it has read `s`.
spec fn run(scan: Scan, s: Seq<char>) -> Scan
    decreases s.len(),
{
    if s.len() == 0 {
        scan
    } else {
        read_char(run(scan, s.drop_last()), s.last())
    }
}

/// Where a reader stands at the start.
spec fn start_of_text() -> Scan {
    Scan { depth: 0, in_string: false, escaped: false }
}

/// Reading a prefix is reading its characters.
proof fn lemma_run_is_scan(s: Seq<char>, n: int)
    requires
        0 <= n <= s.len(),
    ensures
        scan_prefix(s, n) == run(start_of_text(), s.take(n)),
    decreases n,
{
    if n > 0 {
        lemma_run_is_scan(s, n - 1);
        assert(s.take(n).drop_last() =~= s.take(n - 1));
    }
}

/// Reading a joined text is reading its two parts.
proof fn lemma_run_joined(scan: Scan, a: Seq<char>, b: Seq<char>)
    ensures
        run(scan, a + b) == run(run(scan, a), b),
    decreases b.len(),
{
    if b.len() == 0 {
        assert(a + b =~= a);
    } else {
        assert((a + b).drop_last() =~= a + b.drop_last());
        lemma_run_joined(scan, a, b.drop_last());
    }
}

/// Whether every prefix of `s` but the empty one leaves a reader with an open brace.
spec fn keeps_open(scan: Scan, s: Seq<char>) -> bool {
    forall|i: int| 0 < i <= s.len() ==> (#[trigger] run(scan, s.take(i))).depth > 0
}

/// Braces stay open over a joined text where they do over its two parts.
proof fn lemma_keeps_open_joined(scan: Scan, a: Seq<char>, b: Seq<char>)
    requires
        keeps_open(scan, a),
        keeps_open(run(scan, a), b),
    ensures
        keeps_open(scan, a + b),
{
    assert forall|i: int| 0 < i <= (a + b).len() implies (#[trigger] run(
        scan,
        (a + b).take(i),
    )).depth > 0 by {
        if i <= a.len() {
            assert((a + b).take(i) =~= a.take(i));
        } else {
            assert((a + b).take(i) =~= a + b.take(i - a.len()));
            lemma_run_joined(scan, a, b.take(i - a.len()));
        }
    }
}

/// One character keeps a brace open where one is open behind it.
proof fn lemma_keeps_open_one(scan: Scan, c: char)
    requires
        read_char(scan, c).depth > 0,
    ensures
        keeps_open(scan, seq![c]),
        run(scan, seq![c]) == read_char(scan, c),
{
    assert(seq![c].drop_last() =~= Seq::<char>::empty());
    assert(run(scan, seq![c].drop_last()) == scan);
    assert forall|i: int| 0 < i <= seq![c].len() implies (#[trigger] run(
        scan,
        seq![c].take(i),
    )).depth > 0 by {
        assert(seq![c].take(i) =~= seq![c]);
    }
}

/// The inside of a string literal leaves a reader where it is.
proof fn lemma_inside_literal(scan: Scan, parts: Seq<LiteralPart>)
    requires
        proper_literal(parts),
        scan.depth > 0,
        scan.in_string,
        !scan.escaped,
    ensures
        run(scan, literal_text(parts)) == scan,
        keeps_open(scan, literal_text(parts)),
    decreases parts.len(),
{
    if parts.len() > 0 {
        let front = parts.drop_last();
        assert forall|i: int| 0 <= i < front.len() implies match #[trigger] front[i] {
            LiteralPart::Plain(c) => c != '"' && c != '\\',
            LiteralPart::Escaped(_) => true,
        } by {
            assert(front[i] == parts[i]);
        }
        lemma_inside_literal(scan, front);
        assert(parts.last() == parts[parts.len() - 1]);
        match parts.last() {
            LiteralPart::Plain(c) => {
                lemma_keeps_open_one(scan, c);
                lemma_run_joined(scan, literal_text(front), seq![c]);
                lemma_keeps_open_joined(scan, literal_text(front), seq![c]);
            },
            LiteralPart::Escaped(c) => {
                let after = read_char(scan, '\\');
                lemma_keeps_open_one(scan, '\\');
                lemma_keeps_open_one(after, c);
                assert(seq!['\\', c] =~= seq!['\\'] + seq![c]);
                lemma_run_joined(scan, seq!['\\'], seq![c]);
                lemma_keeps_open_joined(scan, seq!['\\'], seq![c]);
                lemma_run_joined(scan, literal_text(front), seq!['\\', c]);
                lemma_keeps_open_joined(scan, literal_text(front), seq!['\\', c]);
            },
        }
    }
}

/// Pieces that leave a brace open after each of them.
proof fn lemma_pieces_open(pieces: Seq<Piece>)
    requires
        proper_pieces(pieces),
        forall|i: int| 0 < i <= pieces.len() ==> open_braces(#[trigger] pieces.take(i)) > 0,
    ensures
        run(start_of_text(), pieces_text(pieces)) == (Scan {
            depth: open_braces(pieces),
            in_string: false,
            escaped: false,
        }),
        keeps_open(start_of_text(), pieces_text(pieces)),
    decreases pieces.len(),
{
    if pieces.len() > 0 {
        let front = pieces.drop_last();
        let last = pieces.last();
        assert forall|i: int| 0 <= i < front.len() implies match #[trigger] front[i] {
            Piece::Literal(parts) => proper_literal(parts),
            Piece::Other(c) => c != '{' && c != '}' && c != '"',
            _ => true,
        } by {
            assert(front[i] == pieces[i]);
        }
        assert forall|i: int| 0 < i <= front.len() implies open_braces(#[trigger] front.take(i))
            > 0 by {
            assert(front.take(i) =~= pieces.take(i));
        }
        lemma_pieces_open(front);
        assert(last == pieces[pieces.len() - 1]);
        assert(pieces.take(pieces.len() as int) =~= pieces);
        assert(open_braces(pieces) > 0);
        let scan = run(start_of_text(), pieces_text(front));
        lemma_run_joined(start_of_text(), pieces_text(front), piece_text(last));
        match last {
            Piece::Open => lemma_keeps_open_one(scan, '{'),
            Piece::Close => lemma_keeps_open_one(scan, '}'),
            Piece::Other(c) => lemma_keeps_open_one(scan, c),
            Piece::Literal(parts) => {
                let inside = read_char(scan, '"');
                let text = literal_text(parts);
                lemma_keeps_open_one(scan, '"');
                lemma_inside_literal(inside, parts);
                lemma_run_joined(scan, seq!['"'], text);
                lemma_keeps_open_joined(scan, seq!['"'], text);
                lemma_keeps_open_one(inside, '"');
                lemma_run_joined(scan, seq!['"'] + text, seq!['"']);
                lemma_keeps_open_joined(scan, seq!['"'] + text, seq!['"']);
            },
        }
        lemma_keeps_open_joined(start_of_text(), pieces_text(front), piece_text(last));
    }
}

/// The text of pieces that begin with an opening brace begins with one.
proof fn lemma_begins_open(pieces: Seq<Piece>)
    requires
        pieces.len() > 0,
        pieces[0] is Open,
    ensures
        pieces_text(pieces).len() > 0,
        pieces_text(pieces)[0] == '{',
    decreases pieces.len(),
{
    if pieces.len() > 1 {
        assert(pieces.drop_last()[0] == pieces[0]);
        lemma_begins_open(pieces.drop_last());
    } else {
        assert(pieces.drop_last() =~= Seq::<Piece>::empty());
        assert(pieces_text(pieces.drop_last()) =~= Seq::<char>::empty());
    }
}

/// From pieces that begin with an opening brace, and of which the last one closes it and none
/// before does, just the text of the pieces is extracted, whatever stands behind it and
/// whatever without an opening brace stands in front. Braces inside string literals are no
/// braces.
pub proof fn law_object_is_extracted(noise: Seq<char>, pieces: Seq<Piece>, tail: Seq<char>)
    requires
        !noise.contains('{'),
        proper_pieces(pieces),
        pieces.len() > 0,
        pieces[0] is Open,
        forall|i: int| 0 < i < pieces.len() ==> open_braces(#[trigger] pieces.take(i)) > 0,
        open_braces(pieces) == 0,
    ensures
        json_object(noise + pieces_text(pieces) + tail) == pieces_text(pieces),
{
    let object = pieces_text(pieces);
    let front = pieces.drop_last();
    let inner = pieces_text(front);
    let output = noise + object + tail;
    lemma_begins_open(pieces);
    assert(output =~= noise + seq!['{'] + (object.skip(1) + tail));
    lemma_first_at(noise, '{', object.skip(1) + tail);
    let rest = output.skip(noise.len() as int);
    assert(rest =~= object + tail);
    assert forall|i: int| 0 <= i < front.len() implies match #[trigger] front[i] {
        Piece::Literal(parts) => proper_literal(parts),
        Piece::Other(c) => c != '{' && c != '}' && c != '"',
        _ => true,
    } by {
        assert(front[i] == pieces[i]);
    }
    assert forall|i: int| 0 < i <= front.len() implies open_braces(
        #[trigger] front.take(i),
    ) > 0 by {
        assert(front.take(i) =~= pieces.take(i));
    }
    lemma_pieces_open(front);
    if front.len() > 0 {
        assert(front.take(front.len() as int) =~= front);
    }
    assert(pieces.last() is Close);
    let n = inner.len();
    assert(object =~= inner + seq!['}']);
    assert forall|i: int| 0 <= i < n implies #[trigger] scan_prefix(rest, i + 1).depth != 0 by {
        lemma_run_is_scan(rest, i + 1);
        assert(rest.take(i + 1) =~= inner.take(i + 1));
    }
    assert(scan_prefix(rest, n as int + 1).depth == 0) by {
        lemma_run_is_scan(rest, n as int);
        assert(rest.take(n as int) =~= inner);
        assert(scan_prefix(rest, n as int + 1) == read_char(
            scan_prefix(rest, n as int),
            rest[n as int],
        ));
    }
    lemma_closing_brace_is(rest, n);
    assert(rest.take(n as int + 1) =~= object);
}

/// Where no brace closes the first one, not even at the end of a string literal that is left
/// open, the output stays as it is.
pub proof fn law_unclosed_output_stays(
    noise: Seq<char>,
    pieces: Seq<Piece>,
    unfinished: Option<Seq<LiteralPart>>,
)
    requires
        !noise.contains('{'),
        proper_pieces(pieces),
        pieces.len() > 0,
        pieces[0] is Open,
        forall|i: int| 0 < i <= pieces.len() ==> open_braces(#[trigger] pieces.take(i)) > 0,
        unfinished is Some ==> proper_literal(unfinished->Some_0),
    ensures
        ({
            let end = match unfinished {
                Some(parts) => seq!['"'] + literal_text(parts),
                None => Seq::empty(),
            };
            json_object(noise + pieces_text(pieces) + end) == noise + pieces_text(pieces) + end
        }),
{
    let end = match unfinished {
        Some(parts) => seq!['"'] + literal_text(parts),
        None => Seq::empty(),
    };
    let text = pieces_text(pieces);
    let output = noise + text + end;
    lemma_begins_open(pieces);
    assert(output =~= noise + seq!['{'] + (text.skip(1) + end));
    lemma_first_at(noise, '{', text.skip(1) + end);
    let rest = output.skip(noise.len() as int);
    assert(rest =~= text + end);
    lemma_pieces_open(pieces);
    assert(pieces.take(pieces.len() as int) =~= pieces);
    let scan = run(start_of_text(), text);
    match unfinished {
        Some(parts) => {
            lemma_keeps_open_one(scan, '"');
            lemma_inside_literal(read_char(scan, '"'), parts);
            lemma_keeps_open_joined(scan, seq!['"'], literal_text(parts));
            lemma_keeps_open_joined(start_of_text(), text, end);
        },
        None => {
            assert(rest =~= text);
        },
    }
    assert forall|i: int| 0 <= i < rest.len() implies #[trigger] scan_prefix(rest, i + 1).depth
        != 0 by {
        lemma_run_is_scan(rest, i + 1);
    }
    lemma_closing_brace_is(rest, rest.len());
}

/// Output without an opening brace stays as it is.
pub proof fn law_output_without_a_brace_stays(output: Seq<char>)
    requires
        !output.contains('{'),
    ensures
        json_object(output) == output,
{
    lemma_first_nowhere(output, '{');
    assert(output.skip(output.len() as int) =~= Seq::<char>::empty());
}

} // verus!
