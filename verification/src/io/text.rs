//! Byte-text helpers shared by the ASCII parsers (PLY bodies and headers,
//! OBJ, XYZ/CSV): physical line splitting (CRLF-tolerant, the final line may
//! lack a newline), tokenization on a delimiter class, and the decoding
//! facts the parsers need about a token (UTF-8 validity, the integer and
//! float grammars of std's `FromStr`).
//!
//! Everything operates on byte slices. Every helper is stated over the
//! mathematical model below: `lines` for the physical lines of a byte
//! sequence, `tokens` for the non-empty runs between delimiters.
use vstd::prelude::*;
use vstd::slice::slice_subrange;
use vstd::string::StringSliceAdditionalSpecFns;
use vstd::utf8::*;

verus! {

// ---------------------------------------------------------------------------
// Physical lines
// ---------------------------------------------------------------------------

/// Index of the first `\n` at or after `i`, or the length when there is none.
pub open spec fn newline_at(s: Seq<u8>, i: int) -> int
    decreases s.len() - i,
{
    if i >= s.len() {
        s.len() as int
    } else if s[i] == 10u8 {
        i
    } else {
        newline_at(s, i + 1)
    }
}

/// A line without its trailing carriage return, if it has one.
pub open spec fn strip_cr(line: Seq<u8>) -> Seq<u8> {
    if line.len() > 0 && line.last() == 13u8 {
        line.drop_last()
    } else {
        line
    }
}

/// The first physical line of `s`, without its terminator.
pub open spec fn first_line(s: Seq<u8>) -> Seq<u8> {
    strip_cr(s.take(newline_at(s, 0)))
}

/// What follows the first physical line of `s` (after its `\n`, if any).
pub open spec fn after_first_line(s: Seq<u8>) -> Seq<u8> {
    if newline_at(s, 0) < s.len() {
        s.skip(newline_at(s, 0) + 1)
    } else {
        Seq::empty()
    }
}

pub proof fn lemma_newline_at(s: Seq<u8>, i: int)
    requires
        0 <= i <= s.len(),
    ensures
        i <= newline_at(s, i) <= s.len(),
        newline_at(s, i) < s.len() ==> s[newline_at(s, i)] == 10u8,
        forall|j: int| i <= j < newline_at(s, i) ==> s[j] != 10u8,
    decreases s.len() - i,
{
    if i < s.len() && s[i] != 10u8 {
        lemma_newline_at(s, i + 1);
    }
}

pub proof fn lemma_after_first_line_shorter(s: Seq<u8>)
    requires
        s.len() > 0,
    ensures
        after_first_line(s).len() < s.len(),
        after_first_line(s) =~= s.skip(s.len() - after_first_line(s).len()),
{
    lemma_newline_at(s, 0);
}

/// The physical lines of `s`: split on `\n`, each without its terminator
/// and without a trailing `\r`; the final line needs no newline, and a
/// final newline does not open an empty last line.
pub open spec fn lines(s: Seq<u8>) -> Seq<Seq<u8>>
    decreases s.len(),
{
    if s.len() == 0 {
        seq![]
    } else {
        proof {
            lemma_after_first_line_shorter(s);
        }
        seq![first_line(s)] + lines(after_first_line(s))
    }
}

pub proof fn lemma_lines_unfold(s: Seq<u8>)
    requires
        s.len() > 0,
    ensures
        lines(s) == seq![first_line(s)] + lines(after_first_line(s)),
{
}

/// Taking one line off the bytes takes the first of their lines.
pub proof fn lemma_lines_next(s: Seq<u8>)
    ensures
        s.len() == 0 ==> lines(s).len() == 0,
        s.len() > 0 ==> lines(s).len() > 0 && lines(s)[0] == first_line(s) && lines(
            after_first_line(s),
        ) == lines(s).drop_first(),
{
    if s.len() > 0 {
        assert(lines(after_first_line(s)) =~= lines(s).drop_first());
    }
}

/// The first line and what follows it together fit in the bytes.
pub proof fn lemma_first_line_consumed(s: Seq<u8>)
    requires
        s.len() > 0,
    ensures
        first_line(s).len() + after_first_line(s).len() <= s.len(),
        after_first_line(s).len() < s.len(),
{
    lemma_newline_at(s, 0);
}

/// A byte sequence has at most as many lines as bytes.
pub proof fn lemma_lines_len(s: Seq<u8>)
    ensures
        lines(s).len() <= s.len(),
    decreases s.len(),
{
    if s.len() > 0 {
        lemma_after_first_line_shorter(s);
        lemma_lines_len(after_first_line(s));
    }
}

/// The terminator the first line of `s` had: its stripped `\r`, if any,
/// then its `\n`, unless the bytes end first.
pub open spec fn line_end(s: Seq<u8>) -> Seq<u8> {
    let raw = s.take(newline_at(s, 0));
    (if raw.len() > 0 && raw.last() == 13u8 {
        seq![13u8]
    } else {
        seq![]
    }) + (if newline_at(s, 0) < s.len() {
        seq![10u8]
    } else {
        seq![]
    })
}

/// The terminators of the lines of `s`, one per line.
pub open spec fn line_ends(s: Seq<u8>) -> Seq<Seq<u8>>
    decreases s.len(),
{
    if s.len() == 0 {
        seq![]
    } else {
        proof {
            lemma_after_first_line_shorter(s);
        }
        seq![line_end(s)] + line_ends(after_first_line(s))
    }
}

/// Lines put back together, each followed by its terminator.
pub open spec fn join_lines(ls: Seq<Seq<u8>>, ends: Seq<Seq<u8>>) -> Seq<u8>
    decreases ls.len(),
{
    if ls.len() == 0 || ends.len() == 0 {
        seq![]
    } else {
        ls[0] + ends[0] + join_lines(ls.drop_first(), ends.drop_first())
    }
}

/// The first line, its terminator and the rest are the bytes.
proof fn lemma_first_line_split(s: Seq<u8>)
    requires
        s.len() > 0,
    ensures
        first_line(s) + line_end(s) + after_first_line(s) == s,
        forall|j: int| 0 <= j < first_line(s).len() ==> #[trigger] first_line(s)[j] != 10u8,
        line_end(s) == seq![10u8] || line_end(s) == seq![13u8, 10u8] || (after_first_line(s).len()
            == 0 && (line_end(s) == Seq::<u8>::empty() || line_end(s) == seq![13u8])),
{
    lemma_newline_at(s, 0);
    let nl = newline_at(s, 0);
    let raw = s.take(nl);
    let cr: Seq<u8> = if raw.len() > 0 && raw.last() == 13u8 {
        seq![13u8]
    } else {
        seq![]
    };
    assert(first_line(s) + cr =~= raw);
    if nl < s.len() {
        assert(raw + seq![10u8] + s.skip(nl + 1) =~= s);
        assert(first_line(s) + line_end(s) + after_first_line(s) =~= raw + seq![10u8] + s.skip(nl + 1));
    } else {
        assert(raw =~= s);
        assert(first_line(s) + line_end(s) + after_first_line(s) =~= raw);
    }
    assert forall|j: int| 0 <= j < first_line(s).len() implies #[trigger] first_line(s)[j] != 10u8 by {
        assert(first_line(s)[j] == raw[j]);
    }
}

/// Splitting into lines loses nothing but the terminators: there are no
/// lines exactly when there are no bytes, no line holds a `\n`, and the
/// lines joined back with their terminators are the bytes. Every
/// terminator but the last is `\n` or `\r\n`; the last may also be `\r`
/// or nothing (the final newline is optional). The last terminator holds
/// a `\n` exactly when the bytes end in one, so no empty line follows a
/// final newline.
pub proof fn law_lines_rejoin(s: Seq<u8>)
    ensures
        lines(s).len() == 0 <==> s.len() == 0,
        line_ends(s).len() == lines(s).len(),
        join_lines(lines(s), line_ends(s)) == s,
        forall|i: int, j: int|
            0 <= i < lines(s).len() && 0 <= j < lines(s)[i].len() ==> #[trigger] lines(s)[i][j]
                != 10u8,
        forall|i: int|
            0 <= i < lines(s).len() - 1 ==> #[trigger] line_ends(s)[i] == seq![10u8]
                || line_ends(s)[i] == seq![13u8, 10u8],
        forall|i: int|
            0 <= i < lines(s).len() ==> #[trigger] line_ends(s)[i] == seq![10u8] || line_ends(s)[i]
                == seq![13u8, 10u8] || line_ends(s)[i] == Seq::<u8>::empty() || line_ends(s)[i]
                == seq![13u8],
        s.len() > 0 ==> (s.last() == 10u8 <==> (line_ends(s).last() == seq![10u8]
            || line_ends(s).last() == seq![13u8, 10u8])),
    decreases s.len(),
{
    if s.len() > 0 {
        let rest = after_first_line(s);
        lemma_after_first_line_shorter(s);
        law_lines_rejoin(rest);
        lemma_first_line_split(s);
        let ls = lines(s);
        let es = line_ends(s);
        assert(ls == seq![first_line(s)] + lines(rest));
        assert(es == seq![line_end(s)] + line_ends(rest));
        assert(ls.drop_first() =~= lines(rest));
        assert(es.drop_first() =~= line_ends(rest));
        assert(join_lines(ls, es) == first_line(s) + line_end(s) + join_lines(lines(rest), line_ends(rest)));
        assert forall|i: int, j: int| 0 <= i < ls.len() && 0 <= j < ls[i].len() implies #[trigger] ls[i][j]
            != 10u8 by {
            if i > 0 {
                assert(ls[i] == lines(rest)[i - 1]);
            }
        }
        assert forall|i: int| 0 <= i < ls.len() - 1 implies #[trigger] es[i] == seq![10u8] || es[i]
            == seq![13u8, 10u8] by {
            if i > 0 {
                assert(es[i] == line_ends(rest)[i - 1]);
            } else {
                assert(rest.len() > 0);
            }
        }
        assert forall|i: int| 0 <= i < ls.len() implies #[trigger] es[i] == seq![10u8] || es[i]
            == seq![13u8, 10u8] || es[i] == Seq::<u8>::empty() || es[i] == seq![13u8] by {
            if i > 0 {
                assert(es[i] == line_ends(rest)[i - 1]);
            }
        }
        let head = first_line(s) + line_end(s);
        assert(s == head + rest);
        if rest.len() == 0 {
            assert(es.last() == line_end(s));
            assert(s =~= head);
            if line_end(s) == Seq::<u8>::empty() {
                assert(s =~= first_line(s));
                assert(s.last() == first_line(s)[first_line(s).len() - 1]);
            } else if line_end(s) == seq![13u8] {
                assert(s.last() == 13u8);
            } else {
                assert(s.last() == 10u8);
            }
        } else {
            assert(s.last() == rest.last());
            assert(es.last() == line_ends(rest).last());
        }
    }
}

/// Iterator over the physical lines of a byte slice, without terminators
/// (see [`lines`]).
pub struct LineIter<'a> {
    rest: &'a [u8],
}

impl<'a> View for LineIter<'a> {
    type V = Seq<u8>;

    /// The bytes not yet split into lines.
    closed spec fn view(&self) -> Seq<u8> {
        self.rest@
    }
}

impl<'a> LineIter<'a> {
    pub fn new(bytes: &'a [u8]) -> (it: Self)
        ensures
            it@ == bytes@,
    {
        LineIter { rest: bytes }
    }

    /// Number of bytes not yet split into lines.
    pub fn remaining_len(&self) -> (n: usize)
        ensures
            n == self@.len(),
    {
        self.rest.len()
    }

    /// The next physical line, or `None` once every byte has been consumed.
    pub fn next(&mut self) -> (line: Option<&'a [u8]>)
        ensures
            old(self)@.len() == 0 ==> line is None && final(self)@ == old(self)@,
            old(self)@.len() > 0 ==> line is Some && line.unwrap()@ == first_line(old(self)@)
                && final(self)@ == after_first_line(old(self)@),
    {
        let rest: &'a [u8] = self.rest;
        let n = rest.len();
        if n == 0 {
            return None;
        }
        let mut i: usize = 0;
        while i < n && rest[i] != 10u8
            invariant
                0 <= i <= n,
                n == rest@.len(),
                newline_at(rest@, 0) == newline_at(rest@, i as int),
            decreases n - i,
        {
            i = i + 1;
        }
        assert(newline_at(rest@, i as int) == i);
        let raw: &'a [u8] = slice_subrange(rest, 0, i);
        if i < n {
            self.rest = slice_subrange(rest, i + 1, n);
            assert(self.rest@ =~= rest@.skip(i + 1));
        } else {
            self.rest = slice_subrange(rest, n, n);
            assert(self.rest@ =~= Seq::<u8>::empty());
        }
        assert(raw@ =~= rest@.take(i as int));
        let len = raw.len();
        if len > 0 && raw[len - 1] == 13u8 {
            let line: &'a [u8] = slice_subrange(raw, 0, len - 1);
            assert(line@ =~= raw@.drop_last());
            Some(line)
        } else {
            Some(raw)
        }
    }
}

// ---------------------------------------------------------------------------
// Tokens
// ---------------------------------------------------------------------------

/// A delimiter class for tokenization.
#[derive(Debug, Clone, Copy, PartialEq, Eq, Structural)]
pub enum Delimiters {
    /// Runs of ASCII whitespace (space, tab, `\n`, form feed, `\r`): the
    /// PLY/PCD/OBJ convention.
    Whitespace,
    /// Runs of space, tab and comma: the XYZ/CSV class `[,\t ]+`.
    SpaceTabComma,
}

pub open spec fn is_delimiter(kind: Delimiters, b: u8) -> bool {
    match kind {
        Delimiters::Whitespace => b == 32u8 || b == 9u8 || b == 10u8 || b == 12u8 || b == 13u8,
        Delimiters::SpaceTabComma => b == 32u8 || b == 9u8 || b == 44u8,
    }
}

/// Length of the leading run of non-delimiter bytes.
pub open spec fn token_len(s: Seq<u8>, kind: Delimiters) -> nat
    decreases s.len(),
{
    if s.len() == 0 || is_delimiter(kind, s[0]) {
        0
    } else {
        1 + token_len(s.drop_first(), kind)
    }
}

pub proof fn lemma_token_len_bound(s: Seq<u8>, kind: Delimiters)
    ensures
        token_len(s, kind) <= s.len(),
        s.len() > 0 && !is_delimiter(kind, s[0]) ==> token_len(s, kind) >= 1,
        forall|j: int| 0 <= j < token_len(s, kind) ==> !is_delimiter(kind, #[trigger] s[j]),
        token_len(s, kind) < s.len() ==> is_delimiter(kind, s[token_len(s, kind) as int]),
    decreases s.len(),
{
    if s.len() > 0 && !is_delimiter(kind, s[0]) {
        lemma_token_len_bound(s.drop_first(), kind);
        assert forall|j: int| 0 <= j < token_len(s, kind) implies !is_delimiter(kind, #[trigger] s[j]) by {
            if j > 0 {
                assert(s[j] == s.drop_first()[j - 1]);
            }
        }
    }
}

/// The tokens of `s`: its maximal non-empty runs of non-delimiter bytes, in
/// order. No token is empty.
pub open spec fn tokens(s: Seq<u8>, kind: Delimiters) -> Seq<Seq<u8>>
    decreases s.len(),
{
    if s.len() == 0 {
        seq![]
    } else if is_delimiter(kind, s[0]) {
        tokens(s.drop_first(), kind)
    } else {
        proof {
            lemma_token_len_bound(s, kind);
        }
        seq![s.take(token_len(s, kind) as int)] + tokens(s.skip(token_len(s, kind) as int), kind)
    }
}

/// Whitespace tokens of a line.
pub open spec fn ws_tokens_of(line: Seq<u8>) -> Seq<Seq<u8>> {
    tokens(line, Delimiters::Whitespace)
}

/// Space/tab/comma tokens of a line.
pub open spec fn xyz_tokens_of(line: Seq<u8>) -> Seq<Seq<u8>> {
    tokens(line, Delimiters::SpaceTabComma)
}

/// The byte contents of a sequence of slices.
pub open spec fn slice_views<'a>(s: Seq<&'a [u8]>) -> Seq<Seq<u8>> {
    s.map_values(|t: &'a [u8]| t@)
}

/// Every token is non-empty and at most as long as the line.
pub proof fn lemma_tokens_nonempty(s: Seq<u8>, kind: Delimiters)
    ensures
        forall|i: int| 0 <= i < tokens(s, kind).len() ==> #[trigger] tokens(s, kind)[i].len() > 0,
        forall|i: int, j: int|
            0 <= i < tokens(s, kind).len() && 0 <= j < tokens(s, kind)[i].len() ==> !is_delimiter(
                kind,
                #[trigger] tokens(s, kind)[i][j],
            ),
        2 * tokens(s, kind).len() <= s.len() + 1,
    decreases s.len(),
{
    if s.len() == 0 {
    } else if is_delimiter(kind, s[0]) {
        lemma_tokens_nonempty(s.drop_first(), kind);
    } else {
        lemma_token_len_bound(s, kind);
        let k = token_len(s, kind) as int;
        lemma_tokens_nonempty(s.skip(k), kind);
        let rest = tokens(s.skip(k), kind);
        let all = tokens(s, kind);
        assert(all == seq![s.take(k)] + rest);
        assert forall|i: int| 0 <= i < all.len() implies #[trigger] all[i].len() > 0 by {
            if i > 0 {
                assert(all[i] == rest[i - 1]);
            }
        }
        assert forall|i: int, j: int| 0 <= i < all.len() && 0 <= j < all[i].len() implies !is_delimiter(
            kind,
            #[trigger] all[i][j],
        ) by {
            if i > 0 {
                assert(all[i] == rest[i - 1]);
            } else {
                assert(all[i] == s.take(k));
                assert(all[i][j] == s[j]);
            }
        }
        if k < s.len() {
            // the rest starts with a delimiter
            let t = s.skip(k);
            assert(t[0] == s[k]);
            lemma_tokens_nonempty(t.drop_first(), kind);
        }
    }
}

/// A line holds its first token and, for every further token, at least a
/// delimiter and a byte.
pub proof fn lemma_tokens_span(s: Seq<u8>, kind: Delimiters)
    requires
        tokens(s, kind).len() >= 1,
    ensures
        s.len() >= tokens(s, kind)[0].len() + 2 * (tokens(s, kind).len() - 1),
    decreases s.len(),
{
    if is_delimiter(kind, s[0]) {
        lemma_tokens_span(s.drop_first(), kind);
    } else {
        lemma_token_len_bound(s, kind);
        let k = token_len(s, kind) as int;
        let rest = tokens(s.skip(k), kind);
        assert(tokens(s, kind) == seq![s.take(k)] + rest);
        if rest.len() > 0 {
            let t = s.skip(k);
            assert(t[0] == s[k]);
            assert(t.drop_first() =~= s.skip(k + 1));
            lemma_tokens_nonempty(t.drop_first(), kind);
        }
    }
}

fn is_delimiter_byte(kind: Delimiters, b: u8) -> (res: bool)
    ensures
        res == is_delimiter(kind, b),
{
    match kind {
        Delimiters::Whitespace => b == 32u8 || b == 9u8 || b == 10u8 || b == 12u8 || b == 13u8,
        Delimiters::SpaceTabComma => b == 32u8 || b == 9u8 || b == 44u8,
    }
}

/// Split a line into its tokens under the given delimiter class.
pub fn split_tokens<'a>(line: &'a [u8], kind: Delimiters) -> (out: Vec<&'a [u8]>)
    ensures
        slice_views(out@) == tokens(line@, kind),
{
    let n = line.len();
    let mut out: Vec<&'a [u8]> = Vec::new();
    let mut i: usize = 0;
    assert(line@.skip(0) =~= line@);
    while i < n
        invariant
            i <= n,
            n == line@.len(),
            tokens(line@, kind) == slice_views(out@) + tokens(line@.skip(i as int), kind),
        decreases n - i,
    {
        let ghost rest = line@.skip(i as int);
        if is_delimiter_byte(kind, line[i]) {
            assert(rest.drop_first() =~= line@.skip(i + 1));
            i = i + 1;
        } else {
            let start = i;
            while i < n && !is_delimiter_byte(kind, line[i])
                invariant
                    start <= i <= n,
                    n == line@.len(),
                    token_len(line@.skip(start as int), kind) == (i - start) + token_len(
                        line@.skip(i as int),
                        kind,
                    ),
                decreases n - i,
            {
                assert(line@.skip(i as int).drop_first() =~= line@.skip(i + 1));
                i = i + 1;
            }
            assert(token_len(line@.skip(i as int), kind) == 0);
            let token: &'a [u8] = slice_subrange(line, start, i);
            let ghost before = out@;
            out.push(token);
            proof {
                let k = (i - start) as int;
                assert(token@ =~= rest.take(k));
                assert(rest.skip(k) =~= line@.skip(i as int));
                assert(slice_views(out@) =~= slice_views(before).push(token@));
                assert(slice_views(out@) + tokens(line@.skip(i as int), kind) =~= slice_views(before)
                    + tokens(rest, kind));
            }
        }
    }
    assert(line@.skip(n as int) =~= Seq::<u8>::empty());
    assert(slice_views(out@) + tokens(line@.skip(n as int), kind) =~= slice_views(out@));
    out
}

/// Split a line on runs of ASCII whitespace (the PLY/PCD/OBJ convention).
pub fn ws_tokens<'a>(line: &'a [u8]) -> (out: Vec<&'a [u8]>)
    ensures
        slice_views(out@) == ws_tokens_of(line@),
{
    split_tokens(line, Delimiters::Whitespace)
}

/// Split a line on runs of space, tab and comma (the XYZ/CSV class).
/// Other ASCII whitespace bytes stay inside tokens.
pub fn xyz_tokens<'a>(line: &'a [u8]) -> (out: Vec<&'a [u8]>)
    ensures
        slice_views(out@) == xyz_tokens_of(line@),
{
    split_tokens(line, Delimiters::SpaceTabComma)
}

/// Byte-wise equality of two slices.
pub fn bytes_eq(a: &[u8], b: &[u8]) -> (res: bool)
    ensures
        res == (a@ == b@),
{
    if a.len() != b.len() {
        return false;
    }
    let n = a.len();
    let mut i: usize = 0;
    while i < n
        invariant
            i <= n,
            n == a@.len(),
            n == b@.len(),
            forall|j: int| 0 <= j < i ==> a@[j] == b@[j],
        decreases n - i,
    {
        if a[i] != b[i] {
            return false;
        }
        i = i + 1;
    }
    assert(a@ =~= b@);
    true
}

/// Whether a token equals the bytes of a keyword.
pub fn is_keyword(token: &[u8], keyword: &str) -> (res: bool)
    ensures
        res == (token@ == keyword.spec_bytes()),
{
    bytes_eq(token, keyword.as_bytes())
}

// ---------------------------------------------------------------------------
// Number grammars
// ---------------------------------------------------------------------------

/// Why a numeric token failed to parse.
#[derive(Debug, Clone, Copy, PartialEq, Eq, Structural)]
pub enum NumberTokenError {
    /// The token is not valid UTF-8.
    NotUtf8,
    /// The token is valid UTF-8 but outside the target type's grammar.
    Invalid,
}

pub open spec fn is_digit_byte(b: u8) -> bool {
    48u8 <= b && b <= 57u8
}

pub open spec fn all_digit_bytes(s: Seq<u8>) -> bool {
    forall|i: int| 0 <= i < s.len() ==> is_digit_byte(#[trigger] s[i])
}

/// Length of the leading run of digit bytes.
pub open spec fn leading_digits(s: Seq<u8>) -> nat
    decreases s.len(),
{
    if s.len() > 0 && is_digit_byte(s[0]) {
        1 + leading_digits(s.drop_first())
    } else {
        0
    }
}

/// `s` without a leading `+` or `-`.
pub open spec fn strip_sign(s: Seq<u8>) -> Seq<u8> {
    if s.len() > 0 && (s[0] == 43u8 || s[0] == 45u8) {
        s.drop_first()
    } else {
        s
    }
}

/// `s` equals the lower-case ASCII word `word` up to ASCII case.
pub open spec fn same_word_ignoring_case(s: Seq<u8>, word: Seq<u8>) -> bool {
    &&& s.len() == word.len()
    &&& forall|i: int|
        0 <= i < s.len() ==> #[trigger] s[i] == word[i] || (97u8 <= word[i] && word[i] <= 122u8
            && s[i] + 32 == word[i])
}

/// `('e' | 'E') Sign? Digit+`.
pub open spec fn exponent_part(s: Seq<u8>) -> bool {
    &&& s.len() >= 2
    &&& s[0] == 101u8 || s[0] == 69u8
    &&& strip_sign(s.drop_first()).len() > 0
    &&& all_digit_bytes(strip_sign(s.drop_first()))
}

/// Length of the mantissa `Digit+ | Digit+ '.' Digit* | Digit* '.' Digit+`
/// at the start of `s`, when there is one.
pub open spec fn mantissa_len(s: Seq<u8>) -> Option<nat> {
    let a = leading_digits(s);
    if a < s.len() && s[a as int] == 46u8 {
        let b = leading_digits(s.skip(a + 1 as int));
        if a + b >= 1 {
            Some(a + 1 + b)
        } else {
            None
        }
    } else if a >= 1 {
        Some(a)
    } else {
        None
    }
}

/// `Number ::= Mantissa Exp?`.
pub open spec fn float_number(s: Seq<u8>) -> bool {
    match mantissa_len(s) {
        Some(m) => m == s.len() || exponent_part(s.skip(m as int)),
        None => false,
    }
}

/// The grammar std documents for parsing text as a floating-point number:
/// text matching it (ASCII case aside) parses, anything else is an error.
///
/// ```text
/// Float  ::= Sign? ( 'inf' | 'infinity' | 'nan' | Number )
/// Number ::= ( Digit+ | Digit+ '.' Digit* | Digit* '.' Digit+ ) Exp?
/// Exp    ::= 'e' Sign? Digit+
/// Sign   ::= [+-]
/// Digit  ::= [0-9]
/// ```
pub open spec fn float_text(s: Seq<u8>) -> bool {
    let body = strip_sign(s);
    ||| same_word_ignoring_case(body, "inf".spec_bytes())
    ||| same_word_ignoring_case(body, "infinity".spec_bytes())
    ||| same_word_ignoring_case(body, "nan".spec_bytes())
    ||| float_number(body)
}

/// A sign: nothing, `+` or `-`.
pub open spec fn is_sign_text(s: Seq<u8>) -> bool {
    s.len() == 0 || s == seq![43u8] || s == seq![45u8]
}

proof fn lemma_leading_digits_concat(d: Seq<u8>, r: Seq<u8>)
    requires
        all_digit_bytes(d),
    ensures
        leading_digits(d + r) == d.len() + leading_digits(r),
    decreases d.len(),
{
    if d.len() > 0 {
        assert((d + r).drop_first() =~= d.drop_first() + r);
        lemma_leading_digits_concat(d.drop_first(), r);
    } else {
        assert(d + r =~= r);
    }
}

proof fn lemma_exponent(e: u8, es: Seq<u8>, m: Seq<u8>)
    requires
        e == 101u8 || e == 69u8,
        is_sign_text(es),
        all_digit_bytes(m),
        m.len() >= 1,
    ensures
        exponent_part(seq![e] + es + m),
{
    let x = seq![e] + es + m;
    assert(x.drop_first() =~= es + m);
    assert(strip_sign(es + m) =~= m);
}

proof fn lemma_signed_number(sign: Seq<u8>, b: Seq<u8>)
    requires
        is_sign_text(sign),
        b.len() > 0,
        b[0] != 43u8 && b[0] != 45u8,
        float_number(b),
    ensures
        float_text(sign + b),
{
    assert(strip_sign(sign + b) =~= b);
}

proof fn lemma_integral_number(d: Seq<u8>, exp: Seq<u8>)
    requires
        all_digit_bytes(d),
        d.len() >= 1,
        exp.len() == 0 || exponent_part(exp),
        exp.len() > 0 ==> !is_digit_byte(exp[0]) && exp[0] != 46u8,
    ensures
        float_number(d + exp),
{
    let b = d + exp;
    lemma_leading_digits_concat(d, exp);
    if exp.len() > 0 {
        assert(leading_digits(exp) == 0);
        assert(b[d.len() as int] == exp[0]);
        assert(b.skip(d.len() as int) =~= exp);
    } else {
        assert(leading_digits(exp) == 0);
    }
}

proof fn lemma_fraction_number(d: Seq<u8>, f: Seq<u8>, exp: Seq<u8>)
    requires
        all_digit_bytes(d),
        all_digit_bytes(f),
        d.len() + f.len() >= 1,
        exp.len() == 0 || exponent_part(exp),
        exp.len() > 0 ==> !is_digit_byte(exp[0]),
    ensures
        float_number(d + seq![46u8] + f + exp),
{
    let rest = seq![46u8] + f + exp;
    let b = d + rest;
    assert(d + seq![46u8] + f + exp =~= b);
    lemma_leading_digits_concat(d, rest);
    assert(leading_digits(rest) == 0);
    assert(b[d.len() as int] == 46u8);
    assert(b.skip(d.len() + 1 as int) =~= f + exp);
    lemma_leading_digits_concat(f, exp);
    if exp.len() > 0 {
        assert(leading_digits(exp) == 0);
        assert(b.skip(d.len() + 1 + f.len() as int) =~= exp);
    } else {
        assert(leading_digits(exp) == 0);
    }
}

/// Decimal numbers in std's float syntax are accepted with any sign, in
/// any of the mantissa forms `d`, `d.f` and `.f`, and with an exponent
/// `e` or `E` followed by an optional `+` or `-` and digits: the exponent
/// sign may be `+`, `-` or absent alike.
pub proof fn law_float_numbers_accepted(
    sign: Seq<u8>,
    d: Seq<u8>,
    f: Seq<u8>,
    e: u8,
    es: Seq<u8>,
    m: Seq<u8>,
)
    requires
        is_sign_text(sign),
        is_sign_text(es),
        all_digit_bytes(d),
        all_digit_bytes(f),
        all_digit_bytes(m),
        m.len() >= 1,
        e == 101u8 || e == 69u8,
    ensures
        d.len() >= 1 ==> float_text(sign + d),
        d.len() >= 1 ==> float_text(sign + d + seq![e] + es + m),
        d.len() + f.len() >= 1 ==> float_text(sign + d + seq![46u8] + f),
        d.len() + f.len() >= 1 ==> float_text(sign + d + seq![46u8] + f + seq![e] + es + m),
{
    lemma_exponent(e, es, m);
    if d.len() >= 1 {
        lemma_integral_forms(sign, d, e, es, m);
    }
    if d.len() + f.len() >= 1 {
        lemma_fraction_forms(sign, d, f, e, es, m);
    }
}

proof fn lemma_integral_forms(sign: Seq<u8>, d: Seq<u8>, e: u8, es: Seq<u8>, m: Seq<u8>)
    requires
        is_sign_text(sign),
        all_digit_bytes(d),
        d.len() >= 1,
        exponent_part(seq![e] + es + m),
        e == 101u8 || e == 69u8,
    ensures
        float_text(sign + d),
        float_text(sign + d + seq![e] + es + m),
{
    let exp = seq![e] + es + m;
    let none = Seq::<u8>::empty();
    lemma_integral_number(d, none);
    assert(d + none =~= d);
    lemma_signed_number(sign, d);
    lemma_integral_number(d, exp);
    lemma_signed_number(sign, d + exp);
    assert(sign + d + seq![e] + es + m =~= sign + (d + exp));
}

proof fn lemma_fraction_forms(
    sign: Seq<u8>,
    d: Seq<u8>,
    f: Seq<u8>,
    e: u8,
    es: Seq<u8>,
    m: Seq<u8>,
)
    requires
        is_sign_text(sign),
        all_digit_bytes(d),
        all_digit_bytes(f),
        d.len() + f.len() >= 1,
        exponent_part(seq![e] + es + m),
        e == 101u8 || e == 69u8,
    ensures
        float_text(sign + d + seq![46u8] + f),
        float_text(sign + d + seq![46u8] + f + seq![e] + es + m),
{
    let exp = seq![e] + es + m;
    let none = Seq::<u8>::empty();
    lemma_fraction_number(d, f, none);
    let b3 = d + seq![46u8] + f + none;
    assert(b3[0] == if d.len() > 0 { d[0] } else { 46u8 });
    lemma_signed_number(sign, b3);
    assert(sign + d + seq![46u8] + f =~= sign + b3);
    lemma_fraction_number(d, f, exp);
    let b4 = d + seq![46u8] + f + exp;
    assert(b4[0] == if d.len() > 0 { d[0] } else { 46u8 });
    lemma_signed_number(sign, b4);
    assert(sign + d + seq![46u8] + f + seq![e] + es + m =~= sign + b4);
}

/// Whether bytes are valid UTF-8 (`std::str::from_utf8(..).is_ok()`).
///
/// Claims: exactly when vstd's `valid_utf8` holds of them.
#[verifier::external_body]
pub(crate) fn is_utf8(bytes: &[u8]) -> (ok: bool)
    ensures
        ok == valid_utf8(bytes@),
{
    std::str::from_utf8(bytes).is_ok()
}

/// The outcome of parsing a token as a float: `NotUtf8`, `Invalid`, or fine.
pub open spec fn float_token_check(token: Seq<u8>) -> Result<(), NumberTokenError> {
    if !valid_utf8(token) {
        Err(NumberTokenError::NotUtf8)
    } else if !float_text(token) {
        Err(NumberTokenError::Invalid)
    } else {
        Ok(())
    }
}

fn count_leading_digits(s: &[u8], from: usize) -> (n: usize)
    requires
        from <= s@.len(),
    ensures
        n == leading_digits(s@.skip(from as int)),
        from + n <= s@.len(),
{
    let len = s.len();
    let mut i = from;
    while i < len && 48u8 <= s[i] && s[i] <= 57u8
        invariant
            from <= i <= len,
            len == s@.len(),
            leading_digits(s@.skip(from as int)) == (i - from) + leading_digits(s@.skip(i as int)),
        decreases len - i,
    {
        assert(s@.skip(i as int).drop_first() =~= s@.skip(i + 1));
        i = i + 1;
    }
    i - from
}

proof fn lemma_leading_digits(s: Seq<u8>)
    ensures
        leading_digits(s) <= s.len(),
        all_digit_bytes(s.take(leading_digits(s) as int)),
        leading_digits(s) < s.len() ==> !is_digit_byte(s[leading_digits(s) as int]),
    decreases s.len(),
{
    if s.len() > 0 && is_digit_byte(s[0]) {
        lemma_leading_digits(s.drop_first());
        let k = leading_digits(s) as int;
        assert forall|j: int| 0 <= j < k implies is_digit_byte(#[trigger] s.take(k)[j]) by {
            if j > 0 {
                assert(s.take(k)[j] == s.drop_first().take(k - 1)[j - 1]);
            }
        }
    }
}

proof fn lemma_all_digits_leading(s: Seq<u8>)
    ensures
        all_digit_bytes(s) <==> leading_digits(s) == s.len(),
    decreases s.len(),
{
    if s.len() > 0 {
        lemma_all_digits_leading(s.drop_first());
        if all_digit_bytes(s) {
            assert(all_digit_bytes(s.drop_first()));
        }
        if leading_digits(s) == s.len() {
            assert forall|i: int| 0 <= i < s.len() implies is_digit_byte(#[trigger] s[i]) by {
                if i > 0 {
                    assert(s[i] == s.drop_first()[i - 1]);
                }
            }
        }
    }
}

fn matches_word(s: &[u8], from: usize, word: &str) -> (res: bool)
    requires
        from <= s@.len(),
    ensures
        res == same_word_ignoring_case(s@.skip(from as int), word.spec_bytes()),
{
    let w = word.as_bytes();
    let len = s.len();
    if len - from != w.len() {
        return false;
    }
    let mut i: usize = 0;
    while i < w.len()
        invariant
            i <= w@.len(),
            w@ == word.spec_bytes(),
            len == s@.len(),
            from + w@.len() == len,
            forall|j: int|
                0 <= j < i ==> #[trigger] s@.skip(from as int)[j] == w@[j] || (97u8 <= w@[j]
                    && w@[j] <= 122u8 && s@.skip(from as int)[j] + 32 == w@[j]),
        decreases w@.len() - i,
    {
        let b = s[from + i];
        let c = w[i];
        if !(b == c || (97u8 <= c && c <= 122u8 && b as u16 + 32 == c as u16)) {
            assert(s@.skip(from as int)[i as int] == b);
            return false;
        }
        i = i + 1;
    }
    true
}

/// Whether `s[from..]` matches `Exp`.
fn check_exponent(s: &[u8], from: usize) -> (res: bool)
    requires
        from <= s@.len(),
    ensures
        res == exponent_part(s@.skip(from as int)),
{
    let len = s.len();
    let ghost t = s@.skip(from as int);
    if len - from < 2 {
        return false;
    }
    if !(s[from] == 101u8 || s[from] == 69u8) {
        return false;
    }
    let mut d = from + 1;
    if s[d] == 43u8 || s[d] == 45u8 {
        d = d + 1;
    }
    proof {
        assert(strip_sign(t.drop_first()) =~= s@.skip(d as int));
    }
    if d == len {
        return false;
    }
    let n = count_leading_digits(s, d);
    proof {
        lemma_all_digits_leading(s@.skip(d as int));
    }
    d + n == len
}

/// Check that a token parses as a float under std's grammar, as the ASCII
/// parsers do for every coordinate: decimal and scientific notation plus
/// the non-finite spellings `nan`/`inf`/`infinity` (with an optional sign).
pub fn parse_number(token: &[u8]) -> (res: Result<(), NumberTokenError>)
    ensures
        res == float_token_check(token@),
{
    if !is_utf8(token) {
        return Err(NumberTokenError::NotUtf8);
    }
    if float_text_check(token) {
        Ok(())
    } else {
        Err(NumberTokenError::Invalid)
    }
}

/// Whether a token matches [`float_text`].
pub fn float_text_check(token: &[u8]) -> (ok: bool)
    ensures
        ok == float_text(token@),
{
    let len = token.len();
    let start: usize = if len > 0 && (token[0] == 43u8 || token[0] == 45u8) {
        1
    } else {
        0
    };
    let ghost body = strip_sign(token@);
    assert(body =~= token@.skip(start as int));
    if matches_word(token, start, "inf") || matches_word(token, start, "infinity") || matches_word(
        token,
        start,
        "nan",
    ) {
        return true;
    }
    let a = count_leading_digits(token, start);
    let mantissa_end: usize;
    if start + a < len && token[start + a] == 46u8 {
        let b = count_leading_digits(token, start + a + 1);
        proof {
            assert(body.skip(a + 1) =~= token@.skip(start + a + 1));
        }
        if a + b == 0 {
            return false;
        }
        mantissa_end = start + a + 1 + b;
    } else if a >= 1 {
        mantissa_end = start + a;
    } else {
        return false;
    }
    proof {
        assert(body.skip(mantissa_end - start) =~= token@.skip(mantissa_end as int));
    }
    mantissa_end == len || check_exponent(token, mantissa_end)
}

/// The decimal value of a run of digit bytes.
pub open spec fn digits_value(s: Seq<u8>) -> nat
    decreases s.len(),
{
    if s.len() == 0 {
        0
    } else {
        digits_value(s.drop_last()) * 10 + (s.last() - 48u8) as nat
    }
}

/// The value std's integer `FromStr` reads from `s` before its range check:
/// an optional `+` (or `-` for signed types) followed by at least one
/// decimal digit; `None` for anything else.
pub open spec fn integer_text(s: Seq<u8>, signed: bool) -> Option<int> {
    if s.len() == 0 {
        None
    } else if (s[0] == 43u8 || s[0] == 45u8) && s.len() == 1 {
        None
    } else if s[0] == 43u8 {
        if all_digit_bytes(s.drop_first()) {
            Some(digits_value(s.drop_first()) as int)
        } else {
            None
        }
    } else if s[0] == 45u8 && signed {
        if all_digit_bytes(s.drop_first()) {
            Some(-(digits_value(s.drop_first()) as int))
        } else {
            None
        }
    } else if all_digit_bytes(s) {
        Some(digits_value(s) as int)
    } else {
        None
    }
}

/// std's integer parse of `s` into a type whose range is `[min, max]`.
pub open spec fn integer_in_range(s: Seq<u8>, signed: bool, min: int, max: int) -> Option<int> {
    match integer_text(s, signed) {
        Some(v) => if min <= v && v <= max {
            Some(v)
        } else {
            None
        },
        None => None,
    }
}

/// The decimal digits of `n`, most significant first, without leading
/// zeros.
pub open spec fn decimal_bytes(n: nat) -> Seq<u8>
    decreases n,
{
    if n < 10 {
        seq![(48 + n) as u8]
    } else {
        decimal_bytes(n / 10).push((48 + n % 10) as u8)
    }
}

/// The decimal text of an integer: a `-` before the digits of a negative
/// value.
pub open spec fn signed_decimal_bytes(v: int) -> Seq<u8> {
    if v < 0 {
        seq![45u8] + decimal_bytes((-v) as nat)
    } else {
        decimal_bytes(v as nat)
    }
}

proof fn lemma_decimal_bytes(n: nat)
    ensures
        decimal_bytes(n).len() >= 1,
        all_digit_bytes(decimal_bytes(n)),
        digits_value(decimal_bytes(n)) == n,
    decreases n,
{
    if n >= 10 {
        lemma_decimal_bytes(n / 10);
        let b = (48 + n % 10) as u8;
        lemma_digits_value_push(decimal_bytes(n / 10), b);
        assert((n / 10) * 10 + n % 10 == n) by (nonlinear_arith);
        assert(n % 10 < 10) by (nonlinear_arith);
        assert((b - 48u8) as nat == n % 10);
        assert forall|i: int| 0 <= i < decimal_bytes(n).len() implies is_digit_byte(
            #[trigger] decimal_bytes(n)[i],
        ) by {
            if i < decimal_bytes(n / 10).len() {
                assert(decimal_bytes(n)[i] == decimal_bytes(n / 10)[i]);
            }
        }
    } else {
        assert(seq![(48 + n) as u8].drop_last() =~= Seq::<u8>::empty());
        assert(digits_value(Seq::<u8>::empty()) == 0);
        assert(decimal_bytes(n).last() == (48 + n) as u8);
    }
}

/// ASCII bytes are valid UTF-8.
pub proof fn lemma_ascii_valid_utf8(s: Seq<u8>)
    requires
        forall|i: int| 0 <= i < s.len() ==> #[trigger] s[i] < 128u8,
    ensures
        valid_utf8(s),
    decreases s.len(),
{
    if s.len() > 0 {
        let rest = s.subrange(1, s.len() as int);
        lemma_ascii_valid_utf8(rest);
        assert(pop_first_scalar(s) =~= rest);
    }
}

/// The decimal text of every integer reads back as that integer: as a
/// signed integer always, as an unsigned one exactly when it is not
/// negative. The text is valid UTF-8.
pub proof fn law_decimal_text_reads_back(v: int)
    ensures
        valid_utf8(signed_decimal_bytes(v)),
        integer_text(signed_decimal_bytes(v), true) == Some(v),
        integer_text(signed_decimal_bytes(v), false) == if v >= 0 {
            Some(v)
        } else {
            None::<int>
        },
{
    let n: nat = if v < 0 { (-v) as nat } else { v as nat };
    lemma_decimal_bytes(n);
    let d = decimal_bytes(n);
    let t = signed_decimal_bytes(v);
    assert(is_digit_byte(d[0]));
    if v < 0 {
        assert(t.drop_first() =~= d);
        assert(!all_digit_bytes(t)) by {
            assert(!is_digit_byte(t[0]));
        }
    }
    assert forall|i: int| 0 <= i < t.len() implies #[trigger] t[i] < 128u8 by {
        if v < 0 {
            if i > 0 {
                assert(t[i] == d[i - 1]);
                assert(is_digit_byte(d[i - 1]));
            }
        } else {
            assert(is_digit_byte(d[i]));
        }
    }
    lemma_ascii_valid_utf8(t);
}

proof fn lemma_digits_value_push(s: Seq<u8>, b: u8)
    ensures
        digits_value(s.push(b)) == digits_value(s) * 10 + (b - 48u8) as nat,
{
    assert(s.push(b).drop_last() =~= s);
}

const VALUE_CAP: u128 = 0x4000_0000_0000_0000_0000;

/// Read a run of digits; the value is saturated at `VALUE_CAP`.
fn read_digits(digits: &[u8]) -> (res: Option<u128>)
    ensures
        res is Some <==> all_digit_bytes(digits@),
        res matches Some(v) ==> (v == VALUE_CAP && digits_value(digits@) >= VALUE_CAP) || (v
            < VALUE_CAP && v == digits_value(digits@)),
{
    let n = digits.len();
    let mut acc: u128 = 0;
    let mut i: usize = 0;
    while i < n
        invariant
            i <= n,
            n == digits@.len(),
            all_digit_bytes(digits@.take(i as int)),
            (acc == VALUE_CAP && digits_value(digits@.take(i as int)) >= VALUE_CAP) || (acc
                < VALUE_CAP && acc == digits_value(digits@.take(i as int))),
        decreases n - i,
    {
        let b = digits[i];
        if b < 48u8 || b > 57u8 {
            assert(!all_digit_bytes(digits@));
            return None;
        }
        proof {
            assert(digits@.take(i + 1) =~= digits@.take(i as int).push(b));
            lemma_digits_value_push(digits@.take(i as int), b);
        }
        if acc < VALUE_CAP {
            let next = acc * 10 + (b - 48u8) as u128;
            if next >= VALUE_CAP {
                acc = VALUE_CAP;
            } else {
                acc = next;
            }
        }
        i = i + 1;
        proof {
            assert forall|j: int| 0 <= j < i implies is_digit_byte(
                #[trigger] digits@.take(i as int)[j],
            ) by {
                if j < i - 1 {
                    assert(digits@.take(i as int)[j] == digits@.take(i - 1)[j]);
                }
            }
        }
    }
    assert(digits@.take(n as int) =~= digits@);
    Some(acc)
}

/// Parse a token with std's integer grammar into the range `[min, max]`
/// (the range of the target integer type).
pub fn parse_integer(token: &[u8], signed: bool, min: i128, max: i128) -> (res: Option<i128>)
    requires
        min <= 0 <= max,
        max <= u64::MAX,
        min >= i64::MIN,
    ensures
        res matches Some(v) ==> integer_in_range(token@, signed, min as int, max as int) == Some(
            v as int,
        ),
        res is None ==> integer_in_range(token@, signed, min as int, max as int) is None,
{
    let n = token.len();
    if n == 0 {
        return None;
    }
    let first = token[0];
    if (first == 43u8 || first == 45u8) && n == 1 {
        return None;
    }
    let negative = first == 45u8 && signed;
    let digits: &[u8] = if first == 43u8 || negative {
        slice_subrange(token, 1, n)
    } else {
        token
    };
    proof {
        if first == 43u8 || negative {
            assert(digits@ =~= token@.drop_first());
        }
    }
    match read_digits(digits) {
        None => None,
        Some(v) => {
            if v >= VALUE_CAP {
                return None;
            }
            let value: i128 = if negative {
                -(v as i128)
            } else {
                v as i128
            };
            if min <= value && value <= max {
                Some(value)
            } else {
                None
            }
        },
    }
}

// ---------------------------------------------------------------------------
// Message text
// ---------------------------------------------------------------------------

/// The characters `String::from_utf8_lossy` makes of a byte sequence.
pub uninterp spec fn lossy_text(bytes: Seq<u8>) -> Seq<char>;

/// Render bytes as text for a message (`String::from_utf8_lossy`).
///
/// Claims: the result is a function of the bytes alone, and valid UTF-8
/// decodes unchanged. What invalid sequences become (U+FFFD replacements)
/// is left unsaid.
#[verifier::external_body]
pub(crate) fn lossy(bytes: &[u8]) -> (text: String)
    ensures
        text@ == lossy_text(bytes@),
        valid_utf8(bytes@) ==> text@ == decode_utf8(bytes@),
{
    String::from_utf8_lossy(bytes).into_owned()
}

pub open spec fn digit_text(d: nat) -> Seq<char> {
    if d == 0 {
        "0"@
    } else if d == 1 {
        "1"@
    } else if d == 2 {
        "2"@
    } else if d == 3 {
        "3"@
    } else if d == 4 {
        "4"@
    } else if d == 5 {
        "5"@
    } else if d == 6 {
        "6"@
    } else if d == 7 {
        "7"@
    } else if d == 8 {
        "8"@
    } else {
        "9"@
    }
}

/// The decimal text of a natural number, as `format!("{}", n)` writes it.
pub open spec fn decimal(n: nat) -> Seq<char>
    decreases n,
{
    if n < 10 {
        digit_text(n)
    } else {
        decimal(n / 10) + digit_text(n % 10)
    }
}

fn digit_str(d: u128) -> (s: &'static str)
    requires
        d < 10,
    ensures
        s@ == digit_text(d as nat),
{
    if d == 0 {
        "0"
    } else if d == 1 {
        "1"
    } else if d == 2 {
        "2"
    } else if d == 3 {
        "3"
    } else if d == 4 {
        "4"
    } else if d == 5 {
        "5"
    } else if d == 6 {
        "6"
    } else if d == 7 {
        "7"
    } else if d == 8 {
        "8"
    } else {
        "9"
    }
}

/// Append the decimal text of `n`.
pub fn push_decimal(s: &mut String, n: u128)
    ensures
        final(s)@ == old(s)@ + decimal(n as nat),
    decreases n,
{
    if n >= 10 {
        push_decimal(s, n / 10);
    }
    s.append(digit_str(n % 10));
    assert(final(s)@ =~= old(s)@ + decimal(n as nat));
}

/// Append a text fragment.
pub fn push_str(s: &mut String, t: &str)
    ensures
        final(s)@ == old(s)@ + t@,
{
    s.append(t);
}

/// A new string holding `t`.
pub fn text_of(t: &str) -> (s: String)
    ensures
        s@ == t@,
{
    String::from_str(t)
}

} // verus!
