//! The PLY header: the `ply` magic line, then `format`, `element`,
//! `property`, `comment` and `obj_info` lines up to `end_header`. Blank
//! lines are tolerated in the header (never in the data).
use vstd::prelude::*;
use vstd::slice::slice_to_vec;
use vstd::string::StringSliceAdditionalSpecFns;
use vstd::utf8::{decode_utf8, valid_utf8};

use super::super::text::{
    after_first_line, first_line, lemma_lines_next, lines, float_token_check, integer_in_range, is_keyword, is_utf8,
    lemma_after_first_line_shorter, lemma_first_line_consumed, lemma_tokens_span, lossy_text,
    parse_integer, parse_number, slice_views, text_of, ws_tokens, ws_tokens_of, LineIter,
};
use super::super::{PointCloudError, PointCloudErrorModel};
use super::{
    elements_view, malformed, malformed_str, props_view, quoted, scalar_type_of, ElementHeader,
    ElementModel, Header, HeaderModel, PlyFormat, PropertyHeader, PropertyModel, ScalarType,
};

verus! {

// ---------------------------------------------------------------------------
// Specification
// ---------------------------------------------------------------------------

/// What the header lines read so far declare.
pub struct HeaderState {
    pub format: Option<PlyFormat>,
    pub elements: Seq<ElementModel>,
}

/// The effect of one header line.
pub enum HeaderStep {
    Continue(HeaderState),
    /// `end_header`: the header is complete.
    Finish,
    Fail(Seq<char>),
}

pub open spec fn format_step(st: HeaderState, t: Seq<Seq<u8>>) -> HeaderStep {
    if t.len() != 3 {
        HeaderStep::Fail(
            "PLY header: \"format\" must be followed by a storage mode and a version"@,
        )
    } else if st.format is Some {
        HeaderStep::Fail("PLY header: duplicate \"format\" line"@)
    } else if t[1] == "ascii".spec_bytes() || t[1] == "binary_little_endian".spec_bytes() {
        if float_token_check(t[2]) is Err {
            HeaderStep::Fail("PLY header: invalid format version"@)
        } else {
            HeaderStep::Continue(
                HeaderState {
                    format: Some(
                        if t[1] == "ascii".spec_bytes() {
                            PlyFormat::Ascii
                        } else {
                            PlyFormat::BinaryLe
                        },
                    ),
                    elements: st.elements,
                },
            )
        }
    } else if t[1] == "binary_big_endian".spec_bytes() {
        HeaderStep::Fail("PLY header: storage mode \"binary_big_endian\" is not supported"@)
    } else {
        HeaderStep::Fail("PLY header: unknown storage mode \""@ + lossy_text(t[1]) + "\""@)
    }
}

pub open spec fn element_step(st: HeaderState, t: Seq<Seq<u8>>) -> HeaderStep {
    if t.len() != 3 {
        HeaderStep::Fail("PLY header: \"element\" must be followed by a name and a count"@)
    } else if !valid_utf8(t[1]) {
        HeaderStep::Fail("PLY header: element name is not valid UTF-8"@)
    } else if !valid_utf8(t[2]) {
        HeaderStep::Fail("PLY header: invalid element count"@)
    } else {
        match integer_in_range(t[2], false, 0, u64::MAX as int) {
            None => HeaderStep::Fail(
                "PLY header: invalid element count \""@ + decode_utf8(t[2]) + "\""@,
            ),
            Some(v) => HeaderStep::Continue(
                HeaderState {
                    format: st.format,
                    elements: st.elements.push(
                        ElementModel { name: t[1], count: v as u64, props: seq![] },
                    ),
                },
            ),
        }
    }
}

/// The property a `property` line declares (at least three tokens).
pub open spec fn property_of(t: Seq<Seq<u8>>) -> Result<PropertyModel, Seq<char>> {
    if t[1] == "list".spec_bytes() {
        if t.len() != 5 {
            Err(
                "PLY header: \"property list\" must be followed by a count type, an item type, and a name"@,
            )
        } else if scalar_type_of(t[2]) is None {
            Err("PLY header: unknown list type \""@ + lossy_text(t[2]) + "\""@)
        } else if scalar_type_of(t[3]) is None {
            Err("PLY header: unknown list type \""@ + lossy_text(t[3]) + "\""@)
        } else if !valid_utf8(t[4]) {
            Err("PLY header: property name is not valid UTF-8"@)
        } else {
            Ok(PropertyModel::List { name: t[4] })
        }
    } else if t.len() != 3 {
        Err("PLY header: scalar \"property\" must be a type and a name"@)
    } else {
        match scalar_type_of(t[1]) {
            None => Err("PLY header: unknown property type \""@ + lossy_text(t[1]) + "\""@),
            Some(ty) => if !valid_utf8(t[2]) {
                Err("PLY header: property name is not valid UTF-8"@)
            } else {
                Ok(PropertyModel::Scalar { name: t[2], ty })
            },
        }
    }
}

/// The elements with `p` appended to the last one's properties.
pub open spec fn add_property(els: Seq<ElementModel>, p: PropertyModel) -> Seq<ElementModel> {
    let last = els.last();
    els.update(
        els.len() - 1,
        ElementModel { name: last.name, count: last.count, props: last.props.push(p) },
    )
}

pub open spec fn property_step(st: HeaderState, t: Seq<Seq<u8>>) -> HeaderStep {
    if t.len() < 3 {
        HeaderStep::Fail("PLY header: \"property\" needs at least a type and a name"@)
    } else if st.elements.len() == 0 {
        HeaderStep::Fail("PLY header: \"property\" declared outside of an element"@)
    } else {
        match property_of(t) {
            Err(m) => HeaderStep::Fail(m),
            Ok(p) => HeaderStep::Continue(
                HeaderState { format: st.format, elements: add_property(st.elements, p) },
            ),
        }
    }
}

/// One header line (after the magic line), given by its tokens.
#[verifier::opaque]
pub open spec fn header_step(st: HeaderState, t: Seq<Seq<u8>>) -> HeaderStep {
    if t.len() == 0 {
        HeaderStep::Continue(st)
    } else if t[0] == "comment".spec_bytes() || t[0] == "obj_info".spec_bytes() {
        HeaderStep::Continue(st)
    } else if t[0] == "format".spec_bytes() {
        format_step(st, t)
    } else if t[0] == "element".spec_bytes() {
        element_step(st, t)
    } else if t[0] == "property".spec_bytes() {
        property_step(st, t)
    } else if t[0] == "end_header".spec_bytes() {
        if t.len() != 1 {
            HeaderStep::Fail("PLY header: unexpected tokens after \"end_header\""@)
        } else if st.format is None {
            HeaderStep::Fail("PLY header: missing \"format\" declaration"@)
        } else {
            HeaderStep::Finish
        }
    } else {
        HeaderStep::Fail("PLY header: unrecognized keyword \""@ + lossy_text(t[0]) + "\""@)
    }
}

/// The header lines of `rest` applied in order; `total` is the file length,
/// so the data start is where the `end_header` line ends.
pub open spec fn header_scan(rest: Seq<u8>, st: HeaderState, total: nat) -> Result<
    HeaderModel,
    Seq<char>,
>
    decreases rest.len(),
{
    if rest.len() == 0 {
        Err("PLY header: missing \"end_header\" line"@)
    } else {
        proof {
            lemma_after_first_line_shorter(rest);
        }
        match header_step(st, ws_tokens_of(first_line(rest))) {
            HeaderStep::Continue(next) => header_scan(after_first_line(rest), next, total),
            HeaderStep::Finish => Ok(
                HeaderModel {
                    format: st.format.unwrap(),
                    elements: st.elements,
                    data_start: (total - after_first_line(rest).len()) as nat,
                },
            ),
            HeaderStep::Fail(m) => Err(m),
        }
    }
}

/// The header of a PLY file, or the reason it is rejected.
pub open spec fn parse_header_spec(bytes: Seq<u8>) -> Result<HeaderModel, Seq<char>> {
    if bytes.len() == 0 {
        Err("PLY: not a PLY file: the file is empty"@)
    } else if first_line(bytes) != "ply".spec_bytes() {
        Err("PLY: not a PLY file: the first line must be \"ply\""@)
    } else {
        header_scan(
            after_first_line(bytes),
            HeaderState { format: None, elements: seq![] },
            bytes.len(),
        )
    }
}

/// Number of element and property declarations.
pub open spec fn header_size(els: Seq<ElementModel>) -> nat
    decreases els.len(),
{
    if els.len() == 0 {
        0
    } else {
        header_size(els.drop_last()) + 1 + els.last().props.len()
    }
}

/// Each declaration takes at least eight bytes of header text.
proof fn lemma_step_size(st: HeaderState, line: Seq<u8>)
    ensures
        header_step(st, ws_tokens_of(line)) matches HeaderStep::Continue(next) ==> 8 * header_size(
            next.elements,
        ) <= 8 * header_size(st.elements) + line.len(),
{
    reveal(header_step);
    let t = ws_tokens_of(line);
    if t.len() >= 3 && (t[0] == "element".spec_bytes() || t[0] == "property".spec_bytes()) {
        lemma_tokens_span(line, super::super::text::Delimiters::Whitespace);
        if t[0] == "element".spec_bytes() {
            reveal_strlit("element");
            vstd::string::is_ascii_spec_bytes("element");
            assert("element".spec_bytes().len() == 7);
            if let HeaderStep::Continue(next) = element_step(st, t) {
                assert(next.elements.drop_last() =~= st.elements);
                assert(header_size(next.elements) == header_size(st.elements) + 1);
            }
        } else {
            reveal_strlit("property");
            vstd::string::is_ascii_spec_bytes("property");
            assert("property".spec_bytes().len() == 8);
            if let HeaderStep::Continue(next) = property_step(st, t) {
                assert(next.elements.drop_last() =~= st.elements.drop_last());
                assert(header_size(next.elements) == header_size(st.elements) + 1);
            }
        }
    }
}

/// The first whitespace token of a line is `kw`.
pub open spec fn leads_with(line: Seq<u8>, kw: Seq<u8>) -> bool {
    ws_tokens_of(line).len() > 0 && ws_tokens_of(line)[0] == kw
}

/// Number of lines that start with the `format` keyword.
pub open spec fn format_lines(ls: Seq<Seq<u8>>) -> nat
    decreases ls.len(),
{
    if ls.len() == 0 {
        0
    } else {
        (if leads_with(ls[0], "format".spec_bytes()) {
            1nat
        } else {
            0nat
        }) + format_lines(ls.drop_first())
    }
}

/// The bytes after the first `n` lines of `s`.
pub open spec fn skip_lines(s: Seq<u8>, n: nat) -> Seq<u8>
    decreases n,
{
    if n == 0 || s.len() == 0 {
        s
    } else {
        skip_lines(after_first_line(s), (n - 1) as nat)
    }
}

/// What follows some lines is a suffix of the bytes, and holds the
/// remaining lines.
proof fn lemma_skip_lines(s: Seq<u8>, n: nat)
    requires
        n <= lines(s).len(),
    ensures
        skip_lines(s, n) == s.skip(s.len() - skip_lines(s, n).len()),
        skip_lines(s, n).len() <= s.len(),
        lines(skip_lines(s, n)) == lines(s).skip(n as int),
    decreases n,
{
    lemma_lines_next(s);
    if n == 0 || s.len() == 0 {
        assert(s.skip(0) =~= s);
        assert(lines(s).skip(0) =~= lines(s));
    } else {
        let a = after_first_line(s);
        lemma_after_first_line_shorter(s);
        lemma_skip_lines(a, (n - 1) as nat);
        assert(s.skip(s.len() - a.len()).skip(a.len() - skip_lines(a, (n - 1) as nat).len())
            =~= s.skip(s.len() - skip_lines(a, (n - 1) as nat).len()));
        assert(lines(s).drop_first().skip(n - 1) =~= lines(s).skip(n as int));
    }
}

/// The header keywords differ in length.
proof fn lemma_keyword_lengths()
    ensures
        "comment".spec_bytes().len() == 7,
        "obj_info".spec_bytes().len() == 8,
        "format".spec_bytes().len() == 6,
        "element".spec_bytes().len() == 7,
        "property".spec_bytes().len() == 8,
        "end_header".spec_bytes().len() == 10,
{
    reveal_strlit("comment");
    reveal_strlit("obj_info");
    reveal_strlit("format");
    reveal_strlit("element");
    reveal_strlit("property");
    reveal_strlit("end_header");
    vstd::string::is_ascii_spec_bytes("comment");
    vstd::string::is_ascii_spec_bytes("obj_info");
    vstd::string::is_ascii_spec_bytes("format");
    vstd::string::is_ascii_spec_bytes("element");
    vstd::string::is_ascii_spec_bytes("property");
    vstd::string::is_ascii_spec_bytes("end_header");
}

/// A successful header scan ends on line `e` of `rest`: that line is
/// `end_header` alone, no earlier line starts with `end_header`, the
/// format is declared once over the scan, and the data starts after it.
proof fn lemma_scan_shape(rest: Seq<u8>, st: HeaderState, total: nat) -> (e: nat)
    requires
        rest.len() <= total,
    ensures
        header_scan(rest, st, total) matches Ok(h) ==> {
            let ls = lines(rest);
            &&& e < ls.len()
            &&& ws_tokens_of(ls[e as int]) == seq!["end_header".spec_bytes()]
            &&& forall|j: int| 0 <= j < e ==> !leads_with(#[trigger] ls[j], "end_header".spec_bytes())
            &&& format_lines(ls.take(e as int)) + (if st.format is Some {
                1nat
            } else {
                0nat
            }) == 1
            &&& h.data_start == total - skip_lines(rest, e + 1).len()
        },
    decreases rest.len(),
{
    if rest.len() == 0 {
        0
    } else {
        reveal(header_step);
        lemma_keyword_lengths();
        lemma_after_first_line_shorter(rest);
        lemma_lines_next(rest);
        let a = after_first_line(rest);
        let ls = lines(rest);
        let t = ws_tokens_of(first_line(rest));
        match header_step(st, t) {
            HeaderStep::Continue(next) => {
                let e0 = lemma_scan_shape(a, next, total);
                let e = e0 + 1;
                if header_scan(rest, st, total) is Ok {
                    assert(ls[0] == first_line(rest));
                    assert(ls.drop_first() == lines(a));
                    assert forall|j: int| 0 <= j < e implies !leads_with(#[trigger] ls[j], "end_header".spec_bytes()) by {
                        if j > 0 {
                            assert(ls[j] == lines(a)[j - 1]);
                        }
                    }
                    assert(ls.take(e as int).drop_first() =~= lines(a).take(e0 as int));
                    assert(ls.take(e as int)[0] == ls[0]);
                    if t.len() > 0 && t[0] == "format".spec_bytes() {
                        assert(st.format is None && next.format is Some);
                    } else {
                        assert(next.format == st.format);
                    }
                    assert(header_scan(rest, st, total) == header_scan(a, next, total));
                    assert(skip_lines(rest, e + 1) == skip_lines(a, e0 + 1));
                    assert(ls[e as int] == lines(a)[e0 as int]);
                    assert(format_lines(ls.take(e as int)) == (if leads_with(ls[0], "format".spec_bytes()) {
                        1nat
                    } else {
                        0nat
                    }) + format_lines(lines(a).take(e0 as int)));
                }
                e
            },
            _ => {
                if header_scan(rest, st, total) is Ok {
                    assert(ls[0] == first_line(rest));
                    assert(t =~= seq!["end_header".spec_bytes()]);
                    assert(ls.take(0) =~= Seq::<Seq<u8>>::empty());
                    assert(skip_lines(a, 0) == a);
                    assert(skip_lines(rest, 1) == a);
                }
                0
            },
        }
    }
}

/// The header law: a PLY header starts with the line `ply`; some later
/// line `e` is `end_header` with no other token, and it is the first
/// line to start with `end_header`; exactly one line between them starts
/// with `format`; and the data starts just past line `e` (past its `\n`,
/// or at the end of the file), so it holds exactly the lines after it.
pub proof fn law_header_shape(bytes: Seq<u8>)
    ensures
        parse_header_spec(bytes) matches Ok(h) ==> {
            let ls = lines(bytes);
            &&& bytes.len() > 0
            &&& ls[0] == "ply".spec_bytes()
            &&& h.data_start <= bytes.len()
            &&& exists|e: int|
                #![trigger ls[e]]
                {
                    &&& 1 <= e < ls.len()
                    &&& ws_tokens_of(ls[e]) == seq!["end_header".spec_bytes()]
                    &&& forall|j: int|
                        1 <= j < e ==> !leads_with(#[trigger] ls[j], "end_header".spec_bytes())
                    &&& format_lines(ls.subrange(1, e)) == 1
                    &&& bytes.skip(h.data_start as int) == skip_lines(bytes, (e + 1) as nat)
                    &&& lines(bytes.skip(h.data_start as int)) == ls.skip(e + 1)
                }
        },
{
    if let Ok(h) = parse_header_spec(bytes) {
        let a = after_first_line(bytes);
        let st = HeaderState { format: None, elements: seq![] };
        lemma_after_first_line_shorter(bytes);
        let e0 = lemma_scan_shape(a, st, bytes.len());
        let e = e0 + 1;
        let ls = lines(bytes);
        lemma_lines_next(bytes);
        assert(ls.drop_first() == lines(a));
        assert(ls[e as int] == lines(a)[e0 as int]);
        assert forall|j: int| 1 <= j < e implies !leads_with(#[trigger] ls[j], "end_header".spec_bytes()) by {
            assert(ls[j] == lines(a)[j - 1]);
        }
        assert(ls.subrange(1, e as int) =~= lines(a).take(e0 as int));
        lemma_skip_lines(bytes, e + 1);
        assert(skip_lines(bytes, e + 1) == skip_lines(a, e0 + 1));
        assert(bytes.skip(h.data_start as int) == skip_lines(bytes, e + 1));
    }
}

// ---------------------------------------------------------------------------
// Implementation
// ---------------------------------------------------------------------------

/// What a header line tells the reader to do next.
enum LineOutcome {
    Next,
    Done,
    Reject(String),
}

/// The header under construction: the elements whose properties are
/// complete, and the element that `property` lines extend.
struct HeaderBuilder {
    format: Option<PlyFormat>,
    done: Vec<ElementHeader>,
    open: Option<ElementHeader>,
}

impl HeaderBuilder {
    spec fn elements(&self) -> Seq<ElementModel> {
        match &self.open {
            None => elements_view(self.done@),
            Some(e) => elements_view(self.done@).push(e@),
        }
    }

    spec fn state(&self) -> HeaderState {
        HeaderState { format: self.format, elements: self.elements() }
    }

    spec fn wf(&self) -> bool {
        self.open is None ==> self.done@.len() == 0
    }

    fn into_elements(self) -> (v: Vec<ElementHeader>)
        ensures
            elements_view(v@) == self.elements(),
    {
        let mut done = self.done;
        let ghost d0 = done@;
        match self.open {
            Some(e) => {
                done.push(e);
                assert(elements_view(done@) =~= elements_view(d0).push(e@));
            },
            None => {},
        }
        done
    }
}

spec fn outcome_ok(step: HeaderStep, r: LineOutcome, b0: HeaderBuilder, b1: HeaderBuilder) -> bool {
    match step {
        HeaderStep::Continue(next) => r is Next && b1.state() == next && b1.wf(),
        HeaderStep::Finish => r is Done && b1.state() == b0.state() && b1.format is Some,
        HeaderStep::Fail(m) => r matches LineOutcome::Reject(s) && s@ == m,
    }
}

fn format_line(b: &mut HeaderBuilder, tokens: &Vec<&[u8]>) -> (r: LineOutcome)
    requires
        old(b).wf(),
    ensures
        outcome_ok(format_step(old(b).state(), slice_views(tokens@)), r, *old(b), *final(b)),
{
    let ghost t = slice_views(tokens@);
    if tokens.len() != 3 {
        return LineOutcome::Reject(
            text_of("PLY header: \"format\" must be followed by a storage mode and a version"),
        );
    }
    if b.format.is_some() {
        return LineOutcome::Reject(text_of("PLY header: duplicate \"format\" line"));
    }
    assert(t[1] == tokens@[1]@ && t[2] == tokens@[2]@);
    let mode: PlyFormat;
    if is_keyword(tokens[1], "ascii") {
        mode = PlyFormat::Ascii;
    } else if is_keyword(tokens[1], "binary_little_endian") {
        mode = PlyFormat::BinaryLe;
    } else if is_keyword(tokens[1], "binary_big_endian") {
        return LineOutcome::Reject(
            text_of("PLY header: storage mode \"binary_big_endian\" is not supported"),
        );
    } else {
        return LineOutcome::Reject(
            quoted("PLY header: unknown storage mode \"", tokens[1], "\""),
        );
    }
    if parse_number(tokens[2]).is_err() {
        return LineOutcome::Reject(text_of("PLY header: invalid format version"));
    }
    b.format = Some(mode);
    LineOutcome::Next
}

fn element_line(b: &mut HeaderBuilder, tokens: &Vec<&[u8]>) -> (r: LineOutcome)
    requires
        old(b).wf(),
    ensures
        outcome_ok(element_step(old(b).state(), slice_views(tokens@)), r, *old(b), *final(b)),
{
    let ghost t = slice_views(tokens@);
    if tokens.len() != 3 {
        return LineOutcome::Reject(
            text_of("PLY header: \"element\" must be followed by a name and a count"),
        );
    }
    assert(t[1] == tokens@[1]@ && t[2] == tokens@[2]@);
    if !is_utf8(tokens[1]) {
        return LineOutcome::Reject(text_of("PLY header: element name is not valid UTF-8"));
    }
    if !is_utf8(tokens[2]) {
        return LineOutcome::Reject(text_of("PLY header: invalid element count"));
    }
    let count: u64 = match parse_integer(tokens[2], false, 0, 0xffff_ffff_ffff_ffff) {
        None => {
            return LineOutcome::Reject(
                quoted("PLY header: invalid element count \"", tokens[2], "\""),
            );
        },
        Some(v) => v as u64,
    };
    let element = ElementHeader { name: slice_to_vec(tokens[1]), count, props: Vec::new() };
    assert(props_view(element.props@) =~= Seq::<PropertyModel>::empty());
    let ghost before = b.elements();
    let ghost d0 = b.done@;
    match b.open.take() {
        Some(e) => {
            b.done.push(e);
            assert(elements_view(b.done@) =~= elements_view(d0).push(e@));
        },
        None => {
            assert(elements_view(b.done@) =~= Seq::<ElementModel>::empty());
        },
    }
    b.open = Some(element);
    assert(b.elements() =~= before.push(element@));
    LineOutcome::Next
}

/// The property a `property` line declares.
fn parse_property(tokens: &Vec<&[u8]>) -> (res: Result<PropertyHeader, String>)
    requires
        tokens@.len() >= 3,
    ensures
        match property_of(slice_views(tokens@)) {
            Ok(m) => res matches Ok(p) && p@ == m,
            Err(m) => res matches Err(s) && s@ == m,
        },
{
    let ghost t = slice_views(tokens@);
    assert(t[1] == tokens@[1]@ && t[2] == tokens@[2]@);
    if is_keyword(tokens[1], "list") {
        if tokens.len() != 5 {
            return Err(
                text_of(
                    "PLY header: \"property list\" must be followed by a count type, an item type, and a name",
                ),
            );
        }
        assert(t[3] == tokens@[3]@ && t[4] == tokens@[4]@);
        if ScalarType::from_keyword(tokens[2]).is_none() {
            return Err(quoted("PLY header: unknown list type \"", tokens[2], "\""));
        }
        if ScalarType::from_keyword(tokens[3]).is_none() {
            return Err(quoted("PLY header: unknown list type \"", tokens[3], "\""));
        }
        if !is_utf8(tokens[4]) {
            return Err(text_of("PLY header: property name is not valid UTF-8"));
        }
        Ok(PropertyHeader::List { name: slice_to_vec(tokens[4]) })
    } else {
        if tokens.len() != 3 {
            return Err(text_of("PLY header: scalar \"property\" must be a type and a name"));
        }
        let ty = match ScalarType::from_keyword(tokens[1]) {
            Some(ty) => ty,
            None => {
                return Err(quoted("PLY header: unknown property type \"", tokens[1], "\""));
            },
        };
        if !is_utf8(tokens[2]) {
            return Err(text_of("PLY header: property name is not valid UTF-8"));
        }
        Ok(PropertyHeader::Scalar { name: slice_to_vec(tokens[2]), ty })
    }
}

fn property_line(b: &mut HeaderBuilder, tokens: &Vec<&[u8]>) -> (r: LineOutcome)
    requires
        old(b).wf(),
    ensures
        outcome_ok(property_step(old(b).state(), slice_views(tokens@)), r, *old(b), *final(b)),
{
    if tokens.len() < 3 {
        return LineOutcome::Reject(
            text_of("PLY header: \"property\" needs at least a type and a name"),
        );
    }
    if b.open.is_none() {
        return LineOutcome::Reject(
            text_of("PLY header: \"property\" declared outside of an element"),
        );
    }
    let property = match parse_property(tokens) {
        Ok(p) => p,
        Err(s) => return LineOutcome::Reject(s),
    };
    let ghost before = b.elements();
    let mut element = b.open.take().unwrap();
    let ghost e0 = element@;
    let ghost p0 = element.props@;
    element.props.push(property);
    assert(props_view(element.props@) =~= props_view(p0).push(property@));
    b.open = Some(element);
    assert(b.elements() =~= add_property(before, property@));
    LineOutcome::Next
}

/// Apply one header line.
fn header_line(b: &mut HeaderBuilder, tokens: &Vec<&[u8]>) -> (r: LineOutcome)
    requires
        old(b).wf(),
    ensures
        outcome_ok(header_step(old(b).state(), slice_views(tokens@)), r, *old(b), *final(b)),
{
    reveal(header_step);
    let ghost t = slice_views(tokens@);
    if tokens.len() == 0 {
        return LineOutcome::Next;
    }
    let keyword = tokens[0];
    assert(t[0] == keyword@);
    if is_keyword(keyword, "comment") || is_keyword(keyword, "obj_info") {
        LineOutcome::Next
    } else if is_keyword(keyword, "format") {
        format_line(b, tokens)
    } else if is_keyword(keyword, "element") {
        element_line(b, tokens)
    } else if is_keyword(keyword, "property") {
        property_line(b, tokens)
    } else if is_keyword(keyword, "end_header") {
        if tokens.len() != 1 {
            LineOutcome::Reject(text_of("PLY header: unexpected tokens after \"end_header\""))
        } else if b.format.is_none() {
            LineOutcome::Reject(text_of("PLY header: missing \"format\" declaration"))
        } else {
            LineOutcome::Done
        }
    } else {
        LineOutcome::Reject(quoted("PLY header: unrecognized keyword \"", keyword, "\""))
    }
}

/// Parse the header of a PLY file. On success the data starts at
/// `data_start`, and the header text covers at least eight bytes per
/// element and property declaration.
pub fn parse_header(bytes: &[u8]) -> (res: Result<Header, PointCloudError>)
    ensures
        match parse_header_spec(bytes@) {
            Ok(h) => res matches Ok(x) && x@ == h,
            Err(m) => res matches Err(e) && e@ == (PointCloudErrorModel::Malformed { reason: m }),
        },
        res matches Ok(h) ==> 8 * header_size(h@.elements) <= h.data_start && h.data_start
            <= bytes@.len(),
{
    if bytes.len() == 0 {
        return Err(malformed_str("PLY: not a PLY file: the file is empty"));
    }
    let total = bytes.len();
    let mut it = LineIter::new(bytes);
    let first = it.next().unwrap();
    if !is_keyword(first, "ply") {
        return Err(malformed_str("PLY: not a PLY file: the first line must be \"ply\""));
    }
    let mut b = HeaderBuilder { format: None, done: Vec::new(), open: None };
    proof {
        lemma_first_line_consumed(bytes@);
        assert(elements_view(b.done@) =~= Seq::<ElementModel>::empty());
        assert(b.state() == HeaderState { format: None, elements: seq![] });
    }
    loop
        invariant
            total == bytes@.len(),
            it@.len() <= total,
            b.wf(),
            parse_header_spec(bytes@) == header_scan(it@, b.state(), total as nat),
            8 * header_size(b.state().elements) <= total - it@.len(),
        decreases it@.len(),
    {
        let ghost before = it@;
        let ghost st0 = b.state();
        match it.next() {
            None => {
                return Err(malformed_str("PLY header: missing \"end_header\" line"));
            },
            Some(line) => {
                let tokens = ws_tokens(line);
                proof {
                    lemma_first_line_consumed(before);
                    lemma_step_size(st0, line@);
                }
                match header_line(&mut b, &tokens) {
                    LineOutcome::Next => {},
                    LineOutcome::Done => {
                        let data_start = total - it.remaining_len();
                        let format = b.format.unwrap();
                        let elements = b.into_elements();
                        return Ok(Header { format, elements, data_start });
                    },
                    LineOutcome::Reject(s) => {
                        return Err(malformed(s));
                    },
                }
            },
        }
    }
}

} // verus!
