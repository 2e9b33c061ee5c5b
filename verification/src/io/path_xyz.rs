//! XYZ/CSV path parser for the locked subset.
//!
//! Scope: text files with one point per line, three values separated by
//! runs of spaces, tabs or commas (the `[,\t ]+` class). A line whose first
//! token starts with `#` is a whole-line comment (trailing comments are not
//! supported and surface as a value-count error). Blank lines are skipped.
//! The first non-empty, non-comment line that does not carry exactly three
//! numeric values is skipped as a title row; every later line must be a
//! point, otherwise the file is rejected with a line-numbered error.
//!
//! The whole file is one open polyline through the points, in file order.
//! Files with fewer than two points are rejected with
//! [`PathError::TooFewPoints`]. A first pass counts the point lines and
//! checks the count in `u128` before any vector is built.
use vstd::prelude::*;
use vstd::slice::slice_to_vec;

use super::text::{
    decimal, float_token_check, lemma_after_first_line_shorter, lemma_lines_len, lemma_lines_unfold,
    lines, lossy, lossy_text, parse_number, push_decimal, push_str, slice_views, text_of,
    xyz_tokens, xyz_tokens_of, LineIter, NumberTokenError,
};
use super::{PathData, PathError, PathErrorModel, PathModel, Point3, Point3Model, ScalarModel, ScalarValue, points_view};

verus! {

// ---------------------------------------------------------------------------
// Specification
// ---------------------------------------------------------------------------

/// A line whose first token starts with `#`.
pub open spec fn comment_tokens(t: Seq<Seq<u8>>) -> bool {
    t.len() > 0 && t[0].len() > 0 && t[0][0] == 35u8
}

/// Exactly three tokens, each a valid float.
pub open spec fn point_tokens(t: Seq<Seq<u8>>) -> bool {
    &&& t.len() == 3
    &&& float_token_check(t[0]) is Ok
    &&& float_token_check(t[1]) is Ok
    &&& float_token_check(t[2]) is Ok
}

/// Neither blank nor a comment.
pub open spec fn surviving(line: Seq<u8>) -> bool {
    xyz_tokens_of(line).len() > 0 && !comment_tokens(xyz_tokens_of(line))
}

/// The surviving lines that carry a full point.
pub open spec fn point_count_of(lines: Seq<Seq<u8>>) -> nat
    decreases lines.len(),
{
    if lines.len() == 0 {
        0
    } else {
        point_count_of(lines.drop_last()) + if surviving(lines.last()) && point_tokens(
            xyz_tokens_of(lines.last()),
        ) {
            1nat
        } else {
            0nat
        }
    }
}

pub open spec fn capacity_spec(counted: nat) -> Result<nat, PathErrorModel> {
    if counted > usize::MAX {
        Err(
            PathErrorModel::Limit {
                reason: decimal(counted) + " points cannot fit in this platform's address space"@,
            },
        )
    } else {
        Ok(counted)
    }
}

/// One numeric value of a point line.
pub open spec fn value_spec(token: Seq<u8>, line: nat) -> Result<ScalarModel, PathErrorModel> {
    match float_token_check(token) {
        Ok(_) => Ok(ScalarModel::FloatText(token)),
        Err(NumberTokenError::NotUtf8) => Err(
            PathErrorModel::Malformed { line, reason: "value is not valid UTF-8"@ },
        ),
        Err(NumberTokenError::Invalid) => Err(
            PathErrorModel::Malformed {
                line,
                reason: "invalid number \""@ + lossy_text(token) + "\""@,
            },
        ),
    }
}

/// The point of a three-token line.
pub open spec fn point_spec(t: Seq<Seq<u8>>, line: nat) -> Result<Point3Model, PathErrorModel> {
    match value_spec(t[0], line) {
        Err(e) => Err(e),
        Ok(x) => match value_spec(t[1], line) {
            Err(e) => Err(e),
            Ok(y) => match value_spec(t[2], line) {
                Err(e) => Err(e),
                Ok(z) => Ok(Point3Model { x, y, z }),
            },
        },
    }
}

pub struct XyzState {
    pub points: Seq<Point3Model>,
    pub title_seen: bool,
}

/// One physical line (1-based number `line`) applied to the state.
#[verifier::opaque]
pub open spec fn xyz_step(s: XyzState, line_bytes: Seq<u8>, line: nat) -> Result<
    XyzState,
    PathErrorModel,
> {
    let t = xyz_tokens_of(line_bytes);
    if t.len() == 0 || comment_tokens(t) {
        Ok(s)
    } else if !s.title_seen {
        if !point_tokens(t) {
            Ok(XyzState { points: s.points, title_seen: true })
        } else {
            match point_spec(t, line) {
                Ok(p) => Ok(XyzState { points: s.points.push(p), title_seen: true }),
                Err(e) => Err(e),
            }
        }
    } else if t.len() != 3 {
        Err(
            PathErrorModel::Malformed {
                line,
                reason: "expected exactly 3 values, found "@ + decimal(t.len()),
            },
        )
    } else {
        match point_spec(t, line) {
            Ok(p) => Ok(XyzState { points: s.points.push(p), title_seen: s.title_seen }),
            Err(e) => Err(e),
        }
    }
}

pub open spec fn xyz_fold(lines: Seq<Seq<u8>>) -> Result<XyzState, PathErrorModel>
    decreases lines.len(),
{
    if lines.len() == 0 {
        Ok(XyzState { points: seq![], title_seen: false })
    } else {
        match xyz_fold(lines.drop_last()) {
            Ok(s) => xyz_step(s, lines.last(), lines.len()),
            Err(e) => Err(e),
        }
    }
}

/// The XYZ/CSV parse of a whole file.
pub open spec fn parse_xyz_spec(bytes: Seq<u8>) -> Result<PathModel, PathErrorModel> {
    let ls = lines(bytes);
    match capacity_spec(point_count_of(ls)) {
        Err(e) => Err(e),
        Ok(_) => match xyz_fold(ls) {
            Err(e) => Err(e),
            Ok(s) => if s.points.len() < 2 {
                Err(PathErrorModel::TooFewPoints { points: s.points.len() })
            } else {
                Ok(PathModel { points: s.points })
            },
        },
    }
}

pub open spec fn path_result_view(r: Result<PathData, PathError>) -> Result<PathModel, PathErrorModel> {
    match r {
        Ok(d) => Ok(d@),
        Err(e) => Err(e@),
    }
}

// ---------------------------------------------------------------------------
// Lemmas
// ---------------------------------------------------------------------------

proof fn lemma_xyz_fold_err(ls: Seq<Seq<u8>>, k: int)
    requires
        0 <= k <= ls.len(),
        xyz_fold(ls.take(k)) is Err,
    ensures
        xyz_fold(ls) == xyz_fold(ls.take(k)),
    decreases ls.len(),
{
    if k == ls.len() {
        assert(ls.take(k) =~= ls);
    } else {
        assert(ls.drop_last().take(k) =~= ls.take(k));
        lemma_xyz_fold_err(ls.drop_last(), k);
    }
}

proof fn lemma_point_count_bound(ls: Seq<Seq<u8>>)
    ensures
        point_count_of(ls) <= ls.len(),
    decreases ls.len(),
{
    if ls.len() > 0 {
        lemma_point_count_bound(ls.drop_last());
    }
}

/// Every successful fold holds exactly as many points as the counting
/// pass counted.
pub proof fn law_fold_matches_count(ls: Seq<Seq<u8>>)
    ensures
        xyz_fold(ls) matches Ok(s) ==> s.points.len() == point_count_of(ls),
    decreases ls.len(),
{
    reveal(xyz_step);
    if ls.len() > 0 {
        law_fold_matches_count(ls.drop_last());
        let t = xyz_tokens_of(ls.last());
        if t.len() == 3 {
            let line = ls.len();
            if point_spec(t, line) is Ok {
                assert(point_tokens(t));
            }
        }
    }
}

/// A loaded path holds one point per counted point line, so the capacity
/// the counting pass reserves is exactly what the parse fills, and a path
/// always has at least two points.
pub proof fn law_path_matches_count(bytes: Seq<u8>)
    ensures
        parse_xyz_spec(bytes) matches Ok(m) ==> m.points.len() == point_count_of(lines(bytes))
            && m.points.len() >= 2,
{
    law_fold_matches_count(lines(bytes));
}

// ---------------------------------------------------------------------------
// Implementation
// ---------------------------------------------------------------------------

/// A line-anchored rejection.
pub fn malformed(line: usize, reason: String) -> (e: PathError)
    ensures
        e@ == (PathErrorModel::Malformed { line: line as nat, reason: reason@ }),
{
    PathError::Malformed { line, reason }
}

/// A platform-limit rejection.
pub fn limit(reason: String) -> (e: PathError)
    ensures
        e@ == (PathErrorModel::Limit { reason: reason@ }),
{
    PathError::Limit { reason }
}

/// A line whose first token starts with `#` (whole-line comment).
pub fn is_comment(tokens: &Vec<&[u8]>) -> (res: bool)
    ensures
        res == comment_tokens(slice_views(tokens@)),
{
    tokens.len() > 0 && tokens[0].len() > 0 && tokens[0][0] == 35u8
}

/// Whether a line carries a full point: exactly three tokens that each
/// parse as a float.
pub fn is_point_line(tokens: &Vec<&[u8]>) -> (res: bool)
    ensures
        res == point_tokens(slice_views(tokens@)),
{
    tokens.len() == 3 && parse_number(tokens[0]).is_ok() && parse_number(tokens[1]).is_ok()
        && parse_number(tokens[2]).is_ok()
}

/// First pass: count the point lines (blank and comment lines skipped).
/// The count equals the number of points of every successful parse.
pub fn count_points(bytes: &[u8]) -> (count: u128)
    ensures
        count == point_count_of(lines(bytes@)),
{
    let ghost all = lines(bytes@);
    let total = bytes.len();
    let mut count: u128 = 0;
    let mut it = LineIter::new(bytes);
    let mut k: usize = 0;
    proof {
        lemma_lines_len(bytes@);
        assert(all.skip(0) =~= all);
        assert(all.take(0) =~= Seq::<Seq<u8>>::empty());
    }
    loop
        invariant
            all == lines(bytes@),
            all.len() <= total,
            total == bytes@.len(),
            k <= all.len(),
            lines(it@) == all.skip(k as int),
            count == point_count_of(all.take(k as int)),
        ensures
            count == point_count_of(all),
        decreases it@.len(),
    {
        let ghost before = it@;
        match it.next() {
            None => {
                assert(all.take(k as int) =~= all);
                break ;
            },
            Some(line) => {
                proof {
                    lemma_lines_unfold(before);
                    lemma_after_first_line_shorter(before);
                    assert(lines(before).len() > 0);
                    assert(k < all.len());
                    assert(all.skip(k as int)[0] == all[k as int]);
                    assert(all.skip(k as int).drop_first() =~= all.skip(k + 1));
                    assert(all.take(k + 1).drop_last() =~= all.take(k as int));
                    lemma_point_count_bound(all.take(k as int));
                }
                let tokens = xyz_tokens(line);
                if tokens.len() > 0 && !is_comment(&tokens) && is_point_line(&tokens) {
                    count = count + 1;
                }
                k = k + 1;
            },
        }
    }
    count
}

/// The allocation guard of the counting pre-validation, in `u128`.
pub fn checked_capacity(counted: u128) -> (res: Result<usize, PathError>)
    ensures
        match capacity_spec(counted as nat) {
            Ok(n) => res matches Ok(c) && c == n,
            Err(e) => res matches Err(x) && x@ == e,
        },
{
    if counted > usize::MAX as u128 {
        let mut s = String::new();
        push_decimal(&mut s, counted);
        push_str(&mut s, " points cannot fit in this platform's address space");
        assert(s@ =~= decimal(counted as nat) + " points cannot fit in this platform's address space"@);
        Err(limit(s))
    } else {
        Ok(counted as usize)
    }
}

/// One numeric value of a point line.
fn parse_value(token: &[u8], line: usize) -> (res: Result<ScalarValue, PathError>)
    ensures
        match value_spec(token@, line as nat) {
            Ok(m) => res matches Ok(v) && v@ == m,
            Err(e) => res matches Err(x) && x@ == e,
        },
{
    match parse_number(token) {
        Ok(()) => Ok(ScalarValue::FloatText(slice_to_vec(token))),
        Err(NumberTokenError::NotUtf8) => Err(malformed(line, text_of("value is not valid UTF-8"))),
        Err(NumberTokenError::Invalid) => {
            let mut s = text_of("invalid number \"");
            let shown = lossy(token);
            push_str(&mut s, shown.as_str());
            push_str(&mut s, "\"");
            assert(s@ =~= "invalid number \""@ + lossy_text(token@) + "\""@);
            Err(malformed(line, s))
        },
    }
}

/// Parse one three-token line into a point.
fn parse_point(tokens: &Vec<&[u8]>, line: usize) -> (res: Result<Point3, PathError>)
    requires
        tokens@.len() == 3,
    ensures
        match point_spec(slice_views(tokens@), line as nat) {
            Ok(m) => res matches Ok(p) && p@ == m,
            Err(e) => res matches Err(x) && x@ == e,
        },
{
    let ghost t = slice_views(tokens@);
    assert(t[0] == tokens@[0]@ && t[1] == tokens@[1]@ && t[2] == tokens@[2]@);
    let x = match parse_value(tokens[0], line) {
        Ok(v) => v,
        Err(e) => return Err(e),
    };
    let y = match parse_value(tokens[1], line) {
        Ok(v) => v,
        Err(e) => return Err(e),
    };
    let z = match parse_value(tokens[2], line) {
        Ok(v) => v,
        Err(e) => return Err(e),
    };
    Ok(Point3 { x, y, z })
}

/// Apply one physical line to the points parsed so far.
fn parse_line(line: &[u8], line_number: usize, points: &mut Vec<Point3>, title_seen: &mut bool) -> (res:
    Result<(), PathError>)
    ensures
        match xyz_step(
            XyzState { points: points_view(old(points)@), title_seen: *old(title_seen) },
            line@,
            line_number as nat,
        ) {
            Ok(s) => res is Ok && points_view(final(points)@) == s.points && *final(title_seen)
                == s.title_seen,
            Err(e) => res matches Err(x) && x@ == e,
        },
{
    reveal(xyz_step);
    let ghost prev = points_view(points@);
    let tokens = xyz_tokens(line);
    if tokens.len() == 0 || is_comment(&tokens) {
        return Ok(());
    }
    if !*title_seen {
        *title_seen = true;
        if !is_point_line(&tokens) {
            return Ok(());
        }
        match parse_point(&tokens, line_number) {
            Ok(p) => {
                points.push(p);
                assert(points_view(points@) =~= prev.push(p@));
                return Ok(());
            },
            Err(e) => return Err(e),
        }
    }
    if tokens.len() != 3 {
        let mut s = text_of("expected exactly 3 values, found ");
        push_decimal(&mut s, tokens.len() as u128);
        assert(s@ =~= "expected exactly 3 values, found "@ + decimal(tokens@.len() as nat));
        return Err(malformed(line_number, s));
    }
    match parse_point(&tokens, line_number) {
        Ok(p) => {
            points.push(p);
            assert(points_view(points@) =~= prev.push(p@));
            Ok(())
        },
        Err(e) => Err(e),
    }
}

/// Parse a whole XYZ/CSV file: count the points, check the capacity, then
/// parse and validate every line in file order.
pub fn parse_xyz(bytes: &[u8]) -> (res: Result<PathData, PathError>)
    ensures
        path_result_view(res) == parse_xyz_spec(bytes@),
        res matches Ok(d) ==> d.points@.len() == count_points_spec(bytes@),
{
    let ghost all = lines(bytes@);
    let total = bytes.len();
    let counted = count_points(bytes);
    let capacity = match checked_capacity(counted) {
        Ok(c) => c,
        Err(e) => return Err(e),
    };
    let mut points: Vec<Point3> = Vec::with_capacity(capacity);
    let mut title_seen = false;
    let mut it = LineIter::new(bytes);
    let mut offset: usize = 0;
    proof {
        lemma_lines_len(bytes@);
        assert(all.skip(0) =~= all);
        assert(all.take(0) =~= Seq::<Seq<u8>>::empty());
        assert(points_view(points@) =~= Seq::<Point3Model>::empty());
    }
    loop
        invariant
            all == lines(bytes@),
            all.len() <= total,
            total == bytes@.len(),
            offset <= all.len(),
            lines(it@) == all.skip(offset as int),
            capacity_spec(point_count_of(all)) is Ok,
            xyz_fold(all.take(offset as int)) == Ok::<XyzState, PathErrorModel>(
                XyzState { points: points_view(points@), title_seen },
            ),
        ensures
            xyz_fold(all) == Ok::<XyzState, PathErrorModel>(
                XyzState { points: points_view(points@), title_seen },
            ),
        decreases it@.len(),
    {
        let ghost before = it@;
        match it.next() {
            None => {
                assert(all.take(offset as int) =~= all);
                break ;
            },
            Some(line) => {
                proof {
                    lemma_lines_unfold(before);
                    lemma_after_first_line_shorter(before);
                    assert(lines(before).len() > 0);
                    assert(offset < all.len());
                    assert(all.skip(offset as int)[0] == all[offset as int]);
                    assert(all.skip(offset as int).drop_first() =~= all.skip(offset + 1));
                    assert(all.take(offset + 1).drop_last() =~= all.take(offset as int));
                    assert(all.take(offset + 1).last() == all[offset as int]);
                }
                let line_number = offset + 1;
                match parse_line(line, line_number, &mut points, &mut title_seen) {
                    Ok(()) => {},
                    Err(e) => {
                        proof {
                            lemma_xyz_fold_err(all, offset + 1);
                        }
                        return Err(e);
                    },
                }
                offset = offset + 1;
            },
        }
    }
    proof {
        law_fold_matches_count(all);
    }
    if points.len() < 2 {
        return Err(PathError::TooFewPoints { points: points.len() });
    }
    Ok(PathData { points })
}

/// The number of points the counting pass finds in a file.
pub open spec fn count_points_spec(bytes: Seq<u8>) -> nat {
    point_count_of(lines(bytes))
}

} // verus!
