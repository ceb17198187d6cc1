//! Parsing type-path text.
//!
//! The grammar, over bytes, with ASCII whitespace allowed between tokens:
//!
//! ```text
//! path     := ("::")? segment ("::" segment)*
//! segment  := ident args?
//! args     := "<" inner ">" | "::" "<" inner ">"
//! ident    := [A-Za-z_][A-Za-z0-9_]*
//! ```
//!
//! `inner` is any run of bytes in which the angle brackets are balanced; it
//! is kept verbatim. The two colons of a `::` must be adjacent, as they are
//! in a token stream. The whole input must be consumed.
//!
//! The functional specification is `spec_parse_path`; the executable parser
//! returns exactly its result, and an input is rejected if and only if that
//! specification has no parse for it.

use vstd::prelude::*;
use crate::path::{ArgsView, SegView, PathView, GenericArgs, PathSegment, TypePath, segs_view};
use crate::bytes::copy_range;

verus! {

/// The one way a rewrite can fail: the input is not a type path.
#[derive(Debug, Clone, Copy, PartialEq, Eq)]
pub enum PathError {
    MalformedPath,
}

/// ASCII whitespace.
pub open spec fn is_ws(c: u8) -> bool {
    c == 32 || c == 9 || c == 10 || c == 13
}

/// A byte that can begin an identifier.
pub open spec fn is_ident_start(c: u8) -> bool {
    (65 <= c && c <= 90) || (97 <= c && c <= 122) || c == 95
}

/// A byte that can continue an identifier.
pub open spec fn is_ident_cont(c: u8) -> bool {
    is_ident_start(c) || (48 <= c && c <= 57)
}

/// The first position at or after `i` holding a byte that is not whitespace,
/// or the end of the text.
pub open spec fn skip_ws(s: Seq<u8>, i: int) -> int
    decreases s.len() - i,
{
    if 0 <= i && i < s.len() && is_ws(s[i]) {
        skip_ws(s, i + 1)
    } else {
        i
    }
}

/// The first position at or after `i` holding a byte that cannot continue an
/// identifier, or the end of the text.
pub open spec fn ident_end(s: Seq<u8>, i: int) -> int
    decreases s.len() - i,
{
    if 0 <= i && i < s.len() && is_ident_cont(s[i]) {
        ident_end(s, i + 1)
    } else {
        i
    }
}

/// The position of the `>` that closes `depth` open angle brackets, scanning
/// from `i`, or nothing if the brackets never close.
pub open spec fn angle_close(s: Seq<u8>, i: int, depth: nat) -> Option<int>
    decreases s.len() - i,
{
    if 0 <= i && i < s.len() {
        if s[i] == 60 {
            angle_close(s, i + 1, depth + 1)
        } else if s[i] == 62 {
            if depth == 1 {
                Option::Some(i)
            } else {
                angle_close(s, i + 1, (depth - 1) as nat)
            }
        } else {
            angle_close(s, i + 1, depth)
        }
    } else {
        Option::None
    }
}

/// One parsed segment, the position where parsing continues, and whether a
/// further segment is expected there.
pub open spec fn spec_step(s: Seq<u8>, i: int) -> Option<(SegView, int, bool)> {
    if !(0 <= i && i < s.len() && is_ident_start(s[i])) {
        Option::None
    } else {
        let e = ident_end(s, i);
        let name = s.subrange(i, e);
        let j = skip_ws(s, e);
        if j == s.len() {
            Option::Some((SegView { name, args: Option::None }, j, false))
        } else if s[j] == 60 {
            match angle_close(s, j + 1, 1) {
                Option::None => Option::None,
                Option::Some(g) => step_after_args(
                    s,
                    SegView {
                        name,
                        args: Option::Some(ArgsView { turbofish: false, inner: s.subrange(j + 1, g) }),
                    },
                    g + 1,
                ),
            }
        } else if j + 2 <= s.len() && s[j] == 58 && s[j + 1] == 58 {
            let m = skip_ws(s, j + 2);
            if m < s.len() && s[m] == 60 {
                match angle_close(s, m + 1, 1) {
                    Option::None => Option::None,
                    Option::Some(g) => step_after_args(
                        s,
                        SegView {
                            name,
                            args: Option::Some(ArgsView { turbofish: true, inner: s.subrange(m + 1, g) }),
                        },
                        g + 1,
                    ),
                }
            } else {
                Option::Some((SegView { name, args: Option::None }, m, true))
            }
        } else {
            Option::None
        }
    }
}

/// What may follow a segment's argument list: the end of the text, or a `::`
/// and a further segment.
pub open spec fn step_after_args(s: Seq<u8>, seg: SegView, i: int) -> Option<(SegView, int, bool)> {
    let k = skip_ws(s, i);
    if k == s.len() {
        Option::Some((seg, k, false))
    } else if k + 2 <= s.len() && s[k] == 58 && s[k + 1] == 58 {
        Option::Some((seg, skip_ws(s, k + 2), true))
    } else {
        Option::None
    }
}

pub proof fn lemma_skip_ws_bounds(s: Seq<u8>, i: int)
    requires
        0 <= i <= s.len(),
    ensures
        i <= skip_ws(s, i) <= s.len(),
    decreases s.len() - i,
{
    if i < s.len() && is_ws(s[i]) {
        lemma_skip_ws_bounds(s, i + 1);
    }
}

pub proof fn lemma_ident_end_bounds(s: Seq<u8>, i: int)
    requires
        0 <= i <= s.len(),
    ensures
        i <= ident_end(s, i) <= s.len(),
    decreases s.len() - i,
{
    if i < s.len() && is_ident_cont(s[i]) {
        lemma_ident_end_bounds(s, i + 1);
    }
}

pub proof fn lemma_angle_close_bounds(s: Seq<u8>, i: int, depth: nat)
    requires
        0 <= i <= s.len(),
    ensures
        match angle_close(s, i, depth) {
            Option::Some(g) => i <= g < s.len() && s[g] == 62,
            Option::None => true,
        },
    decreases s.len() - i,
{
    if 0 <= i && i < s.len() {
        if s[i] == 60 {
            lemma_angle_close_bounds(s, i + 1, depth + 1);
        } else if s[i] == 62 {
            if depth != 1 {
                lemma_angle_close_bounds(s, i + 1, (depth - 1) as nat);
            }
        } else {
            lemma_angle_close_bounds(s, i + 1, depth);
        }
    }
}

/// A successful step always moves forward and never past the end.
pub proof fn lemma_spec_step_bounds(s: Seq<u8>, i: int)
    ensures
        match spec_step(s, i) {
            Option::Some(t) => i < t.1 <= s.len(),
            Option::None => true,
        },
{
    if 0 <= i && i < s.len() && is_ident_start(s[i]) {
        let e = ident_end(s, i);
        assert(ident_end(s, i) == ident_end(s, i + 1));
        lemma_ident_end_bounds(s, i + 1);
        lemma_skip_ws_bounds(s, e);
        let j = skip_ws(s, e);
        if j == s.len() {
        } else if s[j] == 60 {
            lemma_angle_close_bounds(s, j + 1, 1);
            match angle_close(s, j + 1, 1) {
                Option::Some(g) => {
                    lemma_step_after_args_bounds(s, g + 1);
                },
                Option::None => {},
            }
        } else if j + 2 <= s.len() && s[j] == 58 && s[j + 1] == 58 {
            lemma_skip_ws_bounds(s, j + 2);
            let m = skip_ws(s, j + 2);
            if m < s.len() && s[m] == 60 {
                lemma_angle_close_bounds(s, m + 1, 1);
                match angle_close(s, m + 1, 1) {
                    Option::Some(g) => {
                        lemma_step_after_args_bounds(s, g + 1);
                    },
                    Option::None => {},
                }
            }
        }
    }
}

proof fn lemma_step_after_args_bounds(s: Seq<u8>, i: int)
    requires
        0 <= i <= s.len(),
    ensures
        forall|seg: SegView|
            match #[trigger] step_after_args(s, seg, i) {
                Option::Some(t) => i <= t.1 <= s.len(),
                Option::None => true,
            },
{
    lemma_skip_ws_bounds(s, i);
    let k = skip_ws(s, i);
    if k + 2 <= s.len() && k < s.len() && s[k] == 58 && s[k + 1] == 58 {
        lemma_skip_ws_bounds(s, k + 2);
    }
}

/// The segments parsed from position `i` to the end of the text.
pub open spec fn spec_segments(s: Seq<u8>, i: int) -> Option<Seq<SegView>>
    decreases s.len() - i,
    via spec_segments_decreases
{
    match spec_step(s, i) {
        Option::None => Option::None,
        Option::Some(t) => {
            if !t.2 {
                Option::Some(seq![t.0])
            } else {
                match spec_segments(s, t.1) {
                    Option::None => Option::None,
                    Option::Some(rest) => Option::Some(seq![t.0] + rest),
                }
            }
        },
    }
}

#[via_fn]
proof fn spec_segments_decreases(s: Seq<u8>, i: int) {
    lemma_spec_step_bounds(s, i);
}

/// The parse of the whole text: the optional leading `::`, then segments up
/// to the end. The parse is `None` exactly when the text is not a type path.
pub open spec fn spec_parse_path(s: Seq<u8>) -> Option<PathView> {
    let i = skip_ws(s, 0);
    if i + 2 <= s.len() && s[i] == 58 && s[i + 1] == 58 {
        match spec_segments(s, skip_ws(s, i + 2)) {
            Option::None => Option::None,
            Option::Some(segs) => Option::Some(PathView { leading_colon: true, segments: segs }),
        }
    } else {
        match spec_segments(s, i) {
            Option::None => Option::None,
            Option::Some(segs) => Option::Some(PathView { leading_colon: false, segments: segs }),
        }
    }
}

fn is_ident_start_byte(c: u8) -> (r: bool)
    ensures
        r == is_ident_start(c),
{
    (65 <= c && c <= 90) || (97 <= c && c <= 122) || c == 95
}

fn is_ident_cont_byte(c: u8) -> (r: bool)
    ensures
        r == is_ident_cont(c),
{
    is_ident_start_byte(c) || (48 <= c && c <= 57)
}

fn skip_ws_x(s: &[u8], i: usize) -> (r: usize)
    requires
        i <= s@.len(),
    ensures
        r == skip_ws(s@, i as int),
        i <= r <= s@.len(),
{
    let mut j = i;
    loop
        invariant
            i <= j <= s@.len(),
            skip_ws(s@, i as int) == skip_ws(s@, j as int),
        decreases s@.len() - j,
    {
        if j < s.len() {
            let c = s[j];
            if c == 32 || c == 9 || c == 10 || c == 13 {
                j = j + 1;
                continue;
            }
        }
        proof {
            assert(skip_ws(s@, j as int) == j);
        }
        return j;
    }
}

fn ident_end_x(s: &[u8], i: usize) -> (r: usize)
    requires
        i <= s@.len(),
    ensures
        r == ident_end(s@, i as int),
        i <= r <= s@.len(),
{
    let mut j = i;
    loop
        invariant
            i <= j <= s@.len(),
            ident_end(s@, i as int) == ident_end(s@, j as int),
        decreases s@.len() - j,
    {
        if j < s.len() && is_ident_cont_byte(s[j]) {
            j = j + 1;
        } else {
            proof {
                assert(ident_end(s@, j as int) == j);
            }
            return j;
        }
    }
}

fn angle_close_x(s: &[u8], i: usize) -> (r: Option<usize>)
    requires
        i <= s@.len(),
    ensures
        match r {
            Option::Some(g) => angle_close(s@, i as int, 1) == Option::Some(g as int)
                && i <= g < s@.len(),
            Option::None => angle_close(s@, i as int, 1) is None,
        },
{
    let mut j = i;
    let mut depth: u128 = 1;
    loop
        invariant
            i <= j <= s@.len(),
            1 <= depth <= j - i + 1,
            angle_close(s@, i as int, 1) == angle_close(s@, j as int, depth as nat),
        decreases s@.len() - j,
    {
        if j == s.len() {
            return Option::None;
        }
        let c = s[j];
        if c == 60 {
            depth = depth + 1;
            j = j + 1;
        } else if c == 62 {
            if depth == 1 {
                return Option::Some(j);
            }
            depth = depth - 1;
            j = j + 1;
        } else {
            j = j + 1;
        }
    }
}

/// Parses one segment at `i` and reports where to continue, mirroring
/// `spec_step` exactly.
fn seg_step(input: &[u8], i: usize) -> (r: Result<(PathSegment, usize, bool), PathError>)
    requires
        i <= input@.len(),
    ensures
        match r {
            Result::Ok(t) => spec_step(input@, i as int) == Option::Some((t.0@, t.1 as int, t.2))
                && t.1 <= input@.len(),
            Result::Err(e) => spec_step(input@, i as int) is None && e == PathError::MalformedPath,
        },
{
    if i == input.len() || !is_ident_start_byte(input[i]) {
        return Result::Err(PathError::MalformedPath);
    }
    let e = ident_end_x(input, i);
    let name = copy_range(input, i, e);
    let j = skip_ws_x(input, e);
    if j == input.len() {
        return Result::Ok((PathSegment { name, args: Option::None }, j, false));
    }
    let cj = input[j];
    if cj == 60 {
        match angle_close_x(input, j + 1) {
            Option::None => Result::Err(PathError::MalformedPath),
            Option::Some(g) => {
                let inner = copy_range(input, j + 1, g);
                let seg = PathSegment {
                    name,
                    args: Option::Some(GenericArgs { turbofish: false, inner }),
                };
                after_args(input, seg, g + 1)
            },
        }
    } else if cj == 58 && j + 1 < input.len() && input[j + 1] == 58 {
        let m = skip_ws_x(input, j + 2);
        if m < input.len() && input[m] == 60 {
            match angle_close_x(input, m + 1) {
                Option::None => Result::Err(PathError::MalformedPath),
                Option::Some(g) => {
                    let inner = copy_range(input, m + 1, g);
                    let seg = PathSegment {
                        name,
                        args: Option::Some(GenericArgs { turbofish: true, inner }),
                    };
                    after_args(input, seg, g + 1)
                },
            }
        } else {
            Result::Ok((PathSegment { name, args: Option::None }, m, true))
        }
    } else {
        Result::Err(PathError::MalformedPath)
    }
}

/// Consumes what may follow a segment's argument list, mirroring
/// `step_after_args` exactly.
fn after_args(input: &[u8], seg: PathSegment, i: usize) -> (r: Result<(PathSegment, usize, bool), PathError>)
    requires
        i <= input@.len(),
    ensures
        match r {
            Result::Ok(t) => step_after_args(input@, seg@, i as int)
                == Option::Some((t.0@, t.1 as int, t.2)) && t.1 <= input@.len(),
            Result::Err(e) => step_after_args(input@, seg@, i as int) is None
                && e == PathError::MalformedPath,
        },
{
    let k = skip_ws_x(input, i);
    if k == input.len() {
        return Result::Ok((seg, k, false));
    }
    if input[k] == 58 && k + 1 < input.len() && input[k + 1] == 58 {
        let m = skip_ws_x(input, k + 2);
        return Result::Ok((seg, m, true));
    }
    Result::Err(PathError::MalformedPath)
}

/// Parses the text of a type path.
///
/// The result is `Ok` exactly when the text matches the grammar, and the
/// returned path is then the grammar's one parse of it.
pub fn parse_type_path(input: &[u8]) -> (r: Result<TypePath, PathError>)
    ensures
        match r {
            Result::Ok(p) => spec_parse_path(input@) == Option::Some(p@) && p.wf(),
            Result::Err(e) => spec_parse_path(input@) is None && e == PathError::MalformedPath,
        },
{
    let ghost s = input@;
    let mut i: usize = skip_ws_x(input, 0);
    let mut leading: bool = false;
    if i < input.len() && input[i] == 58 && i + 1 < input.len() && input[i + 1] == 58 {
        leading = true;
        i = skip_ws_x(input, i + 2);
    }
    let mut segments: Vec<PathSegment> = Vec::new();
    proof {
        if let Option::Some(rest) = spec_segments(s, i as int) {
            assert(segs_view(segments@) + rest =~= rest);
        }
    }
    loop
        invariant
            i <= s.len(),
            input@ == s,
            spec_parse_path(s) == (match spec_segments(s, i as int) {
                Option::None => Option::<PathView>::None,
                Option::Some(rest) => Option::Some(
                    PathView { leading_colon: leading, segments: segs_view(segments@) + rest },
                ),
            }),
        decreases s.len() - i,
    {
        match seg_step(input, i) {
            Result::Err(e) => {
                return Result::Err(e);
            },
            Result::Ok((seg, next, more)) => {
                proof {
                    lemma_spec_step_bounds(s, i as int);
                }
                let ghost segv = seg@;
                let ghost old_segs = segments@;
                segments.push(seg);
                proof {
                    assert(segs_view(segments@) =~= segs_view(old_segs).push(segv));
                }
                if !more {
                    proof {
                        assert(spec_segments(s, i as int) == Option::Some(seq![segv]));
                        assert(segs_view(old_segs) + seq![segv] =~= segs_view(old_segs).push(segv));
                    }
                    let p = TypePath { leading_colon: leading, segments };
                    proof {
                        assert(spec_parse_path(s) == Option::Some(p@));
                    }
                    return Result::Ok(p);
                }
                proof {
                    if let Option::Some(rest) = spec_segments(s, next as int) {
                        assert(spec_segments(s, i as int) == Option::Some(seq![segv] + rest));
                        assert(segs_view(old_segs) + (seq![segv] + rest)
                            =~= segs_view(old_segs).push(segv) + rest);
                    } else {
                        assert(spec_segments(s, i as int) is None);
                    }
                }
                i = next;
            },
        }
    }
}

} // verus!
