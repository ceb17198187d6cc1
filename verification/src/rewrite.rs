//! The rewrite itself: replacing the last segment's arguments with the one
//! generated const string argument, and the whole transform from path text
//! and position to rewritten text.

use vstd::prelude::*;
use crate::path::{ArgsView, SegView, PathView, GenericArgs, PathSegment, TypePath, segs_view};
use crate::literal::{quoted, quote_bytes};
use crate::location::{loc_view, location_bytes};
use crate::parse::{PathError, spec_parse_path, parse_type_path};
use crate::render::{render_path, render_type_path};

verus! {

/// The argument list generated for a position text: one const string
/// argument in turbofish form.
pub open spec fn located_args(loc: Seq<u8>) -> ArgsView {
    ArgsView { turbofish: true, inner: quoted(loc) }
}

/// The path with its last segment's arguments replaced by the generated
/// const string argument; everything else is unchanged.
pub open spec fn rewritten(p: PathView, loc: Seq<u8>) -> PathView
    recommends
        p.wf(),
{
    PathView {
        leading_colon: p.leading_colon,
        segments: p.segments.update(
            p.segments.len() - 1,
            SegView { name: p.segments.last().name, args: Option::Some(located_args(loc)) },
        ),
    }
}

/// Replaces the last segment's arguments with the const string argument
/// holding `loc`.
pub fn with_location(path: TypePath, loc: &[u8]) -> (out: TypePath)
    requires
        path.wf(),
    ensures
        out@ == rewritten(path@, loc@),
        out.wf(),
{
    let ghost old_view = path@;
    let mut segments = path.segments;
    let last = segments.pop().unwrap();
    let args = GenericArgs { turbofish: true, inner: quote_bytes(loc) };
    let replaced = PathSegment { name: last.name, args: Option::Some(args) };
    let ghost replaced_view = replaced@;
    segments.push(replaced);
    let out = TypePath { leading_colon: path.leading_colon, segments };
    proof {
        assert(segs_view(out.segments@)
            =~= old_view.segments.update(old_view.segments.len() - 1, replaced_view));
        assert(replaced_view == SegView {
            name: old_view.segments.last().name,
            args: Option::Some(located_args(loc@)),
        });
    }
    out
}

/// The text that the whole transform produces for a parsed path and a
/// position.
pub open spec fn expansion(p: PathView, file: Seq<u8>, line: u32, col: u32) -> Seq<u8> {
    render_path(rewritten(p, loc_view(file, line, col)))
}

/// The whole transform: parses `item` as a type path and renders it again
/// with `"file:line:col"` as the sole generic argument of its last segment.
///
/// Returns an error exactly when `item` is not a type path; nothing is
/// produced then.
pub fn source_line(item: &[u8], file: &[u8], line: u32, column: u32) -> (r: Result<
    Vec<u8>,
    PathError,
>)
    ensures
        match r {
            Result::Ok(out) => spec_parse_path(item@) matches Option::Some(p)
                && out@ == expansion(p, file@, line, column),
            Result::Err(e) => spec_parse_path(item@) is None && e == PathError::MalformedPath,
        },
{
    let path = match parse_type_path(item) {
        Result::Ok(p) => p,
        Result::Err(e) => {
            return Result::Err(e);
        },
    };
    let loc = location_bytes(file, line, column);
    let placed = with_location(path, loc.as_slice());
    Result::Ok(render_type_path(&placed))
}

} // verus!
