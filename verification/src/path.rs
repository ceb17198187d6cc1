//! The syntactic model of a type path.
//!
//! A type path is a non-empty sequence of named segments separated by `::`,
//! optionally preceded by a leading `::` qualifier. Each segment may carry an
//! angle-bracketed generic-argument list; the list is kept as its raw byte
//! text, together with a flag telling whether it was written in turbofish
//! form (`Name::<...>`) or plain form (`Name<...>`).

use vstd::prelude::*;

verus! {

/// The generic-argument list of one segment, as raw text.
#[derive(Debug, Clone, PartialEq, Eq)]
pub struct GenericArgs {
    /// True when the list was written `Name::<...>`, false for `Name<...>`.
    pub turbofish: bool,
    /// The bytes between the outermost `<` and `>`, verbatim.
    pub inner: Vec<u8>,
}

/// One segment of a type path: an identifier and its optional arguments.
#[derive(Debug, Clone, PartialEq, Eq)]
pub struct PathSegment {
    pub name: Vec<u8>,
    pub args: Option<GenericArgs>,
}

/// A type path: an optional leading `::` and at least one segment.
#[derive(Debug, Clone, PartialEq, Eq)]
pub struct TypePath {
    pub leading_colon: bool,
    pub segments: Vec<PathSegment>,
}

/// Mathematical image of `GenericArgs`.
#[verifier::ext_equal]
pub ghost struct ArgsView {
    pub turbofish: bool,
    pub inner: Seq<u8>,
}

/// Mathematical image of `PathSegment`.
#[verifier::ext_equal]
pub ghost struct SegView {
    pub name: Seq<u8>,
    pub args: Option<ArgsView>,
}

/// Mathematical image of `TypePath`.
#[verifier::ext_equal]
pub ghost struct PathView {
    pub leading_colon: bool,
    pub segments: Seq<SegView>,
}

impl View for GenericArgs {
    type V = ArgsView;

    open spec fn view(&self) -> ArgsView {
        ArgsView { turbofish: self.turbofish, inner: self.inner@ }
    }
}

impl View for PathSegment {
    type V = SegView;

    open spec fn view(&self) -> SegView {
        SegView {
            name: self.name@,
            args: match self.args {
                Option::Some(a) => Option::Some(a@),
                Option::None => Option::None,
            },
        }
    }
}

/// The views of a sequence of segments, element by element.
pub open spec fn segs_view(v: Seq<PathSegment>) -> Seq<SegView> {
    Seq::new(v.len(), |i: int| v[i]@)
}

impl View for TypePath {
    type V = PathView;

    open spec fn view(&self) -> PathView {
        PathView { leading_colon: self.leading_colon, segments: segs_view(self.segments@) }
    }
}

impl PathView {
    /// A path is well formed when it has at least one segment.
    pub open spec fn wf(self) -> bool {
        self.segments.len() >= 1
    }
}

impl TypePath {
    /// A path is well formed when it has at least one segment.
    pub open spec fn wf(&self) -> bool {
        self@.wf()
    }
}

} // verus!
