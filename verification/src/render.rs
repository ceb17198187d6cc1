//! Rendering a type path back to text.
//!
//! The renderer is exact: the text of a path is the leading `::` if present,
//! then the segments joined by `::`, each segment being its name followed by
//! its argument list — `::<inner>` in turbofish form, `<inner>` in plain
//! form — with the inner text verbatim.

use vstd::prelude::*;
use crate::path::{ArgsView, SegView, PathView, TypePath, segs_view};
use crate::bytes::append_bytes;

verus! {

/// The text of one argument list.
pub open spec fn render_args(a: ArgsView) -> Seq<u8> {
    (if a.turbofish {
        seq![58u8, 58u8]
    } else {
        Seq::<u8>::empty()
    }) + seq![60u8] + a.inner + seq![62u8]
}

/// The text of one segment.
pub open spec fn render_seg(g: SegView) -> Seq<u8> {
    g.name + (match g.args {
        Option::Some(a) => render_args(a),
        Option::None => Seq::<u8>::empty(),
    })
}

/// The text of the first `n` segments, joined by `::`.
pub open spec fn render_upto(segs: Seq<SegView>, n: int) -> Seq<u8>
    decreases n,
{
    if n <= 0 {
        Seq::empty()
    } else if n == 1 {
        render_seg(segs[0])
    } else {
        render_upto(segs, n - 1) + seq![58u8, 58u8] + render_seg(segs[n - 1])
    }
}

/// The full text of a path.
pub open spec fn render_path(p: PathView) -> Seq<u8> {
    (if p.leading_colon {
        seq![58u8, 58u8]
    } else {
        Seq::<u8>::empty()
    }) + render_upto(p.segments, p.segments.len() as int)
}

/// Renders a path to its text.
pub fn render_type_path(path: &TypePath) -> (out: Vec<u8>)
    ensures
        out@ == render_path(path@),
{
    let ghost segs = segs_view(path.segments@);
    let mut out: Vec<u8> = Vec::new();
    if path.leading_colon {
        out.push(58);
        out.push(58);
    }
    let ghost lead = out@;
    let mut k: usize = 0;
    while k < path.segments.len()
        invariant
            k <= path.segments@.len(),
            segs == segs_view(path.segments@),
            lead == (if path@.leading_colon {
                seq![58u8, 58u8]
            } else {
                Seq::<u8>::empty()
            }),
            out@ == lead + render_upto(segs, k as int),
        decreases path.segments@.len() - k,
    {
        if k > 0 {
            out.push(58);
            out.push(58);
        }
        let ghost sep_done = out@;
        proof {
            if k > 0 {
                assert(sep_done =~= lead + render_upto(segs, k as int) + seq![58u8, 58u8]);
            }
        }
        let seg = &path.segments[k];
        proof {
            assert(seg@ == segs[k as int]);
        }
        append_bytes(&mut out, seg.name.as_slice());
        match &seg.args {
            Option::Some(a) => {
                if a.turbofish {
                    out.push(58);
                    out.push(58);
                }
                out.push(60);
                append_bytes(&mut out, a.inner.as_slice());
                out.push(62);
                proof {
                    assert(render_seg(seg@) == seg@.name + render_args(a@));
                    assert(out@ =~= sep_done + render_seg(seg@));
                }
            },
            Option::None => {
                proof {
                    assert(render_seg(seg@) == seg@.name + Seq::<u8>::empty());
                    assert(out@ =~= sep_done + render_seg(seg@));
                }
            },
        }
        proof {
            if k == 0 {
                assert(render_upto(segs, 1) == render_seg(segs[0]));
                assert(out@ =~= lead + render_upto(segs, k + 1 as int));
            } else {
                assert(render_upto(segs, k + 1 as int)
                    == render_upto(segs, k as int) + seq![58u8, 58u8] + render_seg(segs[k as int]));
                assert(out@ =~= lead + render_upto(segs, k + 1 as int));
            }
        }
        k = k + 1;
    }
    proof {
        assert(out@ =~= render_path(path@));
    }
    out
}

} // verus!
