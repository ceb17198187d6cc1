//! The library's laws: what the rewrite guarantees across functions, proved
//! once and for all inputs.

use vstd::prelude::*;
use crate::path::{SegView, PathView};
use crate::literal::{quoted, lemma_quoted_injective};
use crate::location::{loc_view, lemma_location_injective};
use crate::render::{render_args, render_seg, render_upto, render_path};
use crate::rewrite::{located_args, rewritten, expansion};

verus! {

/// `render_upto` reads only the first `n` segments.
proof fn lemma_render_upto_agrees(a: Seq<SegView>, b: Seq<SegView>, n: int)
    requires
        0 <= n <= a.len(),
        n <= b.len(),
        forall|i: int| 0 <= i < n ==> a[i] == b[i],
    ensures
        render_upto(a, n) == render_upto(b, n),
    decreases n,
{
    if n > 1 {
        lemma_render_upto_agrees(a, b, n - 1);
    }
}

/// Equal texts with an equal prefix agree after it.
proof fn lemma_cancel_prefix(a: Seq<u8>, x: Seq<u8>, y: Seq<u8>)
    requires
        a + x == a + y,
    ensures
        x == y,
{
    assert((a + x).len() == a.len() + x.len());
    assert((a + y).len() == a.len() + y.len());
    assert(x.len() == y.len());
    assert(forall|i: int| 0 <= i < x.len() ==> #[trigger] x[i] == (a + x)[a.len() + i]);
    assert(forall|i: int| 0 <= i < y.len() ==> #[trigger] y[i] == (a + y)[a.len() + i]);
    assert(x =~= y);
}

/// Equal texts with an equal suffix agree before it.
proof fn lemma_cancel_suffix(x: Seq<u8>, y: Seq<u8>, t: Seq<u8>)
    requires
        x + t == y + t,
    ensures
        x == y,
{
    assert((x + t).len() == x.len() + t.len());
    assert((y + t).len() == y.len() + t.len());
    assert(x.len() == y.len());
    assert(forall|i: int| 0 <= i < x.len() ==> #[trigger] x[i] == (x + t)[i]);
    assert(forall|i: int| 0 <= i < y.len() ==> #[trigger] y[i] == (y + t)[i]);
    assert(x =~= y);
}

/// Law: on a path whose last segment carries no generic arguments, the
/// transform appends and changes nothing else — the produced text is the
/// path's own text followed by `::<` + the position's string literal + `>`.
pub proof fn law_appends_const_arg(p: PathView, file: Seq<u8>, line: u32, col: u32)
    requires
        p.wf(),
        p.segments.last().args is None,
    ensures
        expansion(p, file, line, col) == render_path(p) + seq![58u8, 58u8, 60u8] + quoted(
            loc_view(file, line, col),
        ) + seq![62u8],
{
    let loc = loc_view(file, line, col);
    let q = rewritten(p, loc);
    let n = p.segments.len() as int;
    let last = SegView { name: p.segments.last().name, args: Option::Some(located_args(loc)) };
    assert(q.segments[n - 1] == last);
    let tail = seq![58u8, 58u8, 60u8] + quoted(loc) + seq![62u8];
    assert(render_seg(last) =~= render_seg(p.segments.last()) + tail);
    if n == 1 {
        assert(render_upto(q.segments, 1) == render_seg(q.segments[0]));
        assert(render_upto(p.segments, 1) == render_seg(p.segments[0]));
        assert(expansion(p, file, line, col) =~= render_path(p) + seq![58u8, 58u8, 60u8] + quoted(
            loc,
        ) + seq![62u8]);
    } else {
        lemma_render_upto_agrees(q.segments, p.segments, n - 1);
        assert(render_upto(q.segments, n) == render_upto(q.segments, n - 1) + seq![58u8, 58u8]
            + render_seg(q.segments[n - 1]));
        assert(render_upto(p.segments, n) == render_upto(p.segments, n - 1) + seq![58u8, 58u8]
            + render_seg(p.segments[n - 1]));
        assert(expansion(p, file, line, col) =~= render_path(p) + seq![58u8, 58u8, 60u8] + quoted(
            loc,
        ) + seq![62u8]);
    }
}

/// Law: whatever arguments the last segment carried before, afterwards it
/// carries exactly the one generated const string argument, in turbofish
/// form; the other segments, the last segment's name and the leading
/// qualifier are untouched.
pub proof fn law_replaces_last_args(p: PathView, loc: Seq<u8>)
    requires
        p.wf(),
    ensures
        rewritten(p, loc).leading_colon == p.leading_colon,
        rewritten(p, loc).segments.len() == p.segments.len(),
        forall|i: int|
            0 <= i < p.segments.len() - 1 ==> #[trigger] rewritten(p, loc).segments[i]
                == p.segments[i],
        rewritten(p, loc).segments.last().name == p.segments.last().name,
        rewritten(p, loc).segments.last().args == Option::Some(located_args(loc)),
        located_args(loc).turbofish,
        located_args(loc).inner == quoted(loc),
{
}

/// Law: two invocation sites that differ in file, line or column produce
/// different texts, even for the same path — the rewrite is not idempotent
/// across sites, by design.
pub proof fn law_sites_distinguish(
    p: PathView,
    f1: Seq<u8>,
    l1: u32,
    c1: u32,
    f2: Seq<u8>,
    l2: u32,
    c2: u32,
)
    requires
        p.wf(),
        !(f1 == f2 && l1 == l2 && c1 == c2),
    ensures
        expansion(p, f1, l1, c1) != expansion(p, f2, l2, c2),
{
    if expansion(p, f1, l1, c1) == expansion(p, f2, l2, c2) {
        let loc1 = loc_view(f1, l1, c1);
        let loc2 = loc_view(f2, l2, c2);
        let q1 = rewritten(p, loc1);
        let q2 = rewritten(p, loc2);
        let n = p.segments.len() as int;
        let lead = if p.leading_colon {
            seq![58u8, 58u8]
        } else {
            Seq::<u8>::empty()
        };
        assert(q1.leading_colon == p.leading_colon && q2.leading_colon == p.leading_colon);
        lemma_cancel_prefix(lead, render_upto(q1.segments, n), render_upto(q2.segments, n));
        let s1 = render_seg(q1.segments[n - 1]);
        let s2 = render_seg(q2.segments[n - 1]);
        if n == 1 {
            assert(s1 == s2);
        } else {
            lemma_render_upto_agrees(q1.segments, q2.segments, n - 1);
            let c = render_upto(q1.segments, n - 1) + seq![58u8, 58u8];
            assert(render_upto(q1.segments, n) == render_upto(q1.segments, n - 1) + seq![
                58u8,
                58u8,
            ] + s1);
            assert(render_upto(q2.segments, n) == render_upto(q2.segments, n - 1) + seq![
                58u8,
                58u8,
            ] + s2);
            assert(c + s1 =~= render_upto(q1.segments, n));
            assert(c + s2 =~= render_upto(q2.segments, n));
            lemma_cancel_prefix(c, s1, s2);
        }
        let head = p.segments.last().name + seq![58u8, 58u8, 60u8];
        assert(s1 =~= head + (quoted(loc1) + seq![62u8]));
        assert(s2 =~= head + (quoted(loc2) + seq![62u8]));
        lemma_cancel_prefix(head, quoted(loc1) + seq![62u8], quoted(loc2) + seq![62u8]);
        lemma_cancel_suffix(quoted(loc1), quoted(loc2), seq![62u8]);
        lemma_quoted_injective(loc1, loc2);
        lemma_location_injective(f1, l1, c1, f2, l2, c2);
    }
}

} // verus!
