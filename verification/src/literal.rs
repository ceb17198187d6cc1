//! Byte strings as string-literal text.
//!
//! The generated const argument is a string literal whose value is the
//! position text. Inside the literal, `"` and `\` are escaped with a
//! backslash; `quoted` is the literal's full text including the surrounding
//! quotes. Distinct values give distinct literals, which
//! `lemma_quoted_injective` proves.

use vstd::prelude::*;

verus! {

/// The literal text of one byte of the value.
pub open spec fn esc_byte(c: u8) -> Seq<u8> {
    if c == 34 || c == 92 {
        seq![92u8, c]
    } else {
        seq![c]
    }
}

/// The literal text of the first `n` bytes of `s`.
pub open spec fn esc_upto(s: Seq<u8>, n: int) -> Seq<u8>
    decreases n,
{
    if n <= 0 {
        Seq::empty()
    } else {
        esc_upto(s, n - 1) + esc_byte(s[n - 1])
    }
}

/// The escaped text of the whole of `s`.
pub open spec fn escaped(s: Seq<u8>) -> Seq<u8> {
    esc_upto(s, s.len() as int)
}

/// The full text of the string literal with value `s`.
pub open spec fn quoted(s: Seq<u8>) -> Seq<u8> {
    seq![34u8] + escaped(s) + seq![34u8]
}

/// Builds the string literal with value `s`.
pub fn quote_bytes(s: &[u8]) -> (out: Vec<u8>)
    ensures
        out@ == quoted(s@),
{
    let mut out: Vec<u8> = Vec::new();
    out.push(34);
    let mut i: usize = 0;
    while i < s.len()
        invariant
            i <= s@.len(),
            out@ == seq![34u8] + esc_upto(s@, i as int),
        decreases s@.len() - i,
    {
        let c = s[i];
        if c == 34 || c == 92 {
            out.push(92);
        }
        out.push(c);
        proof {
            assert(out@ =~= seq![34u8] + esc_upto(s@, i + 1 as int));
        }
        i = i + 1;
    }
    out.push(34);
    proof {
        assert(out@ =~= quoted(s@));
    }
    out
}

/// `esc_upto` only reads the first `n` bytes.
pub proof fn lemma_esc_upto_agrees(a: Seq<u8>, b: Seq<u8>, n: int)
    requires
        0 <= n <= a.len(),
        n <= b.len(),
        forall|i: int| 0 <= i < n ==> a[i] == b[i],
    ensures
        esc_upto(a, n) == esc_upto(b, n),
    decreases n,
{
    if n > 0 {
        lemma_esc_upto_agrees(a, b, n - 1);
    }
}

/// The escaped text is at least as long as the value.
pub proof fn lemma_esc_upto_len(s: Seq<u8>, n: int)
    requires
        0 <= n <= s.len(),
    ensures
        esc_upto(s, n).len() >= n,
    decreases n,
{
    if n > 0 {
        lemma_esc_upto_len(s, n - 1);
    }
}

/// Distinct values have distinct escaped texts.
pub proof fn lemma_escaped_injective(a: Seq<u8>, b: Seq<u8>)
    requires
        escaped(a) == escaped(b),
    ensures
        a == b,
    decreases a.len() + b.len(),
{
    lemma_esc_upto_len(a, a.len() as int);
    lemma_esc_upto_len(b, b.len() as int);
    if a.len() == 0 {
        assert(escaped(a).len() == 0);
        assert(b.len() == 0);
        assert(a =~= b);
    } else if b.len() == 0 {
        assert(escaped(b).len() == 0);
        assert(a.len() == 0);
    } else {
        let ca = a.last();
        let cb = b.last();
        let ea = esc_upto(a, a.len() - 1);
        let eb = esc_upto(b, b.len() - 1);
        assert(escaped(a) == ea + esc_byte(ca));
        assert(escaped(b) == eb + esc_byte(cb));
        assert(escaped(a).last() == ca);
        assert(escaped(b).last() == cb);
        assert(ca == cb);
        assert(esc_byte(ca).len() == esc_byte(cb).len());
        assert(ea.len() == eb.len());
        assert(ea =~= (ea + esc_byte(ca)).subrange(0, ea.len() as int));
        assert(eb =~= (eb + esc_byte(cb)).subrange(0, eb.len() as int));
        let a1 = a.drop_last();
        let b1 = b.drop_last();
        lemma_esc_upto_agrees(a, a1, a.len() - 1);
        lemma_esc_upto_agrees(b, b1, b.len() - 1);
        assert(escaped(a1) == ea);
        assert(escaped(b1) == eb);
        lemma_escaped_injective(a1, b1);
        assert(a =~= a1.push(ca));
        assert(b =~= b1.push(cb));
    }
}

/// Distinct values have distinct literals.
pub proof fn lemma_quoted_injective(a: Seq<u8>, b: Seq<u8>)
    requires
        quoted(a) == quoted(b),
    ensures
        a == b,
{
    let qa = quoted(a);
    let qb = quoted(b);
    assert(escaped(a) =~= qa.subrange(1, qa.len() - 1));
    assert(escaped(b) =~= qb.subrange(1, qb.len() - 1));
    lemma_escaped_injective(a, b);
}

} // verus!
