//! The invocation position and its textual form.
//!
//! A position is a file path (as bytes) together with a line and a column.
//! Its textual form is `file:line:col`, with the line and the column written
//! in decimal without leading zeros. Distinct positions always have distinct
//! texts, which `lemma_location_injective` proves.

use vstd::prelude::*;
use crate::bytes::append_bytes;

verus! {

/// The decimal digits of `n`, most significant first, without leading zeros.
pub open spec fn dec_rep(n: nat) -> Seq<u8>
    decreases n,
{
    if n < 10 {
        seq![(48 + n) as u8]
    } else {
        dec_rep(n / 10) + seq![(48 + n % 10) as u8]
    }
}

/// The text of the position `file:line:col`.
pub open spec fn loc_view(file: Seq<u8>, line: u32, col: u32) -> Seq<u8> {
    file + seq![58u8] + dec_rep(line as nat) + seq![58u8] + dec_rep(col as nat)
}

/// The decimal digits of `n`, as bytes.
pub fn u32_dec(n: u32) -> (out: Vec<u8>)
    ensures
        out@ == dec_rep(n as nat),
{
    let mut digits: Vec<u8> = Vec::new();
    let mut m: u32 = n;
    loop
        invariant_except_break
            m > 0 ==> dec_rep(n as nat) == dec_rep(m as nat) + digits@.reverse(),
            m == 0 ==> digits@.len() == 0 && n == 0,
        ensures
            dec_rep(n as nat) == digits@.reverse(),
            digits@.len() >= 1,
        decreases m,
    {
        let d: u8 = 48 + (m % 10) as u8;
        let next: u32 = m / 10;
        proof {
            if m >= 10 {
                assert(dec_rep(m as nat) == dec_rep((m as nat) / 10) + seq![(48 + (m as nat) % 10) as u8]);
            } else {
                assert(dec_rep(m as nat) == seq![(48 + (m as nat)) as u8]);
                assert(dec_rep(0nat) == seq![48u8]);
            }
            assert((digits@.push(d)).reverse() =~= seq![d] + digits@.reverse());
        }
        digits.push(d);
        m = next;
        if m == 0 {
            break;
        }
    }
    let mut out: Vec<u8> = Vec::new();
    let mut k: usize = digits.len();
    while k > 0
        invariant
            k <= digits@.len(),
            out@ == digits@.reverse().take(digits@.len() - k),
        decreases k,
    {
        k = k - 1;
        out.push(digits[k]);
        proof {
            assert(digits@.reverse().take(digits@.len() - k)
                =~= digits@.reverse().take(digits@.len() - (k + 1)).push(digits@[k as int]));
        }
    }
    proof {
        assert(digits@.reverse().take(digits@.len() as int) =~= digits@.reverse());
    }
    out
}

/// The text `file:line:col` of a position.
pub fn location_bytes(file: &[u8], line: u32, col: u32) -> (out: Vec<u8>)
    ensures
        out@ == loc_view(file@, line, col),
{
    let mut out: Vec<u8> = Vec::new();
    append_bytes(&mut out, file);
    out.push(58);
    let line_digits = u32_dec(line);
    append_bytes(&mut out, line_digits.as_slice());
    out.push(58);
    let col_digits = u32_dec(col);
    append_bytes(&mut out, col_digits.as_slice());
    proof {
        assert(out@ =~= loc_view(file@, line, col));
    }
    out
}

/// Every byte of a decimal representation is a digit, and there is at
/// least one.
pub proof fn lemma_dec_rep_digits(n: nat)
    ensures
        dec_rep(n).len() >= 1,
        forall|i: int| 0 <= i < dec_rep(n).len() ==> 48 <= #[trigger] dec_rep(n)[i] <= 57,
    decreases n,
{
    if n >= 10 {
        lemma_dec_rep_digits(n / 10);
    }
}

/// Decimal representations of distinct numbers are distinct.
pub proof fn lemma_dec_rep_injective(a: nat, b: nat)
    requires
        dec_rep(a) == dec_rep(b),
    ensures
        a == b,
    decreases a + b,
{
    lemma_dec_rep_digits(a);
    lemma_dec_rep_digits(b);
    if a < 10 && b < 10 {
        assert(dec_rep(a)[0] == 48 + a);
        assert(dec_rep(b)[0] == 48 + b);
    } else if a < 10 {
        lemma_dec_rep_digits(b / 10);
        assert(dec_rep(b).len() >= 2);
    } else if b < 10 {
        lemma_dec_rep_digits(a / 10);
        assert(dec_rep(a).len() >= 2);
    } else {
        let da = dec_rep(a / 10);
        let db = dec_rep(b / 10);
        let xa = seq![(48 + a % 10) as u8];
        let xb = seq![(48 + b % 10) as u8];
        assert(dec_rep(a) == da + xa);
        assert(dec_rep(b) == db + xb);
        assert(da.len() == db.len());
        assert(da =~= (da + xa).subrange(0, da.len() as int));
        assert(db =~= (db + xb).subrange(0, db.len() as int));
        lemma_dec_rep_injective(a / 10, b / 10);
        assert((da + xa)[da.len() as int] == 48 + a % 10);
        assert((db + xb)[db.len() as int] == 48 + b % 10);
        assert(a % 10 == b % 10);
    }
}

/// If two texts of the shape `x:d` agree, where the `d` parts are free of
/// colons, then the `x` parts and the `d` parts agree separately.
pub proof fn lemma_colon_suffix(x1: Seq<u8>, d1: Seq<u8>, x2: Seq<u8>, d2: Seq<u8>)
    requires
        x1 + seq![58u8] + d1 == x2 + seq![58u8] + d2,
        forall|i: int| 0 <= i < d1.len() ==> #[trigger] d1[i] != 58,
        forall|i: int| 0 <= i < d2.len() ==> #[trigger] d2[i] != 58,
    ensures
        x1 == x2,
        d1 == d2,
{
    let s = x1 + seq![58u8] + d1;
    assert(s.len() == x1.len() + 1 + d1.len());
    assert(s.len() == x2.len() + 1 + d2.len());
    if d1.len() < d2.len() {
        let p = x1.len() as int;
        assert(s[p] == 58);
        assert(p - (x2.len() + 1) == d2.len() - d1.len() - 1);
        assert(s[p] == d2[d2.len() - d1.len() - 1]);
        assert(false);
    }
    if d2.len() < d1.len() {
        let p = x2.len() as int;
        assert(s[p] == 58);
        assert(s[p] == d1[d1.len() - d2.len() - 1]);
        assert(false);
    }
    assert(x1.len() == x2.len());
    assert(d1 =~= d2) by {
        assert(forall|i: int| 0 <= i < d1.len() ==> s[x1.len() + 1 + i] == #[trigger] d1[i]);
        assert(forall|i: int| 0 <= i < d2.len() ==> s[x2.len() + 1 + i] == #[trigger] d2[i]);
    }
    assert(x1 =~= x2) by {
        assert(forall|i: int| 0 <= i < x1.len() ==> s[i] == #[trigger] x1[i]);
        assert(forall|i: int| 0 <= i < x2.len() ==> s[i] == #[trigger] x2[i]);
    }
}

/// Distinct positions have distinct texts: the file, the line and the column
/// can all be read back from `file:line:col`.
pub proof fn lemma_location_injective(f1: Seq<u8>, l1: u32, c1: u32, f2: Seq<u8>, l2: u32, c2: u32)
    requires
        loc_view(f1, l1, c1) == loc_view(f2, l2, c2),
    ensures
        f1 == f2,
        l1 == l2,
        c1 == c2,
{
    lemma_dec_rep_digits(l1 as nat);
    lemma_dec_rep_digits(c1 as nat);
    lemma_dec_rep_digits(l2 as nat);
    lemma_dec_rep_digits(c2 as nat);
    lemma_colon_suffix(
        f1 + seq![58u8] + dec_rep(l1 as nat),
        dec_rep(c1 as nat),
        f2 + seq![58u8] + dec_rep(l2 as nat),
        dec_rep(c2 as nat),
    );
    lemma_dec_rep_injective(c1 as nat, c2 as nat);
    lemma_colon_suffix(f1, dec_rep(l1 as nat), f2, dec_rep(l2 as nat));
    lemma_dec_rep_injective(l1 as nat, l2 as nat);
}

} // verus!
