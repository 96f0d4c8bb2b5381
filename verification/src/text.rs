//! Small verified string utilities: character appending, equality, trimming
//! and decimal rendering, with their spec-level counterparts in `model`.

use vstd::prelude::*;
use vstd::string::StrSliceExecFns;
use crate::model::{is_ws, scan_ws_back, scan_ws_from, trim, lemma_scan_ws_back_bounds,
    lemma_scan_ws_from_bounds};

verus! {

/// Relies on `String::push`: appends the given character to the end of the
/// string.
#[verifier::external_body]
pub(crate) fn push_char(s: &mut String, c: char)
    ensures
        final(s)@ == old(s)@.push(c),
{
    s.push(c);
}

/// Whether `c` is one of the format's whitespace characters.
pub fn is_ws_char(c: char) -> (r: bool)
    ensures
        r == is_ws(c),
{
    c == ' ' || c == '\t' || c == '\r' || c == '\n'
}

/// Character-wise string equality, tied to the view equality of the operands.
pub fn str_eq(a: &str, b: &str) -> (r: bool)
    ensures
        r == (a@ == b@),
{
    let n = a.unicode_len();
    let m = b.unicode_len();
    if n != m {
        return false;
    }
    let mut k: usize = 0;
    while k < n
        invariant
            n == a@.len(),
            n == b@.len(),
            0 <= k <= n,
            forall|j: int| 0 <= j < k ==> a@[j] == b@[j],
        decreases n - k,
    {
        if a.get_char(k) != b.get_char(k) {
            return false;
        }
        k += 1;
    }
    proof {
        assert(a@ =~= b@);
    }
    true
}

/// The line with leading and trailing whitespace removed, as `trim` states.
pub fn trim_text(l: &str) -> (r: String)
    ensures
        r@ == trim(l@),
{
    let n = l.unicode_len();
    let mut a: usize = 0;
    while a < n && is_ws_char(l.get_char(a))
        invariant
            n == l@.len(),
            0 <= a <= n,
            scan_ws_from(l@, 0) == scan_ws_from(l@, a as int),
        decreases n - a,
    {
        a += 1;
    }
    let mut b: usize = n;
    while b > 0 && is_ws_char(l.get_char(b - 1))
        invariant
            n == l@.len(),
            0 <= b <= n,
            scan_ws_back(l@, n as int) == scan_ws_back(l@, b as int),
        decreases b,
    {
        b -= 1;
    }
    if a < b {
        l.substring_char(a, b).to_owned()
    } else {
        String::new()
    }
}

/// The decimal digits of `n`, most significant first.
pub open spec fn dec_rep(n: int) -> Seq<char>
    decreases n,
{
    if n < 10 {
        seq![dec_digit(n)]
    } else {
        dec_rep(n / 10).push(dec_digit(n % 10))
    }
}

/// The character for one decimal digit.
pub open spec fn dec_digit(d: int) -> char {
    ((48 + d) as u8) as char
}

/// Renders a number in decimal, as `dec_rep` states.
pub fn u32_text(n: u32) -> (r: String)
    ensures
        r@ == dec_rep(n as int),
{
    let mut digits: Vec<char> = Vec::new();
    let mut cur: u32 = n;
    let mut done = false;
    while !done
        invariant
            !done ==> dec_rep(n as int) =~= dec_rep(cur as int) + digits@.reverse(),
            done ==> dec_rep(n as int) =~= digits@.reverse(),
        decreases cur + (if done { 0int } else { 1int }),
    {
        let d: u8 = (cur % 10) as u8;
        let c: char = (48 + d) as char;
        proof {
            assert(c == dec_digit(cur as int % 10));
            assert((digits@.push(c)).reverse() =~= seq![c] + digits@.reverse());
            if cur >= 10 {
                assert(dec_rep(cur as int) == dec_rep(cur as int / 10).push(dec_digit(
                    cur as int % 10,
                )));
                assert(dec_rep(cur as int) =~= dec_rep(cur as int / 10) + seq![c]);
            } else {
                assert(dec_rep(cur as int) =~= seq![c]);
            }
        }
        digits.push(c);
        if cur < 10 {
            done = true;
        } else {
            cur = cur / 10;
        }
    }
    let mut r = String::new();
    let mut k: usize = digits.len();
    proof {
        assert(digits@.reverse().len() == digits@.len());
    }
    while k > 0
        invariant
            0 <= k <= digits@.len(),
            r@ =~= digits@.subrange(k as int, digits@.len() as int).reverse(),
        decreases k,
    {
        k -= 1;
        push_char(&mut r, digits[k]);
        proof {
            assert(digits@.subrange(k as int, digits@.len() as int).reverse() =~= digits@.subrange(
                k as int + 1,
                digits@.len() as int,
            ).reverse().push(digits@[k as int]));
        }
    }
    proof {
        assert(digits@.subrange(0, digits@.len() as int) =~= digits@);
        assert(r@ =~= dec_rep(n as int));
    }
    r
}

} // verus!
