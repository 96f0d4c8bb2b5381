//! Laws of the format, stated and proved against the model: commutativity of
//! attribute assignment, preservation of omitted fields, the shape of stored
//! macro lines, the empty quoted token, the escape rule, and comment lines.

use vstd::prelude::*;
use crate::model::{is_ws, line_inc, next_token, parse_doc, scan_plain, scan_quoted, scan_ws_back,
    scan_ws_from, set_attr, skip_ws, take_line, take_macro_lines, trim, AttrKind, AuthModel,
    lemma_scan_ws_back_bounds, lemma_scan_ws_from_bounds, lemma_take_line_bounds, lemma_trim_len};

verus! {

/// A block's attribute assignments, in order: the kind and the value of each.
pub open spec fn apply_attrs(a: AuthModel, ps: Seq<(AttrKind, Seq<char>)>) -> AuthModel
    decreases ps.len(),
{
    if ps.len() == 0 {
        a
    } else {
        apply_attrs(set_attr(a, ps[0].0, ps[0].1), ps.drop_first())
    }
}

/// Assignments to two different credential fields commute.
pub proof fn lemma_assign_commutes(a: AuthModel, k1: AttrKind, v1: Seq<char>, k2: AttrKind, v2: Seq<char>)
    requires
        k1 != k2,
    ensures
        set_attr(set_attr(a, k1, v1), k2, v2) == set_attr(set_attr(a, k2, v2), k1, v1),
{
}

/// Swapping two adjacent assignments to different fields does not change the
/// credential a block produces: within a `machine`/`default` block the order
/// of `login`/`account`/`password` is irrelevant.
pub proof fn lemma_attr_order_swap(a: AuthModel, ps: Seq<(AttrKind, Seq<char>)>, i: int)
    requires
        0 <= i < ps.len() - 1,
        ps[i].0 != ps[i + 1].0,
    ensures
        apply_attrs(a, ps) == apply_attrs(a, ps.update(i, ps[i + 1]).update(i + 1, ps[i])),
    decreases i,
{
    let qs = ps.update(i, ps[i + 1]).update(i + 1, ps[i]);
    if i == 0 {
        let a1 = set_attr(set_attr(a, ps[0].0, ps[0].1), ps[1].0, ps[1].1);
        let a2 = set_attr(set_attr(a, qs[0].0, qs[0].1), qs[1].0, qs[1].1);
        lemma_assign_commutes(a, ps[0].0, ps[0].1, ps[1].0, ps[1].1);
        assert(a1 == a2);
        assert(ps.drop_first().drop_first() =~= qs.drop_first().drop_first());
        assert(apply_attrs(a, ps) == apply_attrs(set_attr(a, ps[0].0, ps[0].1), ps.drop_first()));
        assert(ps.drop_first()[0] == ps[1]);
        assert(apply_attrs(set_attr(a, ps[0].0, ps[0].1), ps.drop_first()) == apply_attrs(
            a1,
            ps.drop_first().drop_first(),
        ));
        assert(apply_attrs(a, qs) == apply_attrs(set_attr(a, qs[0].0, qs[0].1), qs.drop_first()));
        assert(qs.drop_first()[0] == qs[1]);
        assert(apply_attrs(set_attr(a, qs[0].0, qs[0].1), qs.drop_first()) == apply_attrs(
            a2,
            qs.drop_first().drop_first(),
        ));
    } else {
        assert(qs[0] == ps[0]);
        let b = set_attr(a, ps[0].0, ps[0].1);
        assert(ps.drop_first()[i - 1] == ps[i]);
        assert(ps.drop_first()[i] == ps[i + 1]);
        lemma_attr_order_swap(b, ps.drop_first(), i - 1);
        assert(ps.drop_first().update(i - 1, ps.drop_first()[i]).update(i, ps.drop_first()[i - 1])
            =~= qs.drop_first());
        assert(apply_attrs(a, ps) == apply_attrs(b, ps.drop_first()));
        assert(apply_attrs(a, qs) == apply_attrs(b, qs.drop_first()));
    }
}

/// Whether any assignment in the block names the given field.
pub open spec fn assigns_kind(ps: Seq<(AttrKind, Seq<char>)>, k: AttrKind) -> bool {
    exists|j: int| 0 <= j < ps.len() && (#[trigger] ps[j]).0 == k
}

/// A field that no assignment names keeps its starting value: omitting any
/// subset of the keywords leaves the omitted fields as they began, which for
/// a fresh block is the empty string.
pub proof fn lemma_omitted_field_kept(a: AuthModel, ps: Seq<(AttrKind, Seq<char>)>, k: AttrKind)
    requires
        !assigns_kind(ps, k),
    ensures
        match k {
            AttrKind::Login => apply_attrs(a, ps).login == a.login,
            AttrKind::Account => apply_attrs(a, ps).account == a.account,
            AttrKind::Password => apply_attrs(a, ps).password == a.password,
        },
    decreases ps.len(),
{
    if ps.len() > 0 {
        assert(ps[0].0 != k);
        let b = set_attr(a, ps[0].0, ps[0].1);
        assert(!assigns_kind(ps.drop_first(), k)) by {
            assert(forall|j: int| 0 <= j < ps.drop_first().len() ==> (#[trigger] ps.drop_first()[j])
                == ps[j + 1]);
        }
        lemma_omitted_field_kept(b, ps.drop_first(), k);
    }
}

/// The index where a whitespace scan stops is the end of the line or a
/// non-whitespace character.
proof fn lemma_scan_ws_from_stops(l: Seq<char>, i: int)
    requires
        0 <= i <= l.len(),
    ensures
        scan_ws_from(l, i) == l.len() || !is_ws(l[scan_ws_from(l, i)]),
    decreases l.len() - i,
{
    if i < l.len() && is_ws(l[i]) {
        lemma_scan_ws_from_stops(l, i + 1);
    }
}

proof fn lemma_scan_ws_back_stops(l: Seq<char>, j: int)
    requires
        0 <= j <= l.len(),
    ensures
        scan_ws_back(l, j) == 0 || !is_ws(l[scan_ws_back(l, j) - 1]),
    decreases j,
{
    if 0 < j && is_ws(l[j - 1]) {
        lemma_scan_ws_back_stops(l, j - 1);
    }
}

/// Trimming is idempotent: a trimmed line trims to itself.
pub proof fn lemma_trim_idempotent(l: Seq<char>)
    ensures
        trim(trim(l)) == trim(l),
{
    let a = scan_ws_from(l, 0);
    let b = scan_ws_back(l, l.len() as int);
    lemma_scan_ws_from_bounds(l, 0);
    lemma_scan_ws_back_bounds(l, l.len() as int);
    lemma_scan_ws_from_stops(l, 0);
    lemma_scan_ws_back_stops(l, l.len() as int);
    if a <= b {
        let t = l.subrange(a, b);
        if t.len() > 0 {
            assert(a < b);
            assert(a < l.len());
            assert(!is_ws(t[0]));
            assert(!is_ws(t[t.len() - 1]));
            assert(scan_ws_from(t, 0) == 0);
            assert(scan_ws_back(t, t.len() as int) == t.len() as int);
            assert(trim(t) =~= t);
        } else {
            assert(scan_ws_from(t, 0) == 0);
            assert(scan_ws_back(t, 0) == 0);
            assert(trim(t) =~= t);
        }
    } else {
        let t = Seq::<char>::empty();
        assert(scan_ws_from(t, 0) == 0);
        assert(scan_ws_back(t, 0) == 0);
        assert(trim(t) =~= t);
    }
}

/// Every stored macro line is nonempty and already trimmed, and scanning
/// stopped at the first line that trimmed to empty (or at end of input).
pub proof fn lemma_macro_lines_trimmed(s: Seq<char>, i: int)
    requires
        0 <= i <= s.len(),
    ensures
        forall|k: int| 0 <= k < take_macro_lines(s, i).0.len() ==> {
            &&& (#[trigger] take_macro_lines(s, i).0[k]).len() > 0
            &&& trim(take_macro_lines(s, i).0[k]) == take_macro_lines(s, i).0[k]
        },
    decreases s.len() - i,
{
    let (l, j) = take_line(s, i);
    lemma_take_line_bounds(s, i);
    if trim(l).len() != 0 {
        lemma_trim_len(l);
        lemma_trim_idempotent(l);
        lemma_macro_lines_trimmed(s, j);
        assert(forall|k: int| 1 <= k < take_macro_lines(s, i).0.len()
            ==> (#[trigger] take_macro_lines(s, i).0[k]) == take_macro_lines(s, j).0[k - 1]);
    }
}

/// A quoted empty string is one token whose text is empty: the value it
/// assigns is the empty string, as an omitted keyword would leave it.
pub proof fn lemma_empty_quoted_token(s: Seq<char>, i: int, ln: int)
    requires
        0 <= i,
        i + 1 < s.len(),
        s[i] == '"',
        s[i + 1] == '"',
    ensures
        next_token(s, i, ln) == (Seq::<char>::empty(), i + 2, ln),
{
    assert(!is_ws(s[i]));
    assert(skip_ws(s, i, ln) == (i, ln));
    assert(scan_quoted(s, i + 1, ln, Seq::<char>::empty()) == (Seq::<char>::empty(), i + 2, ln));
}

/// A backslash escapes the following character into the token unchanged,
/// inside or outside quotes; a trailing backslash yields a literal space.
pub proof fn lemma_escape_literal(s: Seq<char>, i: int, ln: int, acc: Seq<char>)
    requires
        0 <= i < s.len(),
        s[i] == '\\',
    ensures
        i + 1 < s.len() ==> scan_plain(s, i, ln, acc) == scan_plain(
            s,
            i + 2,
            ln + line_inc(s[i + 1]),
            acc.push(s[i + 1]),
        ),
        i + 1 < s.len() ==> scan_quoted(s, i, ln, acc) == scan_quoted(
            s,
            i + 2,
            ln + line_inc(s[i + 1]),
            acc.push(s[i + 1]),
        ),
        i + 1 == s.len() ==> scan_plain(s, i, ln, acc) == (acc.push(' '), i + 1, ln),
        i + 1 == s.len() ==> scan_quoted(s, i, ln, acc) == (acc.push(' '), i + 1, ln),
{
    assert(!is_ws(s[i]));
}

/// A lone `#` token that did not cross a line boundary discards the rest of
/// its line, wherever in the document it stands.
pub proof fn lemma_comment_line_discarded(
    s: Seq<char>,
    i: int,
    ln: int,
    hosts: Map<Seq<char>, AuthModel>,
    macros: Map<Seq<char>, Seq<Seq<char>>>,
)
    requires
        0 <= i <= s.len(),
        next_token(s, i, ln).0 == seq!['#'],
        next_token(s, i, ln).2 == ln,
    ensures
        parse_doc(s, i, ln, None, hosts, macros) == parse_doc(
            s,
            take_line(s, next_token(s, i, ln).1).1,
            ln,
            None,
            hosts,
            macros,
        ),
{
    let (t, i2, ln2) = next_token(s, i, ln);
    assert(t.len() == 1 && t[0] == '#');
}

} // verus!
