//! The round-trip law: parsing a rendered document yields exactly its host
//! and macro tables, for documents whose values are plain words and whose
//! macro lines are trimmed, nonempty and newline-free.

use vstd::prelude::*;
use crate::model::{empty_auth, entries_to_map, is_terminator, is_ws, line_inc, next_token,
    parse_attrs, parse_doc, render_auth, render_doc, render_host, render_hosts, render_lines,
    render_macro, render_macros, scan_plain, skip_ws, spec_parse, take_line, take_macro_lines,
    trim, AttrsOutcome, AuthModel, Outcome};

verus! {

broadcast use vstd::seq_lib::group_seq_properties;

/// A plain word: nonempty, and free of whitespace, quotes and backslashes,
/// so that the tokenizer reads it back as one unchanged token.
pub open spec fn plain(w: Seq<char>) -> bool {
    w.len() > 0 && forall|k: int| 0 <= k < w.len() ==> {
        &&& !is_ws(#[trigger] w[k])
        &&& w[k] != '"'
        &&& w[k] != '\\'
    }
}

/// A macro line that survives the writer and the reader unchanged: nonempty,
/// already trimmed, and free of newlines.
pub open spec fn line_ok(l: Seq<char>) -> bool {
    l.len() > 0 && trim(l) == l && forall|k: int| 0 <= k < l.len() ==> (#[trigger] l[k]) != '\n'
}

/// Host rows whose rendering reads back unchanged.
pub open spec fn host_rows_plain(hs: Seq<(Seq<char>, AuthModel)>) -> bool {
    forall|k: int| 0 <= k < hs.len() ==> {
        &&& plain((#[trigger] hs[k]).0)
        &&& plain(hs[k].1.login)
        &&& plain(hs[k].1.password)
        &&& (hs[k].1.account.len() > 0 ==> plain(hs[k].1.account))
    }
}

/// Macro rows whose rendering reads back unchanged.
pub open spec fn macro_rows_ok(ms: Seq<(Seq<char>, Seq<Seq<char>>)>) -> bool {
    forall|k: int| 0 <= k < ms.len() ==> {
        &&& plain((#[trigger] ms[k]).0)
        &&& (forall|j: int| 0 <= j < ms[k].1.len() ==> line_ok(#[trigger] ms[k].1[j]))
    }
}

/// The rows folded into a map from the left: what the parser's repeated
/// inserts produce.
pub open spec fn with_entries<V>(m: Map<Seq<char>, V>, rows: Seq<(Seq<char>, V)>) -> Map<
    Seq<char>,
    V,
>
    decreases rows.len(),
{
    if rows.len() == 0 {
        m
    } else {
        with_entries(m.insert(rows[0].0, rows[0].1), rows.drop_first())
    }
}

proof fn lemma_with_entries_push<V>(m: Map<Seq<char>, V>, rows: Seq<(Seq<char>, V)>, e: (Seq<char>, V))
    ensures
        with_entries(m, rows.push(e)) == with_entries(m, rows).insert(e.0, e.1),
    decreases rows.len(),
{
    if rows.len() == 0 {
        assert(rows.push(e).drop_first() =~= Seq::<(Seq<char>, V)>::empty());
        assert(rows.push(e)[0] == e);
        assert(with_entries(m, rows.push(e)) == with_entries(
            m.insert(e.0, e.1),
            rows.push(e).drop_first(),
        ));
        assert(with_entries(m.insert(e.0, e.1), rows.push(e).drop_first()) == m.insert(e.0, e.1));
        assert(with_entries(m, rows) == m);
    } else {
        assert(rows.push(e)[0] == rows[0]);
        assert(rows.push(e).drop_first() =~= rows.drop_first().push(e));
        lemma_with_entries_push(m.insert(rows[0].0, rows[0].1), rows.drop_first(), e);
    }
}

/// The two fold directions agree: the parser's left fold of inserts denotes
/// the same map as the rows' right fold.
pub proof fn lemma_entries_fold<V>(rows: Seq<(Seq<char>, V)>)
    ensures
        entries_to_map(rows) == with_entries(Map::<Seq<char>, V>::empty(), rows),
    decreases rows.len(),
{
    if rows.len() > 0 {
        lemma_entries_fold(rows.drop_last());
        lemma_with_entries_push(Map::<Seq<char>, V>::empty(), rows.drop_last(), rows.last());
        assert(rows.drop_last().push(rows.last()) =~= rows);
    }
}

/// Scanning a plain word followed by a whitespace delimiter (or end of
/// input) appends exactly that word and consumes the delimiter.
proof fn lemma_scan_plain_exact(s: Seq<char>, i: int, ln: int, acc: Seq<char>, w: Seq<char>)
    requires
        0 <= i,
        i + w.len() <= s.len(),
        forall|k: int| 0 <= k < w.len() ==> {
            &&& !is_ws(#[trigger] w[k])
            &&& w[k] != '\\'
        },
        s.subrange(i, i + w.len()) == w,
        i + w.len() == s.len() || is_ws(s[i + w.len()]),
    ensures
        scan_plain(s, i, ln, acc) == if i + w.len() < s.len() {
            (acc + w, i + w.len() + 1, ln + line_inc(s[i + w.len()]))
        } else {
            (acc + w, s.len() as int, ln)
        },
    decreases w.len(),
{
    if w.len() == 0 {
        assert(acc + w =~= acc);
    } else {
        assert(s[i] == w[0]);
        assert(!is_ws(s[i]) && s[i] != '\\');
        assert(s.subrange(i + 1, i + 1 + (w.len() - 1)) =~= w.drop_first());
        lemma_scan_plain_exact(s, i + 1, ln, acc.push(s[i]), w.drop_first());
        assert(acc.push(w[0]) + w.drop_first() =~= acc + w);
    }
}

/// Reading a token at a plain word (no leading whitespace) returns exactly
/// that word, consuming its delimiter.
proof fn lemma_token_plain(s: Seq<char>, i: int, ln: int, w: Seq<char>)
    requires
        0 <= i,
        plain(w),
        i + w.len() <= s.len(),
        s.subrange(i, i + w.len()) == w,
        i + w.len() == s.len() || is_ws(s[i + w.len()]),
    ensures
        next_token(s, i, ln) == if i + w.len() < s.len() {
            (w, i + w.len() + 1, ln + line_inc(s[i + w.len()]))
        } else {
            (w, s.len() as int, ln)
        },
{
    assert(s[i] == w[0]);
    assert(!is_ws(s[i]));
    assert(skip_ws(s, i, ln) == (i, ln));
    assert(s[i] != '"');
    lemma_scan_plain_exact(s, i, ln, Seq::<char>::empty(), w);
    assert(Seq::<char>::empty() + w =~= w);
}

/// Taking a line at a newline-free stretch followed by a newline returns
/// exactly that stretch, consuming the newline.
proof fn lemma_take_line_exact(s: Seq<char>, i: int, l: Seq<char>)
    requires
        0 <= i,
        i + l.len() + 1 <= s.len(),
        forall|k: int| 0 <= k < l.len() ==> (#[trigger] l[k]) != '\n',
        s.subrange(i, i + l.len()) == l,
        s[i + l.len()] == '\n',
    ensures
        take_line(s, i) == (l, i + l.len() + 1),
    decreases l.len(),
{
    if l.len() == 0 {
        assert(s[i] == '\n');
    } else {
        assert(s[i] == l[0]);
        assert(s[i] != '\n');
        assert(s.subrange(i + 1, i + 1 + (l.len() - 1)) =~= l.drop_first());
        lemma_take_line_exact(s, i + 1, l.drop_first());
        assert(seq![l[0]] + l.drop_first() =~= l);
    }
}

/// Splitting a subrange equality at a concatenation boundary.
proof fn lemma_split_concat(s: Seq<char>, i: int, x: Seq<char>, y: Seq<char>)
    requires
        0 <= i,
        i + x.len() + y.len() <= s.len(),
        s.subrange(i, i + x.len() + y.len()) == x + y,
    ensures
        s.subrange(i, i + x.len()) == x,
        s.subrange(i + x.len(), i + x.len() + y.len()) == y,
{
    assert forall|k: int| 0 <= k < x.len() implies s.subrange(i, i + x.len())[k] == x[k] by {
        assert(s.subrange(i, i + x.len())[k] == s[i + k]);
        assert(s.subrange(i, i + x.len() + y.len())[k] == s[i + k]);
        assert(s.subrange(i, i + x.len() + y.len())[k] == (x + y)[k]);
        assert((x + y)[k] == x[k]);
    }
    assert(s.subrange(i, i + x.len()) =~= x);
    assert forall|k: int| 0 <= k < y.len() implies s.subrange(i + x.len(), i + x.len() + y.len())[k]
        == y[k] by {
        assert(s.subrange(i + x.len(), i + x.len() + y.len())[k] == s[(i + x.len()) + k]);
        assert(s.subrange(i, i + x.len() + y.len())[x.len() + k] == s[i + (x.len() + k)]);
        assert(s.subrange(i, i + x.len() + y.len())[x.len() + k] == (x + y)[x.len() + k]);
        assert((x + y)[x.len() + k] == y[k]);
    }
    assert(s.subrange(i + x.len(), i + x.len() + y.len()) =~= y);
}

/// The first character of a one-character subrange.
proof fn lemma_single_char(s: Seq<char>, i: int, t: Seq<char>)
    requires
        0 <= i,
        i + 1 <= s.len(),
        t.len() == 1,
        s.subrange(i, i + 1) == t,
    ensures
        s[i] == t[0],
{
    assert(s.subrange(i, i + 1)[0] == s[i]);
}

/// The writer's attribute headers, split into tab, keyword and padding.
proof fn lemma_header_shapes()
    ensures
        "\n\tlogin "@ == "\n"@ + ("\t"@ + ("login"@ + " "@)),
        "\taccount  "@ == "\t"@ + ("account"@ + (" "@ + " "@)),
        "\tpassword  "@ == "\t"@ + ("password"@ + (" "@ + " "@)),
        "machine "@ == "machine"@ + " "@,
        "macdef "@ == "macdef"@ + " "@,
        "\n"@.len() == 1 && "\t"@.len() == 1 && " "@.len() == 1,
        "\n"@[0] == '\n' && "\t"@[0] == '\t' && " "@[0] == ' ',
        "login"@.len() == 5 && "account"@.len() == 7 && "password"@.len() == 8,
        "machine"@.len() == 7 && "default"@.len() == 7 && "macdef"@.len() == 6,
{
    reveal_strlit("\n\tlogin ");
    reveal_strlit("\taccount  ");
    reveal_strlit("\tpassword  ");
    reveal_strlit("machine ");
    reveal_strlit("macdef ");
    reveal_strlit("\n");
    reveal_strlit("\t");
    reveal_strlit(" ");
    reveal_strlit("login");
    reveal_strlit("account");
    reveal_strlit("password");
    reveal_strlit("machine");
    reveal_strlit("default");
    reveal_strlit("macdef");
    assert("\n\tlogin "@ =~= "\n"@ + ("\t"@ + ("login"@ + " "@)));
    assert("\taccount  "@ =~= "\t"@ + ("account"@ + (" "@ + " "@)));
    assert("\tpassword  "@ =~= "\t"@ + ("password"@ + (" "@ + " "@)));
    assert("machine "@ =~= "machine"@ + " "@);
    assert("macdef "@ =~= "macdef"@ + " "@);
}

/// How the grammar's keywords stand to one another and to comments.
proof fn lemma_keywords_distinct()
    ensures
        !is_terminator("login"@),
        !is_terminator("account"@),
        !is_terminator("password"@),
        is_terminator("machine"@),
        is_terminator("macdef"@),
        is_terminator("default"@),
        "login"@[0] != '#' && "account"@[0] != '#' && "password"@[0] != '#',
        "machine"@[0] != '#' && "macdef"@[0] != '#' && "default"@[0] != '#',
        crate::model::attr_kind_of("login"@) == Some(crate::model::AttrKind::Login),
        crate::model::attr_kind_of("account"@) == Some(crate::model::AttrKind::Account),
        crate::model::attr_kind_of("password"@) == Some(crate::model::AttrKind::Password),
        plain("login"@),
        plain("account"@),
        plain("password"@),
        plain("machine"@),
        plain("macdef"@),
{
    reveal_strlit("login");
    reveal_strlit("user");
    reveal_strlit("account");
    reveal_strlit("password");
    reveal_strlit("machine");
    reveal_strlit("default");
    reveal_strlit("macdef");
    assert("login"@.len() == 5);
    assert("account"@[0] == 'a' && "machine"@[0] == 'm' && "default"@[0] == 'd');
    assert("account"@ != "machine"@ && "account"@ != "default"@);
    assert forall|k: int| 0 <= k < 5 implies {
        &&& !is_ws("login"@[k])
        &&& "login"@[k] != '"'
        &&& "login"@[k] != '\\'
    } by {
        if k == 0 {
            assert("login"@[0] == 'l');
        } else if k == 1 {
            assert("login"@[1] == 'o');
        } else if k == 2 {
            assert("login"@[2] == 'g');
        } else if k == 3 {
            assert("login"@[3] == 'i');
        } else if k == 4 {
            assert("login"@[4] == 'n');
        } else {
        }
    }
    assert(plain("login"@));
    assert forall|k: int| 0 <= k < 7 implies {
        &&& !is_ws("account"@[k])
        &&& "account"@[k] != '"'
        &&& "account"@[k] != '\\'
    } by {
        if k == 0 {
            assert("account"@[0] == 'a');
        } else if k == 1 {
            assert("account"@[1] == 'c');
        } else if k == 2 {
            assert("account"@[2] == 'c');
        } else if k == 3 {
            assert("account"@[3] == 'o');
        } else if k == 4 {
            assert("account"@[4] == 'u');
        } else if k == 5 {
            assert("account"@[5] == 'n');
        } else if k == 6 {
            assert("account"@[6] == 't');
        } else {
        }
    }
    assert(plain("account"@));
    assert forall|k: int| 0 <= k < 8 implies {
        &&& !is_ws("password"@[k])
        &&& "password"@[k] != '"'
        &&& "password"@[k] != '\\'
    } by {
        if k == 0 {
            assert("password"@[0] == 'p');
        } else if k == 1 {
            assert("password"@[1] == 'a');
        } else if k == 2 {
            assert("password"@[2] == 's');
        } else if k == 3 {
            assert("password"@[3] == 's');
        } else if k == 4 {
            assert("password"@[4] == 'w');
        } else if k == 5 {
            assert("password"@[5] == 'o');
        } else if k == 6 {
            assert("password"@[6] == 'r');
        } else if k == 7 {
            assert("password"@[7] == 'd');
        } else {
        }
    }
    assert(plain("password"@));
    assert forall|k: int| 0 <= k < 7 implies {
        &&& !is_ws("machine"@[k])
        &&& "machine"@[k] != '"'
        &&& "machine"@[k] != '\\'
    } by {
        if k == 0 {
            assert("machine"@[0] == 'm');
        } else if k == 1 {
            assert("machine"@[1] == 'a');
        } else if k == 2 {
            assert("machine"@[2] == 'c');
        } else if k == 3 {
            assert("machine"@[3] == 'h');
        } else if k == 4 {
            assert("machine"@[4] == 'i');
        } else if k == 5 {
            assert("machine"@[5] == 'n');
        } else {
            assert("machine"@[6] == 'e');
        }
    }
    assert(plain("machine"@));
    assert forall|k: int| 0 <= k < 6 implies {
        &&& !is_ws("macdef"@[k])
        &&& "macdef"@[k] != '"'
        &&& "macdef"@[k] != '\\'
    } by {
        if k == 0 {
            assert("macdef"@[0] == 'm');
        } else if k == 1 {
            assert("macdef"@[1] == 'a');
        } else if k == 2 {
            assert("macdef"@[2] == 'c');
        } else if k == 3 {
            assert("macdef"@[3] == 'd');
        } else if k == 4 {
            assert("macdef"@[4] == 'e');
        } else {
            assert("macdef"@[5] == 'f');
        }
    }
    assert(plain("macdef"@));
}

proof fn lemma_skip_ws_step(s: Seq<char>, i: int, ln: int)
    requires
        0 <= i < s.len(),
        is_ws(s[i]),
        s[i] != '\n',
    ensures
        next_token(s, i, ln) == next_token(s, i + 1, ln),
{
    assert(skip_ws(s, i, ln) == skip_ws(s, i + 1, ln));
}

/// An attribute pair as the writer lays it out: a tab, the keyword, one or
/// two spaces, the value, a newline. The reader gets the keyword and the
/// value back as two tokens.
proof fn lemma_attr_pair(s: Seq<char>, i: int, ln: int, kw: Seq<char>, pad: int, v: Seq<char>)
    requires
        0 <= i,
        plain(kw),
        plain(v),
        pad == 1 || pad == 2,
        i + 1 + kw.len() + pad + v.len() + 1 <= s.len(),
        s[i] == '\t',
        s.subrange(i + 1, i + 1 + kw.len()) == kw,
        forall|k: int| i + 1 + kw.len() <= k < i + 1 + kw.len() + pad ==> s[k] == ' ',
        s.subrange(i + 1 + kw.len() + pad, i + 1 + kw.len() + pad + v.len()) == v,
        s[i + 1 + kw.len() + pad + v.len()] == '\n',
    ensures
        next_token(s, i, ln) == (kw, i + 1 + kw.len() + 1, ln),
        next_token(s, i + 1 + kw.len() + 1, ln) == (v, i + 1 + kw.len() + pad + v.len() + 1, ln + 1),
{
    lemma_skip_ws_step(s, i, ln);
    assert(s[i + 1 + kw.len()] == ' ');
    lemma_token_plain(s, i + 1, ln, kw);
    if pad == 1 {
        lemma_token_plain(s, i + 1 + kw.len() + 1, ln, v);
    } else {
        assert(s[i + 1 + kw.len() + 1] == ' ');
        lemma_skip_ws_step(s, i + 1 + kw.len() + 1, ln);
        lemma_token_plain(s, i + 1 + kw.len() + 2, ln, v);
    }
    assert(s[i + 1 + kw.len() + pad + v.len()] == '\n');
}

/// The number of lines an attribute block spans.
pub open spec fn attr_lines(a: AuthModel) -> int {
    if a.account.len() > 0 {
        3
    } else {
        2
    }
}

/// Parsing the attribute lines the writer emits for `a` yields exactly `a`,
/// ending on whatever terminator token follows the block.
#[verifier::rlimit(60)]
proof fn lemma_attrs_of_render(s: Seq<char>, i: int, ln: int, a: AuthModel)
    requires
        plain(a.login),
        plain(a.password),
        a.account.len() > 0 ==> plain(a.account),
        0 <= i,
        i + render_auth(a).len() - 1 <= s.len(),
        s.subrange(i, i + render_auth(a).len() - 1) == render_auth(a).drop_first(),
        is_terminator(next_token(s, i + render_auth(a).len() - 1, ln + attr_lines(a)).0),
    ensures
        parse_attrs(s, i, ln, empty_auth()) == (AttrsOutcome::Ended {
            token: next_token(s, i + render_auth(a).len() - 1, ln + attr_lines(a)).0,
            pos: next_token(s, i + render_auth(a).len() - 1, ln + attr_lines(a)).1,
            line: next_token(s, i + render_auth(a).len() - 1, ln + attr_lines(a)).2,
            auth: a,
        }),
{
    lemma_header_shapes();
    lemma_keywords_distinct();
    let body = render_auth(a).drop_first();
    let lg = a.login.len() as int;
    let pv = a.password.len() as int;
    let end = i + render_auth(a).len() - 1;
    let tail2 = if a.account.len() > 0 {
        "\t"@ + ("account"@ + (" "@ + (" "@ + (a.account + ("\n"@ + ("\t"@ + ("password"@ + (" "@
            + (" "@ + (a.password + "\n"@))))))))))
    } else {
        "\t"@ + ("password"@ + (" "@ + (" "@ + (a.password + "\n"@))))
    };
    let body2 = "\t"@ + ("login"@ + (" "@ + (a.login + ("\n"@ + tail2))));
    assert(render_auth(a) =~= "\n"@ + body2);
    assert(body =~= body2);
    assert(body.len() == render_auth(a).len() - 1);
    // Peel the login line: tab, keyword, space, value, newline.
    lemma_split_concat(s, i, "\t"@, "login"@ + (" "@ + (a.login + ("\n"@ + tail2))));
    lemma_single_char(s, i, "\t"@);
    lemma_split_concat(s, i + 1, "login"@, " "@ + (a.login + ("\n"@ + tail2)));
    lemma_split_concat(s, i + 6, " "@, a.login + ("\n"@ + tail2));
    lemma_single_char(s, i + 6, " "@);
    lemma_split_concat(s, i + 7, a.login, "\n"@ + tail2);
    lemma_split_concat(s, i + 7 + lg, "\n"@, tail2);
    lemma_single_char(s, i + 7 + lg, "\n"@);
    lemma_attr_pair(s, i, ln, "login"@, 1, a.login);
    assert(next_token(s, i, ln) == ("login"@, i + 7, ln));
    let a1 = crate::model::set_attr(empty_auth(), crate::model::AttrKind::Login, a.login);
    assert(parse_attrs(s, i, ln, empty_auth()) == parse_attrs(s, i + 8 + lg, ln + 1, a1));
    let i2 = i + 8 + lg;
    if a.account.len() > 0 {
        let av = a.account.len() as int;
        // Peel the account line, with its two-space padding.
        lemma_split_concat(s, i2, "\t"@, "account"@ + (" "@ + (" "@ + (a.account + ("\n"@ + ("\t"@
            + ("password"@ + (" "@ + (" "@ + (a.password + "\n"@))))))))));
        lemma_single_char(s, i2, "\t"@);
        lemma_split_concat(s, i2 + 1, "account"@, " "@ + (" "@ + (a.account + ("\n"@ + ("\t"@
            + ("password"@ + (" "@ + (" "@ + (a.password + "\n"@)))))))));
        lemma_split_concat(s, i2 + 8, " "@, " "@ + (a.account + ("\n"@ + ("\t"@ + ("password"@
            + (" "@ + (" "@ + (a.password + "\n"@))))))));
        lemma_single_char(s, i2 + 8, " "@);
        lemma_split_concat(s, i2 + 9, " "@, a.account + ("\n"@ + ("\t"@ + ("password"@ + (" "@
            + (" "@ + (a.password + "\n"@)))))));
        lemma_single_char(s, i2 + 9, " "@);
        lemma_split_concat(s, i2 + 10, a.account, "\n"@ + ("\t"@ + ("password"@ + (" "@ + (" "@
            + (a.password + "\n"@))))));
        lemma_split_concat(s, i2 + 10 + av, "\n"@, "\t"@ + ("password"@ + (" "@ + (" "@
            + (a.password + "\n"@)))));
        lemma_single_char(s, i2 + 10 + av, "\n"@);
        lemma_attr_pair(s, i2, ln + 1, "account"@, 2, a.account);
        let a2 = crate::model::set_attr(a1, crate::model::AttrKind::Account, a.account);
        assert(parse_attrs(s, i2, ln + 1, a1) == parse_attrs(s, i2 + 11 + av, ln + 2, a2));
        let i3 = i2 + 11 + av;
        // Peel the password line.
        lemma_split_concat(s, i3, "\t"@, "password"@ + (" "@ + (" "@ + (a.password + "\n"@))));
        lemma_single_char(s, i3, "\t"@);
        lemma_split_concat(s, i3 + 1, "password"@, " "@ + (" "@ + (a.password + "\n"@)));
        lemma_split_concat(s, i3 + 9, " "@, " "@ + (a.password + "\n"@));
        lemma_single_char(s, i3 + 9, " "@);
        lemma_split_concat(s, i3 + 10, " "@, a.password + "\n"@);
        lemma_single_char(s, i3 + 10, " "@);
        lemma_split_concat(s, i3 + 11, a.password, "\n"@);
        lemma_single_char(s, i3 + 11 + pv, "\n"@);
        lemma_attr_pair(s, i3, ln + 2, "password"@, 2, a.password);
        let a3 = crate::model::set_attr(a2, crate::model::AttrKind::Password, a.password);
        assert(parse_attrs(s, i3, ln + 2, a2) == parse_attrs(s, i3 + 12 + pv, ln + 3, a3));
        assert(i3 + 12 + pv == end);
        assert(a3 =~= a);
        assert(parse_attrs(s, end, ln + 3, a3) == (AttrsOutcome::Ended {
            token: next_token(s, end, ln + 3).0,
            pos: next_token(s, end, ln + 3).1,
            line: next_token(s, end, ln + 3).2,
            auth: a3,
        }));
    } else {
        // Peel the password line directly after the login line.
        lemma_split_concat(s, i2, "\t"@, "password"@ + (" "@ + (" "@ + (a.password + "\n"@))));
        lemma_single_char(s, i2, "\t"@);
        lemma_split_concat(s, i2 + 1, "password"@, " "@ + (" "@ + (a.password + "\n"@)));
        lemma_split_concat(s, i2 + 9, " "@, " "@ + (a.password + "\n"@));
        lemma_single_char(s, i2 + 9, " "@);
        lemma_split_concat(s, i2 + 10, " "@, a.password + "\n"@);
        lemma_single_char(s, i2 + 10, " "@);
        lemma_split_concat(s, i2 + 11, a.password, "\n"@);
        lemma_single_char(s, i2 + 11 + pv, "\n"@);
        lemma_attr_pair(s, i2, ln + 1, "password"@, 2, a.password);
        let a3 = crate::model::set_attr(a1, crate::model::AttrKind::Password, a.password);
        assert(parse_attrs(s, i2, ln + 1, a1) == parse_attrs(s, i2 + 12 + pv, ln + 2, a3));
        assert(i2 + 12 + pv == end);
        assert(a3 =~= a);
        assert(parse_attrs(s, end, ln + 2, a3) == (AttrsOutcome::Ended {
            token: next_token(s, end, ln + 2).0,
            pos: next_token(s, end, ln + 2).1,
            line: next_token(s, end, ln + 2).2,
            auth: a3,
        }));
    }
}

/// Parsing the rendered lines of a macro body, terminated by its blank
/// line, yields exactly those lines.
proof fn lemma_macro_lines_exact(s: Seq<char>, i: int, ls: Seq<Seq<char>>)
    requires
        forall|j: int| 0 <= j < ls.len() ==> line_ok(#[trigger] ls[j]),
        0 <= i,
        i + render_lines(ls).len() + 1 <= s.len(),
        s.subrange(i, i + render_lines(ls).len() + 1) == render_lines(ls) + "\n"@,
    ensures
        take_macro_lines(s, i) == (ls, i + render_lines(ls).len() + 1),
    decreases ls.len(),
{
    lemma_header_shapes();
    if ls.len() == 0 {
        assert(render_lines(ls) =~= Seq::<char>::empty());
        assert(render_lines(ls) + "\n"@ =~= "\n"@);
        lemma_single_char(s, i, "\n"@);
        assert(take_line(s, i) == (Seq::<char>::empty(), i + 1));
        assert(trim(Seq::<char>::empty()).len() == 0);
        assert(take_macro_lines(s, i).0 =~= ls);
    } else {
        let l0 = ls[0];
        let rest = ls.drop_first();
        assert(line_ok(l0));
        assert(render_lines(ls) + "\n"@ =~= l0 + ("\n"@ + (render_lines(rest) + "\n"@)));
        lemma_split_concat(s, i, l0, "\n"@ + (render_lines(rest) + "\n"@));
        lemma_split_concat(s, i + l0.len(), "\n"@, render_lines(rest) + "\n"@);
        lemma_single_char(s, i + l0.len(), "\n"@);
        lemma_take_line_exact(s, i, l0);
        let i1 = i + l0.len() + 1;
        lemma_macro_lines_exact(s, i1, rest);
        assert(trim(l0) == l0);
        assert(take_macro_lines(s, i).0 =~= seq![trim(l0)] + rest);
        assert(seq![trim(l0)] + rest =~= ls);
        assert(take_macro_lines(s, i).1 == i1 + render_lines(rest).len() + 1);
        assert(i1 + render_lines(rest).len() + 1 == i + render_lines(ls).len() + 1);
    }
}

/// Parsing the rendered macros, with the `macdef` keyword already in hand,
/// folds exactly their rows into the macro table.
proof fn lemma_parse_macros(
    s: Seq<char>,
    i: int,
    ln: int,
    ms: Seq<(Seq<char>, Seq<Seq<char>>)>,
    hacc: Map<Seq<char>, AuthModel>,
    macc: Map<Seq<char>, Seq<Seq<char>>>,
)
    requires
        macro_rows_ok(ms),
        ms.len() > 0,
        0 <= i <= s.len(),
        s.subrange(i, s.len() as int) == ms[0].0 + ("\n"@ + (render_lines(ms[0].1) + ("\n"@
            + render_macros(ms.drop_first())))),
    ensures
        parse_doc(s, i, ln, Some("macdef"@), hacc, macc) == (Outcome::Done {
            hosts: hacc,
            macros: with_entries(macc, ms),
        }),
    decreases ms.len(),
{
    lemma_header_shapes();
    lemma_keywords_distinct();
    let name = ms[0].0;
    let ls = ms[0].1;
    let rest = ms.drop_first();
    let nl = name.len() as int;
    assert(plain(name));
    assert(s.subrange(i, s.len() as int).len() == s.len() - i);
    lemma_split_concat(s, i, name, "\n"@ + (render_lines(ls) + ("\n"@ + render_macros(rest))));
    lemma_split_concat(s, i + nl, "\n"@, render_lines(ls) + ("\n"@ + render_macros(rest)));
    lemma_single_char(s, i + nl, "\n"@);
    lemma_token_plain(s, i, ln, name);
    assert(next_token(s, i, ln) == (name, i + nl + 1, ln + 1));
    let i3 = i + nl + 1;
    assert(s.subrange(i3, i3 + render_lines(ls).len() + ("\n"@ + render_macros(rest)).len())
        == render_lines(ls) + ("\n"@ + render_macros(rest)));
    assert(render_lines(ls) + ("\n"@ + render_macros(rest)) =~= (render_lines(ls) + "\n"@)
        + render_macros(rest));
    lemma_split_concat(s, i3, render_lines(ls) + "\n"@, render_macros(rest));
    lemma_macro_lines_exact(s, i3, ls);
    let i4 = i3 + render_lines(ls).len() + 1;
    assert(take_macro_lines(s, i3) == (ls, i4));
    let m2 = macc.insert(name, ls);
    assert(parse_doc(s, i, ln, Some("macdef"@), hacc, macc) == parse_doc(
        s,
        i4,
        ln + 1,
        None,
        hacc,
        m2,
    ));
    if rest.len() == 0 {
        assert(render_macros(rest) =~= Seq::<char>::empty());
        assert(i4 == s.len());
        assert(skip_ws(s, i4, ln + 1) == (i4, ln + 1));
        assert(next_token(s, i4, ln + 1) == (Seq::<char>::empty(), i4, ln + 1));
        assert(parse_doc(s, i4, ln + 1, None, hacc, m2) == (Outcome::Done {
            hosts: hacc,
            macros: m2,
        }));
        assert(with_entries(macc, ms) == with_entries(m2, rest));
        assert(with_entries(m2, rest) == m2);
    } else {
        assert(render_macros(rest) =~= "macdef"@ + (" "@ + (rest[0].0 + ("\n"@
            + (render_lines(rest[0].1) + ("\n"@ + render_macros(rest.drop_first())))))));
        lemma_split_concat(s, i4, "macdef"@, " "@ + (rest[0].0 + ("\n"@ + (render_lines(rest[0].1)
            + ("\n"@ + render_macros(rest.drop_first()))))));
        lemma_split_concat(s, i4 + 6, " "@, rest[0].0 + ("\n"@ + (render_lines(rest[0].1) + ("\n"@
            + render_macros(rest.drop_first())))));
        lemma_single_char(s, i4 + 6, " "@);
        lemma_token_plain(s, i4, ln + 1, "macdef"@);
        assert(next_token(s, i4, ln + 1) == ("macdef"@, i4 + 7, ln + 1));
        assert("macdef"@[0] != '#');
        assert(parse_doc(s, i4, ln + 1, None, hacc, m2) == parse_doc(
            s,
            i4 + 7,
            ln + 1,
            Some("macdef"@),
            hacc,
            m2,
        ));
        lemma_parse_macros(s, i4 + 7, ln + 1, rest, hacc, m2);
        assert(with_entries(macc, ms) == with_entries(m2, rest));
    }
}

/// Parsing the rendered host entries, with the `machine` keyword already in
/// hand, folds exactly their rows into the host table, and then the macros.
proof fn lemma_parse_hosts(
    s: Seq<char>,
    i: int,
    ln: int,
    hs: Seq<(Seq<char>, AuthModel)>,
    ms: Seq<(Seq<char>, Seq<Seq<char>>)>,
    hacc: Map<Seq<char>, AuthModel>,
    macc: Map<Seq<char>, Seq<Seq<char>>>,
)
    requires
        host_rows_plain(hs),
        macro_rows_ok(ms),
        hs.len() > 0,
        0 <= i <= s.len(),
        s.subrange(i, s.len() as int) == hs[0].0 + (render_auth(hs[0].1) + (render_hosts(
            hs.drop_first(),
        ) + render_macros(ms))),
    ensures
        parse_doc(s, i, ln, Some("machine"@), hacc, macc) == (Outcome::Done {
            hosts: with_entries(hacc, hs),
            macros: with_entries(macc, ms),
        }),
    decreases hs.len(),
{
    lemma_header_shapes();
    lemma_keywords_distinct();
    let name = hs[0].0;
    let a = hs[0].1;
    let rest = hs.drop_first();
    let nl = name.len() as int;
    let ra = render_auth(a).len() as int;
    assert(plain(name));
    assert(s.subrange(i, s.len() as int).len() == s.len() - i);
    lemma_split_concat(s, i, name, render_auth(a) + (render_hosts(rest) + render_macros(ms)));
    lemma_split_concat(s, i + nl, render_auth(a), render_hosts(rest) + render_macros(ms));
    assert(render_auth(a)[0] == '\n');
    assert(render_auth(a) =~= seq!['\n'] + render_auth(a).drop_first());
    lemma_split_concat(s, i + nl, seq!['\n'], render_auth(a).drop_first());
    assert(s[i + nl] == '\n') by {
        assert(s.subrange(i + nl, i + nl + 1)[0] == s[i + nl]);
        assert(seq!['\n'][0] == '\n');
    }
    lemma_token_plain(s, i, ln, name);
    assert(next_token(s, i, ln) == (name, i + nl + 1, ln + 1));
    let i3 = i + nl + 1;
    let end = i + nl + ra;
    assert(i3 + render_auth(a).len() - 1 == end);
    // What follows the attribute block: the next entry, the macros, or the end.
    let tail = render_hosts(rest) + render_macros(ms);
    assert(s.subrange(end, s.len() as int) == tail);
    if rest.len() > 0 {
        assert(tail =~= "machine"@ + (" "@ + (rest[0].0 + (render_auth(rest[0].1) + (render_hosts(
            rest.drop_first(),
        ) + render_macros(ms))))));
        lemma_split_concat(s, end, "machine"@, " "@ + (rest[0].0 + (render_auth(rest[0].1)
            + (render_hosts(rest.drop_first()) + render_macros(ms)))));
        lemma_split_concat(s, end + 7, " "@, rest[0].0 + (render_auth(rest[0].1) + (render_hosts(
            rest.drop_first(),
        ) + render_macros(ms))));
        lemma_single_char(s, end + 7, " "@);
        lemma_token_plain(s, end, ln + 1 + attr_lines(a), "machine"@);
        lemma_attrs_of_render(s, i3, ln + 1, a);
        let h2 = hacc.insert(name, a);
        assert(parse_doc(s, i, ln, Some("machine"@), hacc, macc) == parse_doc(
            s,
            end + 8,
            ln + 1 + attr_lines(a),
            Some("machine"@),
            h2,
            macc,
        ));
        lemma_parse_hosts(s, end + 8, ln + 1 + attr_lines(a), rest, ms, h2, macc);
        assert(with_entries(hacc, hs) == with_entries(h2, rest));
    } else if ms.len() > 0 {
        assert(render_hosts(rest) =~= Seq::<char>::empty());
        assert(tail =~= "macdef"@ + (" "@ + (ms[0].0 + ("\n"@ + (render_lines(ms[0].1) + ("\n"@
            + render_macros(ms.drop_first())))))));
        lemma_split_concat(s, end, "macdef"@, " "@ + (ms[0].0 + ("\n"@ + (render_lines(ms[0].1)
            + ("\n"@ + render_macros(ms.drop_first()))))));
        lemma_split_concat(s, end + 6, " "@, ms[0].0 + ("\n"@ + (render_lines(ms[0].1) + ("\n"@
            + render_macros(ms.drop_first())))));
        lemma_single_char(s, end + 6, " "@);
        lemma_token_plain(s, end, ln + 1 + attr_lines(a), "macdef"@);
        lemma_attrs_of_render(s, i3, ln + 1, a);
        let h2 = hacc.insert(name, a);
        assert(parse_doc(s, i, ln, Some("machine"@), hacc, macc) == parse_doc(
            s,
            end + 7,
            ln + 1 + attr_lines(a),
            Some("macdef"@),
            h2,
            macc,
        ));
        lemma_parse_macros(s, end + 7, ln + 1 + attr_lines(a), ms, h2, macc);
        assert(with_entries(hacc, hs) == with_entries(h2, rest));
        assert(with_entries(h2, rest) == h2);
    } else {
        assert(render_hosts(rest) =~= Seq::<char>::empty());
        assert(render_macros(ms) =~= Seq::<char>::empty());
        assert(tail.len() == 0);
        assert(end == s.len());
        assert(skip_ws(s, end, ln + 1 + attr_lines(a)) == (end, ln + 1 + attr_lines(a)));
        assert(next_token(s, end, ln + 1 + attr_lines(a)) == (Seq::<char>::empty(), end, ln + 1
            + attr_lines(a)));
        lemma_attrs_of_render(s, i3, ln + 1, a);
        let h2 = hacc.insert(name, a);
        assert(parse_doc(s, i, ln, Some("machine"@), hacc, macc) == parse_doc(
            s,
            end,
            ln + 1 + attr_lines(a),
            Some(Seq::<char>::empty()),
            h2,
            macc,
        ));
        assert(parse_doc(s, end, ln + 1 + attr_lines(a), Some(Seq::<char>::empty()), h2, macc)
            == (Outcome::Done { hosts: h2, macros: macc }));
        assert(with_entries(hacc, hs) == with_entries(h2, rest));
        assert(with_entries(h2, rest) == h2);
        assert(with_entries(macc, ms) == macc);
    }
}

/// Round trip: parsing a rendered document yields a host table and a macro
/// table equal to the document's own, for documents whose host names, logins
/// and passwords are plain words, whose nonempty accounts are plain words,
/// and whose macro names are plain words with trimmed, nonempty,
/// newline-free lines.
#[verifier::rlimit(60)]
pub proof fn lemma_round_trip(hs: Seq<(Seq<char>, AuthModel)>, ms: Seq<(Seq<char>, Seq<Seq<char>>)>)
    requires
        host_rows_plain(hs),
        macro_rows_ok(ms),
    ensures
        spec_parse(render_doc(hs, ms)) == (Outcome::Done {
            hosts: entries_to_map(hs),
            macros: entries_to_map(ms),
        }),
{
    lemma_header_shapes();
    lemma_keywords_distinct();
    lemma_entries_fold::<AuthModel>(hs);
    lemma_entries_fold::<Seq<Seq<char>>>(ms);
    let s = render_doc(hs, ms);
    let he = Map::<Seq<char>, AuthModel>::empty();
    let me = Map::<Seq<char>, Seq<Seq<char>>>::empty();
    assert(s.subrange(0, s.len() as int) =~= s);
    if hs.len() > 0 {
        assert(s =~= "machine"@ + (" "@ + (hs[0].0 + (render_auth(hs[0].1) + (render_hosts(
            hs.drop_first(),
        ) + render_macros(ms))))));
        lemma_split_concat(s, 0, "machine"@, " "@ + (hs[0].0 + (render_auth(hs[0].1)
            + (render_hosts(hs.drop_first()) + render_macros(ms)))));
        lemma_split_concat(s, 7, " "@, hs[0].0 + (render_auth(hs[0].1) + (render_hosts(
            hs.drop_first(),
        ) + render_macros(ms))));
        lemma_single_char(s, 7, " "@);
        lemma_token_plain(s, 0, 1, "machine"@);
        assert(next_token(s, 0, 1) == ("machine"@, 8int, 1int));
        assert("machine"@[0] != '#');
        assert(parse_doc(s, 0, 1, None, he, me) == parse_doc(s, 8, 1, Some("machine"@), he, me));
        lemma_parse_hosts(s, 8, 1, hs, ms, he, me);
    } else if ms.len() > 0 {
        assert(render_hosts(hs) =~= Seq::<char>::empty());
        assert(s =~= "macdef"@ + (" "@ + (ms[0].0 + ("\n"@ + (render_lines(ms[0].1) + ("\n"@
            + render_macros(ms.drop_first())))))));
        lemma_split_concat(s, 0, "macdef"@, " "@ + (ms[0].0 + ("\n"@ + (render_lines(ms[0].1)
            + ("\n"@ + render_macros(ms.drop_first()))))));
        lemma_split_concat(s, 6, " "@, ms[0].0 + ("\n"@ + (render_lines(ms[0].1) + ("\n"@
            + render_macros(ms.drop_first())))));
        lemma_single_char(s, 6, " "@);
        lemma_token_plain(s, 0, 1, "macdef"@);
        assert(next_token(s, 0, 1) == ("macdef"@, 7int, 1int));
        assert("macdef"@[0] != '#');
        assert(parse_doc(s, 0, 1, None, he, me) == parse_doc(s, 7, 1, Some("macdef"@), he, me));
        lemma_parse_macros(s, 7, 1, ms, he, me);
    } else {
        assert(s =~= Seq::<char>::empty());
        assert(skip_ws(s, 0, 1) == (0int, 1int));
        assert(next_token(s, 0, 1) == (Seq::<char>::empty(), 0int, 1int));
        assert(with_entries(he, hs) == he);
        assert(with_entries(me, ms) == me);
    }
}

} // verus!
