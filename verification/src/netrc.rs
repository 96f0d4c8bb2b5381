//! The netrc data model and parser: credentials, the host and macro tables,
//! the parse entry point and the serializer.

use vstd::prelude::*;
use vstd::string::{StrSliceExecFns, StringExecFns};
use crate::lex::Lex;
use crate::model::{AuthModel, AttrsOutcome, Outcome, bad_follower_message, render_doc,
    render_host, render_hosts, render_lines, render_macro, render_macros,
    bad_toplevel_message, empty_auth, entries_to_map, is_terminator, lemma_entries_to_map_absent,
    lemma_entries_to_map_at, lemma_next_token_bounds, lemma_parse_attrs_bounds,
    lemma_take_line_bounds, lemma_take_macro_lines_bounds, missing_name_message, next_token,
    parse_attrs, parse_doc, pending_rank, spec_parse, take_macro_lines};
use crate::text::{dec_rep, str_eq, trim_text, u32_text};

verus! {

/// A parse failure: the 1-based line at which the offending token was read,
/// and the message describing it.
#[derive(Debug)]
pub struct ParsingError {
    lineno: u32,
    message: String,
}

impl ParsingError {
    /// The line number the error reports.
    pub closed spec fn line(&self) -> int {
        self.lineno as int
    }

    /// The message the error reports.
    pub closed spec fn msg(&self) -> Seq<char> {
        self.message@
    }

    pub(crate) fn make(lineno: u32, message: String) -> (r: ParsingError)
        ensures
            r.line() == lineno as int,
            r.msg() == message@,
    {
        ParsingError { lineno, message }
    }

    /// The error rendered for display: `parsing error: <message> (line <n>)`.
    pub fn to_text(&self) -> (r: String)
        ensures
            r@ == "parsing error: "@ + self.msg() + " (line "@ + dec_rep(self.line()) + ")"@,
    {
        let mut r = "parsing error: ".to_owned();
        r.append(self.message.as_str());
        r.append(" (line ");
        let num = u32_text(self.lineno);
        r.append(num.as_str());
        r.append(")");
        r
    }
}

/// Authenticators for a host: the `login`, `account` and `password` values,
/// each empty when omitted in the source.
#[derive(Debug, Clone)]
pub struct Authenticator {
    /// Identifies a user on the remote machine.
    pub login: String,

    /// Supplies an additional account password.
    pub account: String,

    /// Supplies a password.
    pub password: String,
}

impl View for Authenticator {
    type V = AuthModel;

    open spec fn view(&self) -> AuthModel {
        AuthModel { login: self.login@, account: self.account@, password: self.password@ }
    }
}

impl Authenticator {
    /// A credential from its three values.
    pub fn new(login: &str, account: &str, password: &str) -> (r: Self)
        ensures
            r@ == (AuthModel { login: login@, account: account@, password: password@ }),
    {
        Authenticator { login: login.to_owned(), account: account.to_owned(), password: password.to_owned() }
    }
}

impl PartialEq for Authenticator {
    /// Structural equality of the three fields.
    fn eq(&self, other: &Self) -> (r: bool) {
        self.login == other.login && self.account == other.account && self.password
            == other.password
    }
}

impl Eq for Authenticator {
}

impl vstd::std_specs::cmp::PartialEqSpecImpl for Authenticator {
    open spec fn obeys_eq_spec() -> bool {
        true
    }

    open spec fn eq_spec(&self, other: &Self) -> bool {
        self@ == other@
    }
}

impl Default for Authenticator {
    /// The credential with all three fields empty.
    fn default() -> (r: Self)
        ensures
            r@ == empty_auth(),
    {
        Authenticator { login: String::new(), account: String::new(), password: String::new() }
    }
}

/// The host table: rows of host name and credential, in insertion order, a
/// later row for a name overriding an earlier one. Its view is the map the
/// rows denote.
#[derive(Debug)]
pub struct CredentialTable {
    entries: Vec<(String, Authenticator)>,
}

impl View for CredentialTable {
    type V = Map<Seq<char>, AuthModel>;

    closed spec fn view(&self) -> Map<Seq<char>, AuthModel> {
        entries_to_map(self.rows())
    }
}

impl CredentialTable {
    /// The rows, in order, as name and credential model.
    pub closed spec fn rows(&self) -> Seq<(Seq<char>, AuthModel)> {
        self.entries@.map_values(|e: (String, Authenticator)| (e.0@, e.1@))
    }

    /// The empty table.
    pub fn new() -> (r: Self)
        ensures
            r@ == Map::<Seq<char>, AuthModel>::empty(),
            r.rows() == Seq::<(Seq<char>, AuthModel)>::empty(),
    {
        let r = CredentialTable { entries: Vec::new() };
        proof {
            assert(r.rows() =~= Seq::<(Seq<char>, AuthModel)>::empty());
        }
        r
    }

    /// Adds a row; the map now sends `name` to `auth`.
    pub fn insert(&mut self, name: String, auth: Authenticator)
        ensures
            final(self)@ == old(self)@.insert(name@, auth@),
            final(self).rows() == old(self).rows().push((name@, auth@)),
    {
        self.entries.push((name, auth));
        proof {
            assert(self.rows() =~= old(self).rows().push((self.entries@.last().0@,
            self.entries@.last().1@)));
            assert(self.rows().drop_last() =~= old(self).rows());
        }
    }

    /// Looks a host up: the credential of the last row carrying `name`.
    pub fn get(&self, name: &str) -> (r: Option<&Authenticator>)
        ensures
            match r {
                Some(a) => self@.contains_key(name@) && a@ == self@[name@],
                None => !self@.contains_key(name@),
            },
    {
        let n = self.entries.len();
        let mut k: usize = n;
        while k > 0
            invariant
                n == self.entries.len(),
                0 <= k <= n,
                forall|l: int| k <= l < n ==> (#[trigger] self.rows()[l]).0 != name@,
            decreases k,
        {
            k -= 1;
            if str_eq(self.entries[k].0.as_str(), name) {
                proof {
                    lemma_entries_to_map_at(self.rows(), name@, k as int);
                }
                return Some(&self.entries[k].1);
            }
        }
        proof {
            lemma_entries_to_map_absent(self.rows(), name@);
        }
        None
    }
}

/// The macro table: rows of macro name and trimmed line list, in insertion
/// order, a later row for a name overriding an earlier one.
#[derive(Debug)]
pub struct MacroTable {
    entries: Vec<(String, Vec<String>)>,
}

impl View for MacroTable {
    type V = Map<Seq<char>, Seq<Seq<char>>>;

    closed spec fn view(&self) -> Map<Seq<char>, Seq<Seq<char>>> {
        entries_to_map(self.rows())
    }
}

impl MacroTable {
    /// The rows, in order, as name and line list.
    pub closed spec fn rows(&self) -> Seq<(Seq<char>, Seq<Seq<char>>)> {
        self.entries@.map_values(|e: (String, Vec<String>)| (e.0@, e.1.deep_view()))
    }

    /// The empty table.
    pub fn new() -> (r: Self)
        ensures
            r@ == Map::<Seq<char>, Seq<Seq<char>>>::empty(),
            r.rows() == Seq::<(Seq<char>, Seq<Seq<char>>)>::empty(),
    {
        let r = MacroTable { entries: Vec::new() };
        proof {
            assert(r.rows() =~= Seq::<(Seq<char>, Seq<Seq<char>>)>::empty());
        }
        r
    }

    /// Adds a row; the map now sends `name` to the lines.
    pub fn insert(&mut self, name: String, lines: Vec<String>)
        ensures
            final(self)@ == old(self)@.insert(name@, lines.deep_view()),
            final(self).rows() == old(self).rows().push((name@, lines.deep_view())),
    {
        self.entries.push((name, lines));
        proof {
            assert(self.rows() =~= old(self).rows().push((self.entries@.last().0@,
            self.entries@.last().1.deep_view())));
            assert(self.rows().drop_last() =~= old(self).rows());
        }
    }

    /// Looks a macro up: the lines of the last row carrying `name`.
    pub fn get(&self, name: &str) -> (r: Option<&Vec<String>>)
        ensures
            match r {
                Some(v) => self@.contains_key(name@) && v.deep_view() == self@[name@],
                None => !self@.contains_key(name@),
            },
    {
        let n = self.entries.len();
        let mut k: usize = n;
        while k > 0
            invariant
                n == self.entries.len(),
                0 <= k <= n,
                forall|l: int| k <= l < n ==> (#[trigger] self.rows()[l]).0 != name@,
            decreases k,
        {
            k -= 1;
            if str_eq(self.entries[k].0.as_str(), name) {
                proof {
                    lemma_entries_to_map_at(self.rows(), name@, k as int);
                }
                return Some(&self.entries[k].1);
            }
        }
        proof {
            lemma_entries_to_map_absent(self.rows(), name@);
        }
        None
    }
}

/// Represents a parsed netrc file: the host table and the macro table.
#[derive(Debug)]
pub struct Netrc {
    /// Maps host names to their authenticators.
    pub hosts: CredentialTable,

    /// Maps macro names to their line lists.
    pub macros: MacroTable,
}

/// The pushed-back token the parser still holds, if any.
pub open spec fn pending_of(q: Seq<Seq<char>>) -> Option<Seq<char>> {
    if q.len() >= 1 {
        Some(q[0])
    } else {
        None
    }
}

fn bad_toplevel_text(t: &str) -> (r: String)
    ensures
        r@ == bad_toplevel_message(t@),
{
    let mut r = "bad toplevel token '".to_owned();
    r.append(t);
    r.append("'");
    r
}

fn bad_follower_text(t: &str) -> (r: String)
    ensures
        r@ == bad_follower_message(t@),
{
    let mut r = "bad follower token '".to_owned();
    r.append(t);
    r.append("'");
    r
}

fn missing_name_text(t: &str) -> (r: String)
    ensures
        r@ == missing_name_message(t@),
{
    let mut r = "missing '".to_owned();
    r.append(t);
    r.append("' name");
    r
}

impl Netrc {
    /// Parses the full contents of a netrc file, as `spec_parse` states: the
    /// populated document on success, and on failure the line and message of
    /// the first offending token.
    pub fn from_str(s: &str) -> (r: Result<Netrc, ParsingError>)
        requires
            s@.len() + 1 < u32::MAX,
        ensures
            r is Ok <==> spec_parse(s@) is Done,
            r matches Ok(doc) ==> doc.hosts@ == spec_parse(s@).hosts() && doc.macros@
                == spec_parse(s@).macros(),
            r matches Err(e) ==> e.line() == spec_parse(s@).line() && e.msg() == spec_parse(
                s@,
            ).message(),
    {
        let mut lexer = Lex::new(s);
        let mut hosts = CredentialTable::new();
        let mut macros = MacroTable::new();
        loop
            invariant
                lexer.wf(),
                lexer.text() == s@,
                lexer.queued().len() <= 1,
                lexer.queued().len() == 1 ==> is_terminator(lexer.queued()[0]),
                parse_doc(
                    s@,
                    lexer.cursor(),
                    lexer.line(),
                    pending_of(lexer.queued()),
                    hosts@,
                    macros@,
                ) == spec_parse(s@),
            decreases s@.len() - lexer.cursor(), pending_rank(pending_of(lexer.queued())),
        {
            let ghost pend0 = pending_of(lexer.queued());
            let ghost c0 = lexer.cursor();
            let ghost l0 = lexer.line();
            let ghost hosts0 = hosts@;
            let ghost macros0 = macros@;
            proof {
                lexer.bounds();
            }
            let saved = lexer.lineno();
            let tt = lexer.get_token();
            proof {
                lexer.bounds();
                if pend0 is None {
                    lemma_next_token_bounds(s@, c0, l0);
                }
            }
            if tt.as_str().is_empty() {
                return Ok(Netrc { hosts, macros });
            }
            proof {
                reveal_strlit("machine");
                reveal_strlit("default");
                reveal_strlit("macdef");
            }
            if tt.as_str().get_char(0) == '#' {
                // A held-back token is a nonempty terminator keyword, none of
                // which starts with '#', so this is a freshly scanned token.
                proof {
                    assert(pend0 is None);
                }
                if lexer.lineno() == saved && tt.as_str().unicode_len() == 1 {
                    proof {
                        lemma_take_line_bounds(s@, lexer.cursor());
                    }
                    lexer.read_line();
                    proof {
                        lexer.bounds();
                    }
                }
                continue;
            }
            let entryname: String;
            if str_eq(tt.as_str(), "machine") {
                let ghost cm = lexer.cursor();
                let ghost lm = lexer.line();
                entryname = lexer.get_token();
                proof {
                    lexer.bounds();
                    lemma_next_token_bounds(s@, cm, lm);
                }
            } else if str_eq(tt.as_str(), "default") {
                entryname = "default".to_owned();
            } else if str_eq(tt.as_str(), "macdef") {
                let ghost c2 = lexer.cursor();
                let ghost l2 = lexer.line();
                let name = lexer.get_token();
                proof {
                    lexer.bounds();
                    lemma_next_token_bounds(s@, c2, l2);
                    lemma_take_macro_lines_bounds(s@, lexer.cursor());
                }
                let ghost mi = lexer.cursor();
                let ghost l3 = lexer.line();
                let mut lines: Vec<String> = Vec::new();
                loop
                    invariant_except_break
                        take_macro_lines(s@, mi).0 =~= lines.deep_view() + take_macro_lines(
                            s@,
                            lexer.cursor(),
                        ).0,
                        take_macro_lines(s@, mi).1 == take_macro_lines(s@, lexer.cursor()).1,
                    invariant
                        lexer.wf(),
                        lexer.text() == s@,
                        lexer.queued().len() == 0,
                        lexer.line() == l3,
                        mi <= lexer.cursor(),
                    ensures
                        lexer.wf(),
                        lexer.text() == s@,
                        lexer.queued().len() == 0,
                        lexer.line() == l3,
                        mi <= lexer.cursor(),
                        lines.deep_view() =~= take_macro_lines(s@, mi).0,
                        lexer.cursor() == take_macro_lines(s@, mi).1,
                    decreases s@.len() - lexer.cursor(),
                {
                    let ghost cl = lexer.cursor();
                    proof {
                        lexer.bounds();
                    }
                    let line = lexer.read_line();
                    proof {
                        lexer.bounds();
                        lemma_take_line_bounds(s@, cl);
                    }
                    let t = trim_text(line.as_str());
                    if t.as_str().is_empty() {
                        proof {
                            assert(take_macro_lines(s@, cl).0 =~= Seq::<Seq<char>>::empty());
                            assert(lines.deep_view() + take_macro_lines(s@, cl).0
                                =~= lines.deep_view());
                        }
                        break;
                    }
                    proof {
                        assert((lines.deep_view().push(t@)) =~= lines.deep_view() + seq![t@]);
                        assert(take_macro_lines(s@, cl).0 =~= seq![t@] + take_macro_lines(
                            s@,
                            lexer.cursor(),
                        ).0);
                        assert(lines.deep_view() + (seq![t@] + take_macro_lines(
                            s@,
                            lexer.cursor(),
                        ).0) =~= (lines.deep_view() + seq![t@]) + take_macro_lines(
                            s@,
                            lexer.cursor(),
                        ).0);
                    }
                    lines.push(t);
                }
                macros.insert(name, lines);
                continue;
            } else {
                let msg = bad_toplevel_text(tt.as_str());
                return Err(ParsingError::make(lexer.lineno(), msg));
            }
            if entryname.as_str().is_empty() {
                let msg = missing_name_text(tt.as_str());
                return Err(ParsingError::make(lexer.lineno(), msg));
            }
            let ghost ename = entryname@;
            let ghost ai = lexer.cursor();
            let ghost al = lexer.line();
            let mut auth = Authenticator::default();
            proof {
                lexer.bounds();
                lemma_parse_attrs_bounds(s@, ai, al, empty_auth());
            }
            loop
                invariant_except_break
                    lexer.queued().len() == 0,
                    ename == entryname@,
                    hosts@ == hosts0,
                    macros@ == macros0,
                    ai <= lexer.cursor(),
                    parse_attrs(s@, lexer.cursor(), lexer.line(), auth@) == parse_attrs(
                        s@,
                        ai,
                        al,
                        empty_auth(),
                    ),
                invariant
                    lexer.wf(),
                    lexer.text() == s@,
                    0 <= ai <= s@.len(),
                    (match parse_attrs(s@, ai, al, empty_auth()) {
                        AttrsOutcome::Failed { line, token } => spec_parse(s@)
                            == (Outcome::Fail { line, message: bad_follower_message(token) }),
                        AttrsOutcome::Ended { token, pos, line, auth: a2 } => parse_doc(
                            s@,
                            pos,
                            line,
                            Some(token),
                            hosts0.insert(ename, a2),
                            macros0,
                        ) == spec_parse(s@),
                    }),
                ensures
                    lexer.wf(),
                    lexer.text() == s@,
                    lexer.queued().len() == 1,
                    macros@ == macros0,
                    parse_attrs(s@, ai, al, empty_auth()) is Ended,
                    lexer.queued()[0] == parse_attrs(s@, ai, al, empty_auth()).token(),
                    lexer.cursor() == parse_attrs(s@, ai, al, empty_auth()).pos(),
                    lexer.line() == parse_attrs(s@, ai, al, empty_auth()).line_no(),
                    hosts@ == hosts0.insert(ename, parse_attrs(s@, ai, al, empty_auth()).auth()),
                    is_terminator(parse_attrs(s@, ai, al, empty_auth()).token()),
                decreases s@.len() - lexer.cursor(),
            {
                let prev = lexer.lineno();
                let ghost ca = lexer.cursor();
                proof {
                    lexer.bounds();
                }
                let tt2 = lexer.get_token();
                proof {
                    lexer.bounds();
                    lemma_next_token_bounds(s@, ca, prev as int);
                    reveal_strlit("machine");
                    reveal_strlit("default");
                    reveal_strlit("macdef");
                    reveal_strlit("login");
                    reveal_strlit("user");
                    reveal_strlit("account");
                    reveal_strlit("password");
                }
                let empty2 = tt2.as_str().is_empty();
                if !empty2 && tt2.as_str().get_char(0) == '#' {
                    if lexer.lineno() == prev && tt2.as_str().unicode_len() == 1 {
                        proof {
                            lemma_take_line_bounds(s@, lexer.cursor());
                        }
                        lexer.read_line();
                        proof {
                            lexer.bounds();
                        }
                    }
                    continue;
                }
                if empty2 || str_eq(tt2.as_str(), "machine") || str_eq(tt2.as_str(), "default")
                    || str_eq(tt2.as_str(), "macdef") {
                    proof {
                        assert(is_terminator(tt2@));
                        assert(next_token(s@, ca, prev as int) == (tt2@, lexer.cursor(),
                        lexer.line()));
                        assert(parse_attrs(s@, ca, prev as int, auth@)
                            == (AttrsOutcome::Ended {
                            token: tt2@,
                            pos: lexer.cursor(),
                            line: lexer.line(),
                            auth: auth@,
                        }));
                    }
                    hosts.insert(entryname, auth);
                    lexer.push_token(tt2.as_str());
                    break;
                }
                if str_eq(tt2.as_str(), "login") || str_eq(tt2.as_str(), "user") {
                    let ghost cv = lexer.cursor();
                    let ghost lv = lexer.line();
                    let v = lexer.get_token();
                    proof {
                        lexer.bounds();
                        lemma_next_token_bounds(s@, cv, lv);
                    }
                    auth.login = v;
                } else if str_eq(tt2.as_str(), "account") {
                    let ghost cv = lexer.cursor();
                    let ghost lv = lexer.line();
                    let v = lexer.get_token();
                    proof {
                        lexer.bounds();
                        lemma_next_token_bounds(s@, cv, lv);
                    }
                    auth.account = v;
                } else if str_eq(tt2.as_str(), "password") {
                    let ghost cv = lexer.cursor();
                    let ghost lv = lexer.line();
                    let v = lexer.get_token();
                    proof {
                        lexer.bounds();
                        lemma_next_token_bounds(s@, cv, lv);
                    }
                    auth.password = v;
                } else {
                    let msg = bad_follower_text(tt2.as_str());
                    return Err(ParsingError::make(lexer.lineno(), msg));
                }
            }
        }
    }
}

impl Netrc {
    /// Renders the document back to netrc text, exactly as `render_doc`
    /// states: the host entries in row order, then the macros.
    pub fn to_text(&self) -> (r: String)
        ensures
            r@ == render_doc(self.hosts.rows(), self.macros.rows()),
    {
        let ghost hrows = self.hosts.rows();
        let ghost mrows = self.macros.rows();
        let mut r = String::new();
        let hn = self.hosts.entries.len();
        proof {
            assert(hrows.len() == self.hosts.entries@.len());
        }
        let mut k: usize = 0;
        proof {
            assert(hrows.skip(0) =~= hrows);
            assert(r@ + render_hosts(hrows) =~= render_hosts(hrows));
        }
        while k < hn
            invariant
                hn == self.hosts.entries@.len(),
                hrows == self.hosts.rows(),
                hrows.len() == hn,
                0 <= k <= hn,
                render_hosts(hrows) =~= r@ + render_hosts(hrows.skip(k as int)),
            decreases hn - k,
        {
            let ghost r0 = r@;
            let name = &self.hosts.entries[k].0;
            let a = &self.hosts.entries[k].1;
            proof {
                assert(hrows[k as int] == (name@, a@));
                assert(hrows.skip(k as int)[0] == hrows[k as int]);
                assert(hrows.skip(k as int).drop_first() =~= hrows.skip(k as int + 1));
            }
            r.append("machine ");
            r.append(name.as_str());
            r.append("\n\tlogin ");
            r.append(a.login.as_str());
            r.append("\n");
            if !a.account.as_str().is_empty() {
                r.append("\taccount  ");
                r.append(a.account.as_str());
                r.append("\n");
            }
            r.append("\tpassword  ");
            r.append(a.password.as_str());
            r.append("\n");
            proof {
                assert(r@ =~= r0 + render_host(name@, a@));
                assert(r0 + render_host(name@, a@) + render_hosts(hrows.skip(k as int + 1)) =~= r0
                    + (render_host(name@, a@) + render_hosts(hrows.skip(k as int + 1))));
                assert(render_hosts(hrows) =~= (r0 + render_host(name@, a@)) + render_hosts(
                    hrows.skip(k as int + 1),
                ));
            }
            k += 1;
        }
        proof {
            assert(hrows.skip(hn as int) =~= Seq::<(Seq<char>, AuthModel)>::empty());
            assert(render_hosts(hrows.skip(hn as int)) =~= Seq::<char>::empty());
            assert(r@ =~= render_hosts(hrows));
        }
        let mn = self.macros.entries.len();
        proof {
            assert(mrows.len() == self.macros.entries@.len());
        }
        let mut k: usize = 0;
        proof {
            assert(mrows.skip(0) =~= mrows);
            assert(r@ + render_macros(mrows) =~= render_hosts(hrows) + render_macros(mrows));
        }
        while k < mn
            invariant
                mn == self.macros.entries@.len(),
                mrows == self.macros.rows(),
                hrows == self.hosts.rows(),
                mrows.len() == mn,
                0 <= k <= mn,
                render_hosts(hrows) + render_macros(mrows) =~= r@ + render_macros(
                    mrows.skip(k as int),
                ),
            decreases mn - k,
        {
            let ghost r0 = r@;
            let name = &self.macros.entries[k].0;
            let lines = &self.macros.entries[k].1;
            proof {
                assert(mrows[k as int] == (name@, lines.deep_view()));
                assert(mrows.skip(k as int)[0] == mrows[k as int]);
                assert(mrows.skip(k as int).drop_first() =~= mrows.skip(k as int + 1));
            }
            r.append("macdef ");
            r.append(name.as_str());
            r.append("\n");
            let ghost lv = lines.deep_view();
            let ln2 = lines.len();
            proof {
                assert(lv.len() == lines@.len());
            }
            let ghost r1 = r@;
            let mut j: usize = 0;
            proof {
                assert(lv.skip(0) =~= lv);
                assert(r@ + render_lines(lv) =~= r1 + render_lines(lv));
            }
            while j < ln2
                invariant
                    ln2 == lines@.len(),
                    lv == lines.deep_view(),
                    lv.len() == ln2,
                    0 <= j <= ln2,
                    r1 + render_lines(lv) =~= r@ + render_lines(lv.skip(j as int)),
                decreases ln2 - j,
            {
                let ghost r2 = r@;
                proof {
                    assert(lv.skip(j as int)[0] == lv[j as int]);
                    assert(lv[j as int] == lines@[j as int]@);
                    assert(lv.skip(j as int).drop_first() =~= lv.skip(j as int + 1));
                }
                r.append(lines[j].as_str());
                r.append("\n");
                proof {
                    assert(r@ =~= r2 + (lv[j as int] + "\n"@));
                    assert(r1 + render_lines(lv) =~= (r2 + (lv[j as int] + "\n"@))
                        + render_lines(lv.skip(j as int + 1)));
                }
                j += 1;
            }
            proof {
                assert(lv.skip(ln2 as int) =~= Seq::<Seq<char>>::empty());
                assert(render_lines(lv.skip(ln2 as int)) =~= Seq::<char>::empty());
                assert(r@ =~= r1 + render_lines(lv));
            }
            r.append("\n");
            proof {
                assert(r@ =~= r0 + render_macro(name@, lv));
                assert(render_hosts(hrows) + render_macros(mrows) =~= (r0 + render_macro(
                    name@,
                    lv,
                )) + render_macros(mrows.skip(k as int + 1)));
            }
            k += 1;
        }
        proof {
            assert(mrows.skip(mn as int) =~= Seq::<(Seq<char>, Seq<Seq<char>>)>::empty());
            assert(render_macros(mrows.skip(mn as int)) =~= Seq::<char>::empty());
            assert(r@ =~= render_doc(hrows, mrows));
        }
        r
    }
}

} // verus!
