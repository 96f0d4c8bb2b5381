//! Mathematical model of the netrc text format: tokenization, line reading,
//! trimming and the parse itself, all as spec functions over `Seq<char>`.
//!
//! Positions are absolute character indices into the input; `ln` threads the
//! 1-based line counter, which advances once for every `'\n'` consumed by the
//! tokenizer (line reads leave it untouched, as the scanner works).

use vstd::prelude::*;

verus! {

/// The whitespace characters that separate tokens.
pub open spec fn is_ws(c: char) -> bool {
    c == ' ' || c == '\t' || c == '\r' || c == '\n'
}

/// How much consuming `c` advances the line counter.
pub open spec fn line_inc(c: char) -> int {
    if c == '\n' {
        1
    } else {
        0
    }
}

/// Position and line counter after the run of whitespace starting at `i`.
pub open spec fn skip_ws(s: Seq<char>, i: int, ln: int) -> (int, int)
    decreases s.len() - i,
{
    if 0 <= i < s.len() && is_ws(s[i]) {
        skip_ws(s, i + 1, ln + line_inc(s[i]))
    } else {
        (i, ln)
    }
}

/// Scan of a quoted token body: characters accumulate verbatim, a backslash
/// escapes the next character (a lone trailing backslash yields a space), and
/// an unescaped double quote ends the token, consuming the quote.
pub open spec fn scan_quoted(s: Seq<char>, i: int, ln: int, acc: Seq<char>) -> (Seq<char>, int, int)
    decreases s.len() - i,
{
    if !(0 <= i < s.len()) {
        (acc, i, ln)
    } else if s[i] == '"' {
        (acc, i + 1, ln)
    } else if s[i] == '\\' {
        if i + 1 >= s.len() {
            (acc.push(' '), i + 1, ln)
        } else {
            scan_quoted(s, i + 2, ln + line_inc(s[i + 1]), acc.push(s[i + 1]))
        }
    } else {
        scan_quoted(s, i + 1, ln + line_inc(s[i]), acc.push(s[i]))
    }
}

/// Scan of an unquoted token: the same backslash rule, and any whitespace
/// character ends the token, consumed but not included.
pub open spec fn scan_plain(s: Seq<char>, i: int, ln: int, acc: Seq<char>) -> (Seq<char>, int, int)
    decreases s.len() - i,
{
    if !(0 <= i < s.len()) {
        (acc, i, ln)
    } else if is_ws(s[i]) {
        (acc, i + 1, ln + line_inc(s[i]))
    } else if s[i] == '\\' {
        if i + 1 >= s.len() {
            (acc.push(' '), i + 1, ln)
        } else {
            scan_plain(s, i + 2, ln + line_inc(s[i + 1]), acc.push(s[i + 1]))
        }
    } else {
        scan_plain(s, i + 1, ln, acc.push(s[i]))
    }
}

/// The next token starting at `i`: skip whitespace, then scan a quoted or an
/// unquoted token. At end of input the token is empty.
pub open spec fn next_token(s: Seq<char>, i: int, ln: int) -> (Seq<char>, int, int) {
    let (j, ln1) = skip_ws(s, i, ln);
    if !(0 <= j < s.len()) {
        (Seq::<char>::empty(), j, ln1)
    } else if s[j] == '"' {
        scan_quoted(s, j + 1, ln1, Seq::<char>::empty())
    } else {
        scan_plain(s, j, ln1, Seq::<char>::empty())
    }
}

/// The characters up to the next newline (or end of input) and the position
/// after them; the newline is consumed but not returned.
pub open spec fn take_line(s: Seq<char>, i: int) -> (Seq<char>, int)
    decreases s.len() - i,
{
    if !(0 <= i < s.len()) {
        (Seq::<char>::empty(), i)
    } else if s[i] == '\n' {
        (Seq::<char>::empty(), i + 1)
    } else {
        let (l, j) = take_line(s, i + 1);
        (seq![s[i]] + l, j)
    }
}

/// First index at or after `i` whose character is not whitespace (or `l.len()`).
pub open spec fn scan_ws_from(l: Seq<char>, i: int) -> int
    decreases l.len() - i,
{
    if 0 <= i < l.len() && is_ws(l[i]) {
        scan_ws_from(l, i + 1)
    } else {
        i
    }
}

/// Last bound at or before `j` such that the character just before it is not
/// whitespace (or 0).
pub open spec fn scan_ws_back(l: Seq<char>, j: int) -> int
    decreases j,
{
    if 0 < j <= l.len() && is_ws(l[j - 1]) {
        scan_ws_back(l, j - 1)
    } else {
        j
    }
}

/// The line with leading and trailing whitespace removed.
pub open spec fn trim(l: Seq<char>) -> Seq<char> {
    let a = scan_ws_from(l, 0);
    let b = scan_ws_back(l, l.len() as int);
    if a <= b {
        l.subrange(a, b)
    } else {
        Seq::<char>::empty()
    }
}

pub proof fn lemma_scan_ws_from_bounds(l: Seq<char>, i: int)
    requires
        0 <= i <= l.len(),
    ensures
        i <= scan_ws_from(l, i) <= l.len(),
    decreases l.len() - i,
{
    if i < l.len() && is_ws(l[i]) {
        lemma_scan_ws_from_bounds(l, i + 1);
    }
}

pub proof fn lemma_scan_ws_back_bounds(l: Seq<char>, j: int)
    requires
        0 <= j <= l.len(),
    ensures
        0 <= scan_ws_back(l, j) <= j,
    decreases j,
{
    if 0 < j && is_ws(l[j - 1]) {
        lemma_scan_ws_back_bounds(l, j - 1);
    }
}

pub proof fn lemma_trim_len(l: Seq<char>)
    ensures
        trim(l).len() <= l.len(),
{
    lemma_scan_ws_from_bounds(l, 0);
    lemma_scan_ws_back_bounds(l, l.len() as int);
}

pub proof fn lemma_take_line_bounds(s: Seq<char>, i: int)
    requires
        0 <= i <= s.len(),
    ensures
        i <= take_line(s, i).1 <= s.len(),
        i < s.len() ==> take_line(s, i).1 > i,
    decreases s.len() - i,
{
    if i < s.len() && s[i] != '\n' {
        lemma_take_line_bounds(s, i + 1);
    }
}

pub proof fn lemma_skip_ws_bounds(s: Seq<char>, i: int, ln: int)
    requires
        0 <= i <= s.len(),
    ensures
        i <= skip_ws(s, i, ln).0 <= s.len(),
        ln <= skip_ws(s, i, ln).1 <= ln + (skip_ws(s, i, ln).0 - i),
    decreases s.len() - i,
{
    if i < s.len() && is_ws(s[i]) {
        lemma_skip_ws_bounds(s, i + 1, ln + line_inc(s[i]));
    }
}

pub proof fn lemma_scan_quoted_bounds(s: Seq<char>, i: int, ln: int, acc: Seq<char>)
    requires
        0 <= i <= s.len(),
    ensures
        i <= scan_quoted(s, i, ln, acc).1 <= s.len(),
        ln <= scan_quoted(s, i, ln, acc).2 <= ln + (scan_quoted(s, i, ln, acc).1 - i),
    decreases s.len() - i,
{
    if i < s.len() {
        if s[i] == '"' {
        } else if s[i] == '\\' {
            if i + 1 < s.len() {
                lemma_scan_quoted_bounds(s, i + 2, ln + line_inc(s[i + 1]), acc.push(s[i + 1]));
            }
        } else {
            lemma_scan_quoted_bounds(s, i + 1, ln + line_inc(s[i]), acc.push(s[i]));
        }
    }
}

pub proof fn lemma_scan_plain_bounds(s: Seq<char>, i: int, ln: int, acc: Seq<char>)
    requires
        0 <= i <= s.len(),
    ensures
        i <= scan_plain(s, i, ln, acc).1 <= s.len(),
        ln <= scan_plain(s, i, ln, acc).2 <= ln + (scan_plain(s, i, ln, acc).1 - i),
    decreases s.len() - i,
{
    if i < s.len() {
        if is_ws(s[i]) {
        } else if s[i] == '\\' {
            if i + 1 < s.len() {
                lemma_scan_plain_bounds(s, i + 2, ln + line_inc(s[i + 1]), acc.push(s[i + 1]));
            }
        } else {
            lemma_scan_plain_bounds(s, i + 1, ln, acc.push(s[i]));
        }
    }
}

/// Reading a token never moves backwards, stays inside the input, advances the
/// line counter by at most one per consumed character, and a nonempty token
/// always consumes at least one character.
pub proof fn lemma_next_token_bounds(s: Seq<char>, i: int, ln: int)
    requires
        0 <= i <= s.len(),
    ensures
        i <= next_token(s, i, ln).1 <= s.len(),
        ln <= next_token(s, i, ln).2 <= ln + (next_token(s, i, ln).1 - i),
        next_token(s, i, ln).0.len() > 0 ==> next_token(s, i, ln).1 > i,
{
    lemma_skip_ws_bounds(s, i, ln);
    let (j, ln1) = skip_ws(s, i, ln);
    if j < s.len() {
        if s[j] == '"' {
            lemma_scan_quoted_bounds(s, j + 1, ln1, Seq::<char>::empty());
        } else {
            lemma_scan_plain_bounds(s, j, ln1, Seq::<char>::empty());
            lemma_scan_plain_nonempty(s, j, ln1, Seq::<char>::empty());
        }
    }
}

/// An unquoted scan that produces more characters than it started with has
/// consumed at least one character.
proof fn lemma_scan_plain_nonempty(s: Seq<char>, i: int, ln: int, acc: Seq<char>)
    requires
        0 <= i <= s.len(),
    ensures
        scan_plain(s, i, ln, acc).0.len() > acc.len() ==> scan_plain(s, i, ln, acc).1 > i,
{
    if i < s.len() {
        if is_ws(s[i]) {
        } else if s[i] == '\\' {
            if i + 1 < s.len() {
                lemma_scan_plain_bounds(s, i + 2, ln + line_inc(s[i + 1]), acc.push(s[i + 1]));
            }
        } else {
            lemma_scan_plain_bounds(s, i + 1, ln, acc.push(s[i]));
        }
    }
}

/// The lines of a macro body: lines are taken and trimmed until one trims to
/// empty (or input ends); that terminating line is consumed and dropped.
pub open spec fn take_macro_lines(s: Seq<char>, i: int) -> (Seq<Seq<char>>, int)
    decreases s.len() - i,
{
    let (l, j) = take_line(s, i);
    if !(0 <= i <= s.len()) {
        (Seq::<Seq<char>>::empty(), j)
    } else if trim(l).len() == 0 {
        (Seq::<Seq<char>>::empty(), j)
    } else {
        proof {
            lemma_trim_len(l);
            lemma_take_line_bounds(s, i);
        }
        let (rest, k) = take_macro_lines(s, j);
        (seq![trim(l)] + rest, k)
    }
}

pub proof fn lemma_take_macro_lines_bounds(s: Seq<char>, i: int)
    requires
        0 <= i <= s.len(),
    ensures
        i <= take_macro_lines(s, i).1 <= s.len(),
    decreases s.len() - i,
{
    let (l, j) = take_line(s, i);
    lemma_take_line_bounds(s, i);
    if trim(l).len() != 0 {
        lemma_trim_len(l);
        lemma_take_macro_lines_bounds(s, j);
    }
}

/// The abstract value of a credential: the three fields as character sequences.
#[verifier::ext_equal]
pub struct AuthModel {
    pub login: Seq<char>,
    pub account: Seq<char>,
    pub password: Seq<char>,
}

/// The credential whose three fields are all empty.
pub open spec fn empty_auth() -> AuthModel {
    AuthModel { login: Seq::<char>::empty(), account: Seq::<char>::empty(), password: Seq::<char>::empty() }
}

/// The three attribute keywords a `machine`/`default` block may carry.
pub enum AttrKind {
    Login,
    Account,
    Password,
}

/// Assigning one attribute value to a credential.
pub open spec fn set_attr(a: AuthModel, k: AttrKind, v: Seq<char>) -> AuthModel {
    match k {
        AttrKind::Login => AuthModel { login: v, ..a },
        AttrKind::Account => AuthModel { account: v, ..a },
        AttrKind::Password => AuthModel { password: v, ..a },
    }
}

/// Which attribute a token names, if any (`user` is a synonym for `login`).
pub open spec fn attr_kind_of(t: Seq<char>) -> Option<AttrKind> {
    if t == "login"@ || t == "user"@ {
        Some(AttrKind::Login)
    } else if t == "account"@ {
        Some(AttrKind::Account)
    } else if t == "password"@ {
        Some(AttrKind::Password)
    } else {
        None
    }
}

/// The tokens that end an attribute block: end of input or a top-level keyword.
pub open spec fn is_terminator(t: Seq<char>) -> bool {
    t.len() == 0 || t == "machine"@ || t == "default"@ || t == "macdef"@
}

/// How an attribute block ends: with the terminating token still in hand, or
/// with an unrecognized follower token.
pub enum AttrsOutcome {
    Ended { token: Seq<char>, pos: int, line: int, auth: AuthModel },
    Failed { line: int, token: Seq<char> },
}

/// The attribute loop of one `machine`/`default` block, starting at `i` with
/// credential `a` accumulated so far. A `#` comment line is discarded under
/// the single-character, same-line rule; attribute keywords consume one value
/// token each; a terminator ends the block.
pub open spec fn parse_attrs(s: Seq<char>, i: int, ln: int, a: AuthModel) -> AttrsOutcome
    decreases s.len() - i,
{
    if !(0 <= i <= s.len()) {
        AttrsOutcome::Failed { line: ln, token: Seq::<char>::empty() }
    } else {
        let (t, i2, ln2) = next_token(s, i, ln);
        if is_terminator(t) {
            AttrsOutcome::Ended { token: t, pos: i2, line: ln2, auth: a }
        } else if t[0] == '#' {
            proof {
                lemma_next_token_bounds(s, i, ln);
            }
            if ln2 == ln && t.len() == 1 {
                let (_discard, i3) = take_line(s, i2);
                proof {
                    lemma_take_line_bounds(s, i2);
                }
                parse_attrs(s, i3, ln2, a)
            } else {
                parse_attrs(s, i2, ln2, a)
            }
        } else {
            match attr_kind_of(t) {
                Some(k) => {
                    let (v, i3, ln3) = next_token(s, i2, ln2);
                    proof {
                        lemma_next_token_bounds(s, i, ln);
                        lemma_next_token_bounds(s, i2, ln2);
                    }
                    parse_attrs(s, i3, ln3, set_attr(a, k, v))
                },
                None => AttrsOutcome::Failed { line: ln2, token: t },
            }
        }
    }
}

pub proof fn lemma_parse_attrs_bounds(s: Seq<char>, i: int, ln: int, a: AuthModel)
    requires
        0 <= i <= s.len(),
    ensures
        parse_attrs(s, i, ln, a) matches AttrsOutcome::Ended { token, pos, .. } ==> {
            &&& i <= pos <= s.len()
            &&& (token.len() > 0 ==> pos > i)
        },
    decreases s.len() - i,
{
    let (t, i2, ln2) = next_token(s, i, ln);
    lemma_next_token_bounds(s, i, ln);
    if is_terminator(t) {
    } else if t[0] == '#' {
        if ln2 == ln && t.len() == 1 {
            let (_discard, i3) = take_line(s, i2);
            lemma_take_line_bounds(s, i2);
            lemma_parse_attrs_bounds(s, i3, ln2, a);
        } else {
            lemma_parse_attrs_bounds(s, i2, ln2, a);
        }
    } else {
        match attr_kind_of(t) {
            Some(k) => {
                let (v, i3, ln3) = next_token(s, i2, ln2);
                lemma_next_token_bounds(s, i2, ln2);
                lemma_parse_attrs_bounds(s, i3, ln3, set_attr(a, k, v));
            },
            None => {},
        }
    }
}

impl AttrsOutcome {
    /// The token in hand when the block ended, or the offending token.
    pub open spec fn token(self) -> Seq<char> {
        match self {
            AttrsOutcome::Ended { token, .. } => token,
            AttrsOutcome::Failed { token, .. } => token,
        }
    }

    /// The position after the terminating token.
    pub open spec fn pos(self) -> int {
        match self {
            AttrsOutcome::Ended { pos, .. } => pos,
            AttrsOutcome::Failed { .. } => 0,
        }
    }

    /// The line at which the block ended or failed.
    pub open spec fn line_no(self) -> int {
        match self {
            AttrsOutcome::Ended { line, .. } => line,
            AttrsOutcome::Failed { line, .. } => line,
        }
    }

    /// The credential the block accumulated.
    pub open spec fn auth(self) -> AuthModel {
        match self {
            AttrsOutcome::Ended { auth, .. } => auth,
            AttrsOutcome::Failed { .. } => empty_auth(),
        }
    }
}

/// The parse error messages, exactly as the parser phrases them.
pub open spec fn bad_toplevel_message(t: Seq<char>) -> Seq<char> {
    "bad toplevel token '"@ + t + "'"@
}

pub open spec fn bad_follower_message(t: Seq<char>) -> Seq<char> {
    "bad follower token '"@ + t + "'"@
}

pub open spec fn missing_name_message(t: Seq<char>) -> Seq<char> {
    "missing '"@ + t + "' name"@
}

/// The result of a parse: the two tables, or the line and message of the
/// first error.
pub enum Outcome {
    Done { hosts: Map<Seq<char>, AuthModel>, macros: Map<Seq<char>, Seq<Seq<char>>> },
    Fail { line: int, message: Seq<char> },
}

impl Outcome {
    /// The host table of a successful parse.
    pub open spec fn hosts(self) -> Map<Seq<char>, AuthModel> {
        match self {
            Outcome::Done { hosts, .. } => hosts,
            Outcome::Fail { .. } => Map::<Seq<char>, AuthModel>::empty(),
        }
    }

    /// The macro table of a successful parse.
    pub open spec fn macros(self) -> Map<Seq<char>, Seq<Seq<char>>> {
        match self {
            Outcome::Done { macros, .. } => macros,
            Outcome::Fail { .. } => Map::<Seq<char>, Seq<Seq<char>>>::empty(),
        }
    }

    /// The line of a failed parse.
    pub open spec fn line(self) -> int {
        match self {
            Outcome::Done { .. } => 0,
            Outcome::Fail { line, .. } => line,
        }
    }

    /// The message of a failed parse.
    pub open spec fn message(self) -> Seq<char> {
        match self {
            Outcome::Done { .. } => Seq::<char>::empty(),
            Outcome::Fail { message, .. } => message,
        }
    }
}

/// Ordering aid for the parser's termination: a held-back nonempty keyword
/// still has work pending at the same position.
pub open spec fn pending_rank(pending: Option<Seq<char>>) -> int {
    match pending {
        Some(t) => if t.len() == 0 {
            0
        } else {
            1
        },
        None => 0,
    }
}

/// The top-level parse loop from position `i`. `pending` holds a token that
/// the attribute loop read past the end of its block and handed back; the
/// parser only ever hands back terminators, so the pending dispatch covers
/// exactly the keyword cases. An empty token means end of input and a
/// successful parse.
pub open spec fn parse_doc(
    s: Seq<char>,
    i: int,
    ln: int,
    pending: Option<Seq<char>>,
    hosts: Map<Seq<char>, AuthModel>,
    macros: Map<Seq<char>, Seq<Seq<char>>>,
) -> Outcome
    decreases s.len() - i, pending_rank(pending),
{
    if !(0 <= i <= s.len()) {
        Outcome::Fail { line: ln, message: Seq::<char>::empty() }
    } else {
        let (t, i2, ln2) = match pending {
            Some(t) => (t, i, ln),
            None => next_token(s, i, ln),
        };
        if t.len() == 0 {
            Outcome::Done { hosts, macros }
        } else if pending is None && t[0] == '#' {
            proof {
                lemma_next_token_bounds(s, i, ln);
            }
            if ln2 == ln && t.len() == 1 {
                let (_discard, i3) = take_line(s, i2);
                proof {
                    lemma_take_line_bounds(s, i2);
                }
                parse_doc(s, i3, ln2, None, hosts, macros)
            } else {
                parse_doc(s, i2, ln2, None, hosts, macros)
            }
        } else if t == "machine"@ || t == "default"@ {
            proof {
                if pending is None {
                    lemma_next_token_bounds(s, i, ln);
                }
            }
            let (name, i3, ln3) = if t == "machine"@ {
                next_token(s, i2, ln2)
            } else {
                ("default"@, i2, ln2)
            };
            if name.len() == 0 {
                Outcome::Fail { line: ln3, message: missing_name_message(t) }
            } else {
                proof {
                    lemma_next_token_bounds(s, i2, ln2);
                    lemma_parse_attrs_bounds(s, i3, ln3, empty_auth());
                    reveal_strlit("machine");
                    reveal_strlit("default");
                }
                match parse_attrs(s, i3, ln3, empty_auth()) {
                    AttrsOutcome::Failed { line, token } => Outcome::Fail {
                        line,
                        message: bad_follower_message(token),
                    },
                    AttrsOutcome::Ended { token, pos, line, auth } => parse_doc(
                        s,
                        pos,
                        line,
                        Some(token),
                        hosts.insert(name, auth),
                        macros,
                    ),
                }
            }
        } else if t == "macdef"@ {
            proof {
                if pending is None {
                    lemma_next_token_bounds(s, i, ln);
                }
                lemma_next_token_bounds(s, i2, ln2);
                reveal_strlit("macdef");
            }
            let (name, i3, ln3) = next_token(s, i2, ln2);
            let (lines, i4) = take_macro_lines(s, i3);
            proof {
                lemma_take_macro_lines_bounds(s, i3);
            }
            parse_doc(s, i4, ln3, None, hosts, macros.insert(name, lines))
        } else {
            Outcome::Fail { line: ln2, message: bad_toplevel_message(t) }
        }
    }
}

/// The map a sequence of keyed rows denotes: a later row with the same key
/// overrides an earlier one.
pub open spec fn entries_to_map<V>(s: Seq<(Seq<char>, V)>) -> Map<Seq<char>, V>
    decreases s.len(),
{
    if s.len() == 0 {
        Map::<Seq<char>, V>::empty()
    } else {
        entries_to_map(s.drop_last()).insert(s.last().0, s.last().1)
    }
}

pub proof fn lemma_entries_to_map_absent<V>(s: Seq<(Seq<char>, V)>, key: Seq<char>)
    requires
        forall|l: int| 0 <= l < s.len() ==> (#[trigger] s[l]).0 != key,
    ensures
        !entries_to_map(s).contains_key(key),
    decreases s.len(),
{
    if s.len() > 0 {
        lemma_entries_to_map_absent(s.drop_last(), key);
    }
}

/// The map holds, at the key of a row that no later row repeats, that row's
/// value.
pub proof fn lemma_entries_to_map_at<V>(s: Seq<(Seq<char>, V)>, key: Seq<char>, j: int)
    requires
        0 <= j < s.len(),
        s[j].0 == key,
        forall|l: int| j < l < s.len() ==> (#[trigger] s[l]).0 != key,
    ensures
        entries_to_map(s).contains_key(key),
        entries_to_map(s)[key] == s[j].1,
    decreases s.len(),
{
    if j < s.len() - 1 {
        lemma_entries_to_map_at(s.drop_last(), key, j);
    }
}

/// The rendering of one credential's attribute lines, as the writer emits
/// them after the host name: `login` always, `account` only when nonempty,
/// `password` always.
pub open spec fn render_auth(a: AuthModel) -> Seq<char> {
    "\n\tlogin "@ + a.login + "\n"@ + (if a.account.len() > 0 {
        "\taccount  "@ + a.account + "\n"@
    } else {
        Seq::<char>::empty()
    }) + "\tpassword  "@ + a.password + "\n"@
}

/// The rendering of one host entry.
pub open spec fn render_host(name: Seq<char>, a: AuthModel) -> Seq<char> {
    "machine "@ + name + render_auth(a)
}

/// The rendering of the host rows, in order.
pub open spec fn render_hosts(rows: Seq<(Seq<char>, AuthModel)>) -> Seq<char>
    decreases rows.len(),
{
    if rows.len() == 0 {
        Seq::<char>::empty()
    } else {
        render_host(rows[0].0, rows[0].1) + render_hosts(rows.drop_first())
    }
}

/// The rendering of a macro's lines, one per line.
pub open spec fn render_lines(ls: Seq<Seq<char>>) -> Seq<char>
    decreases ls.len(),
{
    if ls.len() == 0 {
        Seq::<char>::empty()
    } else {
        ls[0] + "\n"@ + render_lines(ls.drop_first())
    }
}

/// The rendering of one macro: its header line, its lines, and the blank
/// line that ends a macro body, so that the rendered text reads back as the
/// same macro.
pub open spec fn render_macro(name: Seq<char>, ls: Seq<Seq<char>>) -> Seq<char> {
    "macdef "@ + name + "\n"@ + render_lines(ls) + "\n"@
}

/// The rendering of the macro rows, in order.
pub open spec fn render_macros(rows: Seq<(Seq<char>, Seq<Seq<char>>)>) -> Seq<char>
    decreases rows.len(),
{
    if rows.len() == 0 {
        Seq::<char>::empty()
    } else {
        render_macro(rows[0].0, rows[0].1) + render_macros(rows.drop_first())
    }
}

/// The rendering of a whole document: host entries, then macros.
pub open spec fn render_doc(
    hs: Seq<(Seq<char>, AuthModel)>,
    ms: Seq<(Seq<char>, Seq<Seq<char>>)>,
) -> Seq<char> {
    render_hosts(hs) + render_macros(ms)
}

/// The whole parse of a document, from the start, on line 1, with empty tables.
pub open spec fn spec_parse(s: Seq<char>) -> Outcome {
    parse_doc(s, 0, 1, None, Map::<Seq<char>, AuthModel>::empty(), Map::<Seq<char>, Seq<Seq<char>>>::empty())
}

} // verus!
