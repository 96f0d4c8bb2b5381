//! The tokenizer: a character cursor over the input with a line counter and a
//! pushback queue, producing whitespace-delimited, quote- and escape-aware
//! tokens exactly as `model::next_token` states.

use vstd::prelude::*;
use vstd::string::StrSliceExecFns;
use crate::model::{is_ws, line_inc, next_token, scan_plain, scan_quoted, skip_ws, take_line};
use crate::text::{is_ws_char, push_char};

verus! {

/// The tokenizer state: the input text, a character cursor into it, the
/// 1-based line counter, and the queue of tokens handed back by `push_token`.
pub struct Lex<'a> {
    input: &'a str,
    pos: usize,
    lineno: u32,
    pushback: Vec<String>,
}

impl<'a> Lex<'a> {
    /// The full input text.
    pub closed spec fn text(&self) -> Seq<char> {
        self.input@
    }

    /// The current 1-based line number; it advances when the cursor consumes
    /// a newline. Line reads bypass it: a line consumed whole does not move
    /// the counter, which is what the comment rule's line check relies on.
    pub closed spec fn line(&self) -> int {
        self.lineno as int
    }

    /// Reads the current line number.
    pub fn lineno(&self) -> (r: u32)
        ensures
            r as int == self.line(),
    {
        self.lineno
    }

    /// The cursor: how many characters have been consumed.
    pub closed spec fn cursor(&self) -> int {
        self.pos as int
    }

    /// The queued pushed-back tokens, oldest first.
    pub closed spec fn queued(&self) -> Seq<Seq<char>> {
        self.pushback.deep_view()
    }

    /// Well-formedness: the cursor is inside the text, the text leaves the
    /// line counter room in a `u32`, and the counter never exceeds one more
    /// than the characters consumed.
    pub closed spec fn wf(&self) -> bool {
        &&& self.pos <= self.input@.len()
        &&& self.input@.len() + 1 < u32::MAX
        &&& 1 <= self.lineno
        &&& self.lineno as int <= 1 + self.pos as int
    }

    /// The bounds that well-formedness gives a caller: the cursor lies in the
    /// text and the line counter started at 1 and grew at most once per
    /// consumed character.
    pub proof fn bounds(&self)
        requires
            self.wf(),
        ensures
            0 <= self.cursor() <= self.text().len(),
            1 <= self.line() <= self.cursor() + 1,
    {
    }

    /// A tokenizer at the start of `content`, on line 1, with nothing queued.
    pub fn new(content: &'a str) -> (r: Lex<'a>)
        requires
            content@.len() + 1 < u32::MAX,
        ensures
            r.wf(),
            r.text() == content@,
            r.cursor() == 0,
            r.line() == 1,
            r.queued() == Seq::<Seq<char>>::empty(),
    {
        let r = Lex { input: content, pos: 0, lineno: 1, pushback: Vec::new() };
        proof {
            assert(r.queued() =~= Seq::<Seq<char>>::empty());
        }
        r
    }

    /// Consumes one character, advancing the line counter on a newline.
    pub fn read_char(&mut self) -> (r: Option<char>)
        requires
            old(self).wf(),
        ensures
            final(self).wf(),
            final(self).text() == old(self).text(),
            final(self).queued() == old(self).queued(),
            old(self).cursor() < old(self).text().len() ==> {
                &&& r == Some(old(self).text()[old(self).cursor()])
                &&& final(self).cursor() == old(self).cursor() + 1
                &&& final(self).line() == old(self).line() + line_inc(
                    old(self).text()[old(self).cursor()],
                )
            },
            old(self).cursor() >= old(self).text().len() ==> {
                &&& r is None
                &&& *final(self) == *old(self)
            },
    {
        if self.pos < self.input.unicode_len() {
            let c = self.input.get_char(self.pos);
            self.pos = self.pos + 1;
            if c == '\n' {
                self.lineno = self.lineno + 1;
            }
            Some(c)
        } else {
            None
        }
    }

    /// Consumes and returns the rest of the current line, excluding and
    /// consuming the newline; the line counter is left untouched.
    pub fn read_line(&mut self) -> (r: String)
        requires
            old(self).wf(),
        ensures
            final(self).wf(),
            final(self).text() == old(self).text(),
            final(self).queued() == old(self).queued(),
            final(self).line() == old(self).line(),
            (r@, final(self).cursor()) == take_line(old(self).text(), old(self).cursor()),
    {
        let ghost s = self.input@;
        let ghost i0 = self.pos as int;
        let n = self.input.unicode_len();
        let mut r = String::new();
        loop
            invariant
                self.wf(),
                s == old(self).text(),
                i0 == old(self).cursor(),
                self.input@ == s,
                self.pushback.deep_view() == old(self).queued(),
                self.line() == old(self).line(),
                n == s.len(),
                i0 <= self.pos as int <= s.len(),
                take_line(s, i0).0 == r@ + take_line(s, self.pos as int).0,
                take_line(s, i0).1 == take_line(s, self.pos as int).1,
            decreases s.len() - self.pos,
        {
            if self.pos >= n {
                proof {
                    assert(take_line(s, self.pos as int).0 =~= Seq::<char>::empty());
                    assert(take_line(s, i0).0 =~= r@);
                }
                return r;
            }
            let c = self.input.get_char(self.pos);
            self.pos = self.pos + 1;
            if c == '\n' {
                proof {
                    assert(take_line(s, i0).0 =~= r@);
                }
                return r;
            }
            proof {
                assert(take_line(s, self.pos as int - 1).0 =~= seq![c] + take_line(
                    s,
                    self.pos as int,
                ).0);
                assert(take_line(s, i0).0 =~= (r@ + seq![c]) + take_line(s, self.pos as int).0);
                assert(r@.push(c) =~= r@ + seq![c]);
            }
            push_char(&mut r, c);
        }
    }

    /// Returns the next token: a queued pushed-back token first, otherwise a
    /// fresh scan as `next_token` states.
    pub fn get_token(&mut self) -> (r: String)
        requires
            old(self).wf(),
        ensures
            final(self).wf(),
            final(self).text() == old(self).text(),
            old(self).queued().len() > 0 ==> {
                &&& r@ == old(self).queued()[0]
                &&& final(self).queued() == old(self).queued().drop_first()
                &&& final(self).cursor() == old(self).cursor()
                &&& final(self).line() == old(self).line()
            },
            old(self).queued().len() == 0 ==> {
                &&& final(self).queued() == old(self).queued()
                &&& (r@, final(self).cursor(), final(self).line()) == next_token(
                    old(self).text(),
                    old(self).cursor(),
                    old(self).line(),
                )
            },
    {
        if self.pushback.len() > 0 {
            let t = self.pushback.remove(0);
            proof {
                assert(self.pushback.deep_view() =~= old(self).queued().drop_first());
            }
            return t;
        }
        let ghost s = self.input@;
        let ghost i0 = self.pos as int;
        let ghost ln0 = self.lineno as int;
        let n = self.input.unicode_len();
        let mut token = String::new();

        // Skip the whitespace run before the token.
        loop
            invariant
                self.wf(),
                s == old(self).text(),
                i0 == old(self).cursor(),
                ln0 == old(self).line(),
                self.input@ == s,
                self.pushback.deep_view() == old(self).queued(),
                n == s.len(),
                i0 <= self.pos as int <= s.len(),
                skip_ws(s, i0, ln0) == skip_ws(s, self.pos as int, self.lineno as int),
                old(self).queued().len() == 0,
                token@ == Seq::<char>::empty(),
            ensures
                self.wf(),
                s == old(self).text(),
                i0 == old(self).cursor(),
                ln0 == old(self).line(),
                n == s.len(),
                self.input@ == s,
                self.pushback.deep_view() == old(self).queued(),
                token@ == Seq::<char>::empty(),
                self.pos < s.len(),
                !is_ws(s[self.pos as int]),
                skip_ws(s, i0, ln0) == (self.pos as int, self.lineno as int),
            decreases s.len() - self.pos,
        {
            if self.pos >= n {
                return token;
            }
            let c = self.input.get_char(self.pos);
            if !is_ws_char(c) {
                break;
            }
            self.pos = self.pos + 1;
            if c == '\n' {
                self.lineno = self.lineno + 1;
            }
        }

        let c = self.input.get_char(self.pos);
        if c == '"' {
            self.pos = self.pos + 1;
            // Quoted token: verbatim characters until an unescaped quote.
            loop
                invariant
                    self.wf(),
                    s == old(self).text(),
                    i0 == old(self).cursor(),
                    ln0 == old(self).line(),
                    self.input@ == s,
                    self.pushback.deep_view() == old(self).queued(),
                    n == s.len(),
                    self.pos as int <= s.len(),
                    next_token(s, i0, ln0) == scan_quoted(
                        s,
                        self.pos as int,
                        self.lineno as int,
                        token@,
                    ),
                    old(self).queued().len() == 0,
                decreases s.len() - self.pos,
            {
                if self.pos >= n {
                    return token;
                }
                let c = self.input.get_char(self.pos);
                self.pos = self.pos + 1;
                if c == '\n' {
                    self.lineno = self.lineno + 1;
                }
                if c == '"' {
                    return token;
                }
                if c == '\\' {
                    if self.pos >= n {
                        push_char(&mut token, ' ');
                    } else {
                        let d = self.input.get_char(self.pos);
                        self.pos = self.pos + 1;
                        if d == '\n' {
                            self.lineno = self.lineno + 1;
                        }
                        push_char(&mut token, d);
                    }
                } else {
                    push_char(&mut token, c);
                }
            }
        } else {
            // Unquoted token: until whitespace, with the same escape rule.
            loop
                invariant
                    self.wf(),
                    s == old(self).text(),
                    i0 == old(self).cursor(),
                    ln0 == old(self).line(),
                    self.input@ == s,
                    self.pushback.deep_view() == old(self).queued(),
                    n == s.len(),
                    self.pos as int <= s.len(),
                    next_token(s, i0, ln0) == scan_plain(
                        s,
                        self.pos as int,
                        self.lineno as int,
                        token@,
                    ),
                    old(self).queued().len() == 0,
                decreases s.len() - self.pos,
            {
                if self.pos >= n {
                    return token;
                }
                let c = self.input.get_char(self.pos);
                self.pos = self.pos + 1;
                if c == '\n' {
                    self.lineno = self.lineno + 1;
                }
                if is_ws_char(c) {
                    return token;
                }
                if c == '\\' {
                    if self.pos >= n {
                        push_char(&mut token, ' ');
                    } else {
                        let d = self.input.get_char(self.pos);
                        self.pos = self.pos + 1;
                        if d == '\n' {
                            self.lineno = self.lineno + 1;
                        }
                        push_char(&mut token, d);
                    }
                } else {
                    push_char(&mut token, c);
                }
            }
        }
    }

    /// Queues a token to be handed out again by the next `get_token`.
    pub fn push_token(&mut self, token: &str)
        requires
            old(self).wf(),
        ensures
            final(self).wf(),
            final(self).text() == old(self).text(),
            final(self).cursor() == old(self).cursor(),
            final(self).line() == old(self).line(),
            final(self).queued() == old(self).queued().push(token@),
    {
        let t = token.to_owned();
        self.pushback.push(t);
        proof {
            assert(self.pushback.deep_view() =~= old(self).queued().push(token@));
        }
    }
}

} // verus!
