use vstd::prelude::*;
use std::collections::VecDeque;
use crate::rules::{lex_one, match_first_rule};
use crate::token::{Token, TokenV};
use vstd::string::StrSliceExecFns;

verus! {

/// A token and the number of characters of text it was lexed from.
pub struct RegexMatch {
    pub token: Token,
    pub token_len: usize,
}

/// Every token that `text`, then each of `lines` in turn, yields, spaces
/// included. A lexical error drops the rest of its line.
pub open spec fn lex_raw(text: Seq<char>, lines: Seq<Seq<char>>) -> Seq<TokenV>
    decreases lines.len(), text.len(),
{
    if text.len() == 0 {
        if lines.len() == 0 {
            Seq::empty()
        } else {
            lex_raw(lines[0], lines.drop_first())
        }
    } else {
        let (t, n) = lex_one(text);
        if t is SyntaxError || n == 0 || n > text.len() {
            seq![TokenV::SyntaxError] + lex_raw(Seq::empty(), lines)
        } else {
            seq![t] + lex_raw(text.subrange(n as int, text.len() as int), lines)
        }
    }
}

/// One token lexed from `text`, or, where `text` is empty, from the first of
/// `lines` with text: the token, the text left and the lines left. With
/// `skip`, runs of spaces are passed over. A lexical error drops the rest of
/// its line; where no text is left at all the token is `EndOfInput`.
pub open spec fn skip_fresh(text: Seq<char>, lines: Seq<Seq<char>>, skip: bool) -> (
    TokenV,
    Seq<char>,
    Seq<Seq<char>>,
)
    decreases lines.len(), text.len(),
{
    if text.len() == 0 {
        if lines.len() == 0 {
            (TokenV::EndOfInput, text, lines)
        } else {
            skip_fresh(lines[0], lines.drop_first(), skip)
        }
    } else {
        let (t, n) = lex_one(text);
        if t is SyntaxError || n == 0 || n > text.len() {
            (TokenV::SyntaxError, Seq::empty(), lines)
        } else if skip && t is WhiteSpace {
            skip_fresh(text.subrange(n as int, text.len() as int), lines, skip)
        } else {
            (t, text.subrange(n as int, text.len() as int), lines)
        }
    }
}

/// Taking a token from the lookahead queue `queue`, the text and the waiting
/// lines: the token, then the queue, text and lines left. The queue comes
/// first; with `skip`, runs of spaces are passed over.
pub open spec fn take_spec(
    queue: Seq<TokenV>,
    text: Seq<char>,
    lines: Seq<Seq<char>>,
    skip: bool,
) -> (TokenV, Seq<TokenV>, Seq<char>, Seq<Seq<char>>)
    decreases queue.len(),
{
    if queue.len() > 0 {
        if skip && queue[0] is WhiteSpace {
            take_spec(queue.drop_first(), text, lines, skip)
        } else {
            (queue[0], queue.drop_first(), text, lines)
        }
    } else {
        let (t, s, l) = skip_fresh(text, lines, skip);
        (t, queue, s, l)
    }
}

/// Passing over spaces is taking tokens one at a time until one is not a run
/// of spaces.
pub proof fn lemma_skip_fresh_step(text: Seq<char>, lines: Seq<Seq<char>>)
    ensures
        ({
            let r = skip_fresh(text, lines, false);
            if r.0 is WhiteSpace {
                skip_fresh(text, lines, true) == skip_fresh(r.1, r.2, true)
            } else {
                skip_fresh(text, lines, true) == r
            }
        }),
    decreases lines.len(), text.len(),
{
    if text.len() == 0 && lines.len() > 0 {
        lemma_skip_fresh_step(lines[0], lines.drop_first());
    }
}

/// Passing over spaces never ends on a run of spaces.
pub proof fn lemma_skip_fresh_no_space(text: Seq<char>, lines: Seq<Seq<char>>)
    ensures
        !(skip_fresh(text, lines, true).0 is WhiteSpace),
    decreases lines.len(), text.len(),
{
    if text.len() == 0 {
        if lines.len() > 0 {
            lemma_skip_fresh_no_space(lines[0], lines.drop_first());
        }
    } else {
        let (t, n) = lex_one(text);
        if !(t is SyntaxError || n == 0 || n > text.len()) && t is WhiteSpace {
            lemma_skip_fresh_no_space(text.subrange(n as int, text.len() as int), lines);
        }
    }
}

/// `toks` without its runs of spaces.
pub open spec fn drop_spaces(toks: Seq<TokenV>) -> Seq<TokenV>
    decreases toks.len(),
{
    if toks.len() == 0 {
        Seq::empty()
    } else if toks[0] is WhiteSpace {
        drop_spaces(toks.drop_first())
    } else {
        seq![toks[0]] + drop_spaces(toks.drop_first())
    }
}

/// Dropping spaces from two sequences one after the other is dropping them
/// from each.
pub proof fn lemma_drop_spaces_append(a: Seq<TokenV>, b: Seq<TokenV>)
    ensures
        drop_spaces(a + b) == drop_spaces(a) + drop_spaces(b),
    decreases a.len(),
{
    if a.len() == 0 {
        assert(a + b =~= b);
    } else {
        assert((a + b).drop_first() =~= a.drop_first() + b);
        lemma_drop_spaces_append(a.drop_first(), b);
        assert((a + b)[0] == a[0]);
        if !(a[0] is WhiteSpace) {
            assert(seq![a[0]] + drop_spaces(a.drop_first() + b) =~= seq![a[0]] + drop_spaces(
                a.drop_first(),
            ) + drop_spaces(b));
        }
    }
}

/// The input cursor: the unread text of the current line, the token last
/// taken, the tokens lexed ahead and not yet taken, and the lines handed in
/// and not yet begun.
pub struct Input {
    pub stream: String,
    pub current: Token,
    pub history: VecDeque<Token>,
    pub pending: VecDeque<String>,
}

impl Input {
    pub open spec fn history_view(&self) -> Seq<TokenV> {
        self.history@.map_values(|t: Token| t@)
    }

    pub open spec fn pending_view(&self) -> Seq<Seq<char>> {
        self.pending@.map_values(|s: String| s@)
    }

    /// Every token still to come, spaces included: the lookahead queue, then
    /// what the unread text and the waiting lines yield.
    pub open spec fn raw_upcoming(&self) -> Seq<TokenV> {
        self.history_view() + lex_raw(self.stream@, self.pending_view())
    }

    /// The tokens still to come, without spaces.
    pub open spec fn upcoming(&self) -> Seq<TokenV> {
        drop_spaces(self.raw_upcoming())
    }

    /// A cursor with no text, nothing lexed ahead and no line waiting.
    pub fn new() -> (r: Input)
        ensures
            r.stream@.len() == 0,
            r.current@ is NewLine,
            r.history@.len() == 0,
            r.pending@.len() == 0,
    {
        Input {
            stream: String::new(),
            current: Token::NewLine,
            history: VecDeque::new(),
            pending: VecDeque::new(),
        }
    }

    /// A copy of this cursor.
    pub fn duplicate(&self) -> (r: Input)
        ensures
            r.stream@ == self.stream@,
            r.current@ == self.current@,
            r.history_view() == self.history_view(),
            r.history@.len() == self.history@.len(),
            r.pending_view() == self.pending_view(),
    {
        let mut history: VecDeque<Token> = VecDeque::new();
        let mut i: usize = 0;
        while i < self.history.len()
            invariant
                i <= self.history@.len(),
                history@.len() == i,
                forall|k: int| 0 <= k < i ==> (#[trigger] history@[k])@ == self.history@[k]@,
            decreases self.history@.len() - i,
        {
            history.push_back(self.history[i].duplicate());
            i = i + 1;
        }
        let mut pending: VecDeque<String> = VecDeque::new();
        let mut j: usize = 0;
        while j < self.pending.len()
            invariant
                j <= self.pending@.len(),
                pending@.len() == j,
                forall|k: int| 0 <= k < j ==> (#[trigger] pending@[k])@ == self.pending@[k]@,
            decreases self.pending@.len() - j,
        {
            pending.push_back(self.pending[j].clone());
            j = j + 1;
        }
        let r = Input {
            stream: self.stream.clone(),
            current: self.current.duplicate(),
            history,
            pending,
        };
        assert(r.history_view() =~= self.history_view());
        assert(r.pending_view() =~= self.pending_view());
        r
    }

    /// Hands in one more line of text, read after all the others: its
    /// tokens come after all those still to come.
    pub fn feed_line(&mut self, line: String)
        ensures
            final(self).stream == old(self).stream,
            final(self).current == old(self).current,
            final(self).history == old(self).history,
            final(self).pending@ == old(self).pending@.push(line),
            final(self).raw_upcoming() == old(self).raw_upcoming() + lex_raw(line@, Seq::empty()),
            final(self).upcoming() == old(self).upcoming() + line_tokens(line@),
    {
        let ghost l = line@;
        let ghost p = self.pending_view();
        self.pending.push_back(line);
        proof {
            assert(self.pending_view() =~= p.push(l));
            lemma_lex_raw_push(self.stream@, p, l);
            assert(self.raw_upcoming() =~= old(self).raw_upcoming() + lex_raw(l, Seq::empty()));
            lemma_drop_spaces_append(old(self).raw_upcoming(), lex_raw(l, Seq::empty()));
        }
    }

    /// Drops the unread text and the tokens lexed ahead.
    fn flush_line(&mut self)
        ensures
            final(self).stream@.len() == 0,
            final(self).history@.len() == 0,
            final(self).current == old(self).current,
            final(self).pending == old(self).pending,
    {
        self.stream = String::new();
        self.history.clear();
    }

    /// Makes the first waiting line with text the unread text, where none is left.
    fn refill(&mut self)
        ensures
            lex_raw(final(self).stream@, final(self).pending_view()) == lex_raw(
                old(self).stream@,
                old(self).pending_view(),
            ),
            final(self).stream@.len() == 0 ==> final(self).pending@.len() == 0,
            final(self).current == old(self).current,
            final(self).history == old(self).history,
            skip_fresh(final(self).stream@, final(self).pending_view(), false) == skip_fresh(
                old(self).stream@,
                old(self).pending_view(),
                false,
            ),
    {
        while self.stream.as_str().is_empty() && self.pending.len() > 0
            invariant
                lex_raw(self.stream@, self.pending_view()) == lex_raw(
                    old(self).stream@,
                    old(self).pending_view(),
                ),
                skip_fresh(self.stream@, self.pending_view(), false) == skip_fresh(
                    old(self).stream@,
                    old(self).pending_view(),
                    false,
                ),
                self.current == old(self).current,
                self.history == old(self).history,
            decreases self.pending@.len(),
        {
            let ghost before = self.pending_view();
            let line = self.pending.pop_front().unwrap();
            assert(self.pending_view() =~= before.drop_first());
            self.stream = line;
        }
    }

    /// Tries the lexer's rules on the unread text; the first that matches
    /// gives the token and the number of characters it takes.
    pub fn re_match(&mut self) -> (r: RegexMatch)
        ensures
            *final(self) == *old(self),
            r.token@ == lex_one(old(self).stream@).0,
            r.token_len == lex_one(old(self).stream@).1,
            r.token_len <= old(self).stream@.len(),
            !(r.token@ is SyntaxError) ==> r.token_len > 0,
            r.token@ matches TokenV::Variable(n) ==> n == old(self).stream@.subrange(
                0,
                r.token_len as int,
            ),
            r.token@ matches TokenV::Float(n) ==> n == old(self).stream@.subrange(
                0,
                r.token_len as int,
            ),
    {
        let (token, token_len) = match_first_rule(self.stream.as_str());
        RegexMatch { token, token_len }
    }

    /// Lexes one token from the unread text, refilling it first; a lexical
    /// error drops the rest of the line and the lookahead queue.
    fn lex_fresh(&mut self) -> (t: Token)
        ensures
            final(self).current == old(self).current,
            t@ is SyntaxError ==> final(self).history@.len() == 0,
            !(t@ is SyntaxError) ==> final(self).history == old(self).history,
            ({
                let l = lex_raw(old(self).stream@, old(self).pending_view());
                if l.len() == 0 {
                    &&& t@ is EndOfInput
                    &&& final(self).stream@.len() == 0
                    &&& final(self).pending@.len() == 0
                    &&& lex_raw(final(self).stream@, final(self).pending_view()).len() == 0
                } else {
                    &&& t@ == l[0]
                    &&& lex_raw(final(self).stream@, final(self).pending_view()) == l.drop_first()
                }
            }),
            t@ is SyntaxError ==> final(self).stream@.len() == 0,
            (t@, final(self).stream@, final(self).pending_view()) == skip_fresh(
                old(self).stream@,
                old(self).pending_view(),
                false,
            ),
    {
        self.refill();
        if self.stream.as_str().is_empty() {
            assert(self.pending_view() =~= Seq::<Seq<char>>::empty());
            assert(self.stream@ =~= Seq::<char>::empty());
            return Token::EndOfInput;
        }
        let m = self.re_match();
        let ghost s = self.stream@;
        let ghost p = self.pending_view();
        if let Token::SyntaxError = m.token {
            self.flush_line();
            assert(self.stream@ =~= Seq::<char>::empty());
            assert(lex_raw(s, p) == seq![TokenV::SyntaxError] + lex_raw(Seq::empty(), p));
            assert((seq![TokenV::SyntaxError] + lex_raw(Seq::empty(), p)).drop_first()
                =~= lex_raw(Seq::empty(), p));
            Token::SyntaxError
        } else {
            let len = self.stream.as_str().unicode_len();
            let rest = self.stream.as_str().substring_char(m.token_len, len).to_owned();
            self.stream = rest;
            assert(lex_raw(s, p) == seq![m.token@] + lex_raw(self.stream@, p));
            assert((seq![m.token@] + lex_raw(self.stream@, p)).drop_first() =~= lex_raw(
                self.stream@,
                p,
            ));
            m.token
        }
    }

    /// Takes the next token, spaces included: from the lookahead queue if it
    /// holds one, else from the text.
    fn advance_raw(&mut self)
        ensures
            ({
                let r = old(self).raw_upcoming();
                if r.len() == 0 {
                    &&& final(self).current@ is EndOfInput
                    &&& final(self).raw_upcoming().len() == 0
                } else {
                    &&& final(self).current@ == r[0]
                    &&& final(self).raw_upcoming() == r.drop_first()
                }
            }),
            final(self).history@.len() == if old(self).history@.len() > 0 {
                old(self).history@.len() - 1
            } else {
                0
            },
            old(self).history@.len() == 0 && final(self).current@ is SyntaxError
                ==> final(self).stream@.len() == 0,
            old(self).history@.len() > 0 ==> {
                &&& final(self).current == old(self).history@[0]
                &&& final(self).history@ == old(self).history@.drop_first()
                &&& final(self).stream == old(self).stream
                &&& final(self).pending == old(self).pending
            },
            old(self).history@.len() == 0 ==> (
                final(self).current@,
                final(self).stream@,
                final(self).pending_view(),
            ) == skip_fresh(old(self).stream@, old(self).pending_view(), false),
    {
        let ghost h = self.history_view();
        let ghost l = lex_raw(self.stream@, self.pending_view());
        if self.history.len() > 0 {
            let t = self.history.pop_front().unwrap();
            assert(self.history@ =~= old(self).history@.drop_first());
            assert(self.history_view() =~= h.drop_first());
            assert((h + l).drop_first() =~= h.drop_first() + l);
            self.current = t;
        } else {
            assert(h =~= Seq::<TokenV>::empty());
            assert(h + l =~= l);
            let t = self.lex_fresh();
            assert(self.history_view() =~= Seq::<TokenV>::empty());
            assert(self.raw_upcoming() =~= lex_raw(self.stream@, self.pending_view()));
            self.current = t;
        }
    }

    /// Takes the next token and makes it the current one: from the lookahead
    /// queue if it holds one, else from the unread text, which is first
    /// refilled from the waiting lines where it is empty. With
    /// `skip_whitespace`, runs of spaces are passed over. Where no text is
    /// left the token is `EndOfInput`. A lexical error drops the rest of its
    /// line, so that the token after it comes from the next line.
    pub fn get_next_token(&mut self, skip_whitespace: bool) -> (r: &Token)
        ensures
            ({
                let u = if skip_whitespace {
                    old(self).upcoming()
                } else {
                    old(self).raw_upcoming()
                };
                let v = if skip_whitespace {
                    final(self).upcoming()
                } else {
                    final(self).raw_upcoming()
                };
                if u.len() == 0 {
                    &&& final(self).current@ is EndOfInput
                    &&& v.len() == 0
                } else {
                    &&& final(self).current@ == u[0]
                    &&& v == u.drop_first()
                }
            }),
            *r == final(self).current,
            final(self).history@.len() < old(self).history@.len()
                || final(self).history@.len() == 0,
            old(self).history@.len() == 0 ==> final(self).history@.len() == 0,
            old(self).history@.len() == 0 && final(self).current@ is SyntaxError
                ==> final(self).stream@.len() == 0,
            (
                final(self).current@,
                final(self).history_view(),
                final(self).stream@,
                final(self).pending_view(),
            ) == take_spec(
                old(self).history_view(),
                old(self).stream@,
                old(self).pending_view(),
                skip_whitespace,
            ),
            old(self).history@.len() > 0 && !(skip_whitespace && old(self).history@[0]@ is WhiteSpace)
                ==> {
                &&& final(self).current == old(self).history@[0]
                &&& final(self).history@ == old(self).history@.drop_first()
                &&& final(self).stream == old(self).stream
                &&& final(self).pending == old(self).pending
            },
    {
        let ghost u0 = self.upcoming();
        let ghost h0 = self.history@.len();
        let ghost t0 = take_spec(
            self.history_view(),
            self.stream@,
            self.pending_view(),
            skip_whitespace,
        );
        let ghost mut before = self.raw_upcoming();
        let ghost s0 = self.stream@;
        let ghost p0 = self.pending_view();
        let ghost hv0 = self.history_view();
        self.advance_raw();
        proof {
            if hv0.len() == 0 {
                lemma_skip_fresh_step(s0, p0);
                assert(self.history_view() =~= hv0);
            } else {
                assert(self.history_view() =~= hv0.drop_first());
            }
        }
        while skip_whitespace && self.current.is_whitespace()
            invariant
                drop_spaces(before) == u0,
                u0 == old(self).upcoming(),
                !skip_whitespace ==> before == old(self).raw_upcoming(),
                before.len() == 0 ==> self.current@ is EndOfInput && self.raw_upcoming().len()
                    == 0,
                before.len() > 0 ==> self.current@ == before[0] && self.raw_upcoming()
                    == before.drop_first(),
                self.history@.len() < h0 || self.history@.len() == 0,
                h0 == 0 ==> self.history@.len() == 0,
                h0 == 0 && self.current@ is SyntaxError ==> self.stream@.len() == 0,
                t0 == take_spec(
                    old(self).history_view(),
                    old(self).stream@,
                    old(self).pending_view(),
                    skip_whitespace,
                ),
                skip_whitespace && self.current@ is WhiteSpace ==> t0 == take_spec(
                    self.history_view(),
                    self.stream@,
                    self.pending_view(),
                    skip_whitespace,
                ),
                !(skip_whitespace && self.current@ is WhiteSpace) ==> t0 == (
                    self.current@,
                    self.history_view(),
                    self.stream@,
                    self.pending_view(),
                ),
                old(self).history@.len() > 0 && !(skip_whitespace
                    && old(self).history@[0]@ is WhiteSpace) ==> {
                    &&& self.current == old(self).history@[0]
                    &&& self.history@ == old(self).history@.drop_first()
                    &&& self.stream == old(self).stream
                    &&& self.pending == old(self).pending
                },
            decreases self.raw_upcoming().len() + if self.current@ is WhiteSpace {
                1int
            } else {
                0int
            },
        {
            proof {
                before = self.raw_upcoming();
            }
            let ghost s1 = self.stream@;
            let ghost p1 = self.pending_view();
            let ghost hv1 = self.history_view();
            self.advance_raw();
            proof {
                if hv1.len() == 0 {
                    lemma_skip_fresh_step(s1, p1);
                    assert(self.history_view() =~= hv1);
                } else {
                    assert(self.history_view() =~= hv1.drop_first());
                }
            }
        }
        proof {
            if skip_whitespace && before.len() > 0 {
                assert(drop_spaces(before) == seq![before[0]] + drop_spaces(before.drop_first()));
                assert((seq![before[0]] + drop_spaces(before.drop_first())).drop_first()
                    =~= drop_spaces(before.drop_first()));
            }
        }
        &self.current
    }

    /// Lexes one token ahead of the lookahead queue and appends it there, so
    /// that a later `get_next_token` takes it; with `ignore_whitespace`, runs
    /// of spaces are passed over first. Where no text is left nothing is
    /// queued and the token is `EndOfInput`. A lexical error drops the rest of
    /// its line and the tokens queued before it.
    pub fn look_ahead(&mut self, ignore_whitespace: bool) -> (r: Token)
        ensures
            ({
                let u = if ignore_whitespace {
                    old(self).upcoming()
                } else {
                    old(self).raw_upcoming()
                };
                let v = if ignore_whitespace {
                    final(self).upcoming()
                } else {
                    final(self).raw_upcoming()
                };
                let k = if ignore_whitespace {
                    drop_spaces(old(self).history_view()).len()
                } else {
                    old(self).history_view().len()
                };
                if u.len() <= k {
                    &&& r@ is EndOfInput
                    &&& v == u
                } else if r@ is SyntaxError {
                    &&& r@ == u[k as int]
                    &&& v == u.skip(k as int)
                } else {
                    &&& r@ == u[k as int]
                    &&& v == u
                }
            }),
            final(self).current == old(self).current,
            final(self).history@.len() <= old(self).history@.len() + 1,
            (r@, final(self).stream@, final(self).pending_view()) == skip_fresh(
                old(self).stream@,
                old(self).pending_view(),
                ignore_whitespace,
            ),
            r@ is EndOfInput ==> final(self).history == old(self).history,
            r@ is SyntaxError ==> {
                &&& final(self).stream@.len() == 0
                &&& final(self).history@.len() == 1
                &&& final(self).history@[0]@ is SyntaxError
            },
            !(r@ is EndOfInput || r@ is SyntaxError) ==> {
                &&& final(self).history@.len() == old(self).history@.len() + 1
                &&& final(self).history@.drop_last() == old(self).history@
                &&& final(self).history@.last()@ == r@
            },
    {
        let ghost hv = self.history_view();
        let ghost f0 = skip_fresh(self.stream@, self.pending_view(), ignore_whitespace);
        let ghost s0 = self.stream@;
        let ghost p0 = self.pending_view();
        let ghost l0 = lex_raw(self.stream@, self.pending_view());
        let ghost mut before = l0;
        proof {
            lemma_lex_raw_no_end(self.stream@, self.pending_view());
        }
        let mut t = self.lex_fresh();
        proof {
            lemma_skip_fresh_step(s0, p0);
        }
        while ignore_whitespace && t.is_whitespace()
            invariant
                f0 == skip_fresh(old(self).stream@, old(self).pending_view(), ignore_whitespace),
                ignore_whitespace && t@ is WhiteSpace ==> f0 == skip_fresh(
                    self.stream@,
                    self.pending_view(),
                    true,
                ),
                !(ignore_whitespace && t@ is WhiteSpace) ==> f0 == (
                    t@,
                    self.stream@,
                    self.pending_view(),
                ),
                !(t@ is SyntaxError) ==> self.history == old(self).history,
                t@ is SyntaxError ==> self.stream@.len() == 0,
                drop_spaces(before) == drop_spaces(l0),
                !ignore_whitespace ==> before == l0,
                self.current == old(self).current,
                before.len() == 0 ==> t@ is EndOfInput && lex_raw(
                    self.stream@,
                    self.pending_view(),
                ).len() == 0,
                before.len() > 0 ==> t@ == before[0] && lex_raw(self.stream@, self.pending_view())
                    == before.drop_first(),
                t@ is SyntaxError ==> self.history@.len() == 0,
                !(t@ is SyntaxError) ==> self.history_view() == hv,
                no_end(before),
            decreases lex_raw(self.stream@, self.pending_view()).len() + if t@ is WhiteSpace {
                1int
            } else {
                0int
            },
        {
            proof {
                before = lex_raw(self.stream@, self.pending_view());
                lemma_lex_raw_no_end(self.stream@, self.pending_view());
                lemma_skip_fresh_step(self.stream@, self.pending_view());
            }
            t = self.lex_fresh();
        }
        let ghost rest = lex_raw(self.stream@, self.pending_view());
        proof {
            lemma_drop_spaces_append(hv, l0);
            if ignore_whitespace && before.len() > 0 {
                assert(drop_spaces(before) == seq![before[0]] + drop_spaces(before.drop_first()));
            }
        }
        if let Token::EndOfInput = t {
            assert(before.len() == 0);
            return t;
        }
        let r = t.duplicate();
        self.history.push_back(t);
        proof {
            let nh = self.history_view();
            if r@ is SyntaxError {
                assert(self.history@.len() == 1);
                assert(nh =~= seq![r@]);
                assert(self.history@[0]@ == nh[0]);
                assert(before =~= seq![before[0]] + before.drop_first());
                assert(self.raw_upcoming() =~= before);
                assert((hv + l0).skip(hv.len() as int) =~= l0);
                assert((drop_spaces(hv) + drop_spaces(l0)).skip(drop_spaces(hv).len() as int)
                    =~= drop_spaces(l0));
            } else {
                assert(self.history@.drop_last() =~= old(self).history@);
                assert(nh =~= hv.push(r@));
                assert(self.raw_upcoming() =~= hv + before);
                lemma_drop_spaces_append(hv, before);
            }
        }
        r
    }
}

/// The tokens of one line of text, without spaces.
pub open spec fn line_tokens(line: Seq<char>) -> Seq<TokenV> {
    drop_spaces(lex_raw(line, Seq::empty()))
}

/// Each line is lexed on its own: a line handed in after the others adds its
/// tokens after theirs.
pub proof fn lemma_lex_raw_push(text: Seq<char>, lines: Seq<Seq<char>>, line: Seq<char>)
    ensures
        lex_raw(text, lines.push(line)) == lex_raw(text, lines) + lex_raw(line, Seq::empty()),
    decreases lines.len(), text.len(),
{
    if text.len() == 0 {
        if lines.len() == 0 {
            assert(lines.push(line)[0] == line);
            assert(lines.push(line).drop_first() =~= Seq::<Seq<char>>::empty());
            assert(lex_raw(text, lines) =~= Seq::<TokenV>::empty());
            assert(lex_raw(text, lines) + lex_raw(line, Seq::empty()) =~= lex_raw(
                line,
                Seq::empty(),
            ));
        } else {
            assert(lines.push(line)[0] == lines[0]);
            assert(lines.push(line).drop_first() =~= lines.drop_first().push(line));
            lemma_lex_raw_push(lines[0], lines.drop_first(), line);
        }
    } else {
        let (t, n) = lex_one(text);
        if t is SyntaxError || n == 0 || n > text.len() {
            lemma_lex_raw_push(Seq::empty(), lines, line);
            assert(seq![TokenV::SyntaxError] + (lex_raw(Seq::empty(), lines) + lex_raw(
                line,
                Seq::empty(),
            )) =~= seq![TokenV::SyntaxError] + lex_raw(Seq::empty(), lines) + lex_raw(
                line,
                Seq::empty(),
            ));
        } else {
            let rest = text.subrange(n as int, text.len() as int);
            lemma_lex_raw_push(rest, lines, line);
            assert(seq![t] + (lex_raw(rest, lines) + lex_raw(line, Seq::empty())) =~= seq![t]
                + lex_raw(rest, lines) + lex_raw(line, Seq::empty()));
        }
    }
}

/// Whether `toks` holds no `EndOfInput`.
pub open spec fn no_end(toks: Seq<TokenV>) -> bool {
    forall|i: int| 0 <= i < toks.len() ==> !(#[trigger] toks[i] is EndOfInput)
}

/// No text lexes to `EndOfInput`.
pub proof fn lemma_lex_raw_no_end(text: Seq<char>, lines: Seq<Seq<char>>)
    ensures
        no_end(lex_raw(text, lines)),
    decreases lines.len(), text.len(),
{
    if text.len() == 0 {
        if lines.len() > 0 {
            lemma_lex_raw_no_end(lines[0], lines.drop_first());
        }
    } else {
        let (t, n) = lex_one(text);
        lemma_lex_raw_no_end(Seq::empty(), lines);
        if t is SyntaxError || n == 0 || n > text.len() {
            let a = seq![TokenV::SyntaxError];
            let b = lex_raw(Seq::<char>::empty(), lines);
            assert(forall|i: int| 0 <= i < (a + b).len() ==> #[trigger] (a + b)[i] == if i == 0 {
                a[0]
            } else {
                b[i - 1]
            });
        } else {
            let rest = text.subrange(n as int, text.len() as int);
            lemma_lex_raw_no_end(rest, lines);
            let a = seq![t];
            let b = lex_raw(rest, lines);
            assert(forall|i: int| 0 <= i < (a + b).len() ==> #[trigger] (a + b)[i] == if i == 0 {
                a[0]
            } else {
                b[i - 1]
            });
        }
    }
}

} // verus!
