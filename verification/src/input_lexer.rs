//! The input lexer: tokenizes the learner's typed answer.
//!
//! Unlike the pattern lexer it is total: every input string produces a
//! token sequence. Quoted text (`"..."` or `'...'`) becomes a plain string
//! token with no escape processing, and an unterminated quote leniently
//! reads to the end of the input. `--name` is a long flag, `-c` a short
//! flag, `-ab` a combo, and a lone `-` is the string `"-"` (the shell
//! idiom `cd -`). Any other run up to a space is a plain string.

use vstd::prelude::*;

use crate::text::{chars_of, dash_char, is_space, lemma_run_end, run_end, space_pred, string_from_chars};

verus! {

/// One token of a typed answer.
#[derive(Debug, PartialEq, Clone)]
pub enum Token {
    FlagShort(char),
    FlagCombo(Vec<char>),
    FlagLong(String),
    Str(String),
}

/// The mathematical shape of an input [`Token`].
pub enum TokenV {
    FlagShort(char),
    FlagCombo(Seq<char>),
    FlagLong(Seq<char>),
    Str(Seq<char>),
}

impl View for Token {
    type V = TokenV;

    open spec fn view(&self) -> TokenV {
        match self {
            Token::FlagShort(c) => TokenV::FlagShort(*c),
            Token::FlagCombo(v) => TokenV::FlagCombo(v@),
            Token::FlagLong(v) => TokenV::FlagLong(v@),
            Token::Str(v) => TokenV::Str(v@),
        }
    }
}

pub open spec fn input_tokens_view(ts: Seq<Token>) -> Seq<TokenV> {
    ts.map_values(|t: Token| t@)
}

/// The index of the first `quote` character at or after `i`, or the end
/// of the input when the quote is never closed.
pub open spec fn quote_end(s: Seq<char>, i: int, quote: char) -> int
    decreases s.len() - i,
        when 0 <= i <= s.len()
{
    if i < s.len() && s[i] != quote {
        quote_end(s, i + 1, quote)
    } else {
        i
    }
}

pub proof fn lemma_quote_end(s: Seq<char>, i: int, quote: char)
    requires
        0 <= i <= s.len(),
    ensures
        i <= quote_end(s, i, quote) <= s.len(),
        forall|k: int| i <= k < quote_end(s, i, quote) ==> s[k] != quote,
        quote_end(s, i, quote) == s.len() || s[quote_end(s, i, quote)] == quote,
    decreases s.len() - i,
{
    if i < s.len() && s[i] != quote {
        lemma_quote_end(s, i + 1, quote);
    }
}

/// The index just past the run of non-space characters starting at `i`.
pub open spec fn word_end(s: Seq<char>, i: int) -> int
    decreases s.len() - i,
        when 0 <= i <= s.len()
{
    if i < s.len() && s[i] != ' ' {
        word_end(s, i + 1)
    } else {
        i
    }
}

pub proof fn lemma_word_end(s: Seq<char>, i: int)
    requires
        0 <= i <= s.len(),
    ensures
        i <= word_end(s, i) <= s.len(),
        forall|k: int| i <= k < word_end(s, i) ==> s[k] != ' ',
        word_end(s, i) == s.len() || s[word_end(s, i)] == ' ',
    decreases s.len() - i,
{
    if i < s.len() && s[i] != ' ' {
        lemma_word_end(s, i + 1);
    }
}

/// The short-flag token whose character stands at position `i`. (A named
/// helper: a raw index inside the recursive definition below defeats the
/// solver's unfolding.)
pub open spec fn short_flag_at(s: Seq<char>, i: int) -> TokenV {
    TokenV::FlagShort(s[i])
}

/// The tokens of the typed answer `s` from position `i` on. Total: every
/// input has a token sequence.
pub open spec fn spec_input_lex_at(s: Seq<char>, i: int) -> Seq<TokenV>
    decreases s.len() - i,
        via spec_input_lex_at_dec
{
    if i < 0 || i >= s.len() {
        Seq::empty()
    } else {
        let c = s[i];
        if is_space(c) {
            spec_input_lex_at(s, i + 1)
        } else if c == '"' || c == '\'' {
            let j = quote_end(s, i + 1, c);
            let k = if j < s.len() { j + 1 } else { j };
            seq![TokenV::Str(s.subrange(i + 1, j))] + spec_input_lex_at(s, k)
        } else if c == '-' {
            if i + 1 < s.len() && s[i + 1] == '-' {
                let j = word_end(s, i + 2);
                seq![TokenV::FlagLong(s.subrange(i + 2, j))] + spec_input_lex_at(s, j)
            } else if i + 1 >= s.len() || s[i + 1] == ' ' {
                seq![TokenV::Str(seq!['-'])] + spec_input_lex_at(s, i + 1)
            } else {
                let j = word_end(s, i + 1);
                if j == i + 2 {
                    seq![short_flag_at(s, i + 1)] + spec_input_lex_at(s, j)
                } else {
                    seq![TokenV::FlagCombo(s.subrange(i + 1, j))] + spec_input_lex_at(s, j)
                }
            }
        } else {
            let j = word_end(s, i);
            seq![TokenV::Str(s.subrange(i, j))] + spec_input_lex_at(s, j)
        }
    }
}

#[via_fn]
proof fn spec_input_lex_at_dec(s: Seq<char>, i: int) {
    if 0 <= i && i < s.len() {
        assert(0 <= i + 1 <= s.len());
        let c = s[i];
        if c == '"' || c == '\'' {
            lemma_quote_end(s, i + 1, c);
        } else if c == '-' {
            if i + 1 < s.len() && s[i + 1] == '-' {
                lemma_word_end(s, i + 2);
            } else if i + 1 < s.len() && s[i + 1] != ' ' {
                lemma_word_end(s, i + 1);
                assert(word_end(s, i + 1) == word_end(s, i + 2));
            }
        } else if !is_space(c) {
            lemma_word_end(s, i + 1);
            assert(word_end(s, i) == word_end(s, i + 1));
        }
    }
}

/// The tokens of the whole typed answer `s`.
pub open spec fn spec_input_lex(s: Seq<char>) -> Seq<TokenV> {
    spec_input_lex_at(s, 0)
}

/// Tokenizing an answer is a function of the answer text alone: two
/// results of it on the same string are equal token sequences.
pub proof fn lemma_input_lex_idempotent(s: Seq<char>, t1: Seq<TokenV>, t2: Seq<TokenV>)
    requires
        t1 == spec_input_lex(s),
        t2 == spec_input_lex(s),
    ensures
        t1 == t2,
{
}

/// Skipping spaces does not change what is lexed.
pub proof fn lemma_input_lex_skip_spaces(s: Seq<char>, i: int)
    requires
        0 <= i <= s.len(),
    ensures
        spec_input_lex_at(s, i) == spec_input_lex_at(s, run_end(s, i, space_pred())),
    decreases s.len() - i,
{
    if i < s.len() && is_space(s[i]) {
        assert(space_pred()(s[i]));
        assert(run_end(s, i, space_pred()) == run_end(s, i + 1, space_pred()));
        lemma_input_lex_skip_spaces(s, i + 1);
    } else {
        assert(run_end(s, i, space_pred()) == i);
    }
}

/// What an input token looks like when rendered back to text: a short
/// flag `-c`, a combo `-cs`, a long flag `--name`, a plain string itself.
/// This is exactly the text the match report shows for a leftover token.
pub open spec fn spec_render_input_token(t: TokenV) -> Seq<char> {
    match t {
        TokenV::FlagShort(c) => dash_char(c),
        TokenV::FlagCombo(cs) => seq!['-'] + cs,
        TokenV::FlagLong(n) => seq!['-', '-'] + n,
        TokenV::Str(v) => v,
    }
}

impl Token {
    /// Tells whether this token is a plain string.
    pub fn is_str(&self) -> (r: bool)
        ensures
            r == (self@ is Str),
    {
        match self {
            Token::Str(_) => true,
            _ => false,
        }
    }

    /// This token's rendering, as the match report shows it.
    pub fn render(&self) -> (r: String)
        ensures
            r@ == spec_render_input_token(self@),
    {
        let cs: Vec<char> = match self {
            Token::FlagShort(c) => {
                let mut v: Vec<char> = Vec::new();
                v.push('-');
                v.push(*c);
                proof {
                    assert(v@ =~= dash_char(*c));
                }
                v
            },
            Token::FlagCombo(chars) => {
                let mut v: Vec<char> = Vec::new();
                v.push('-');
                let mut mid = chars.clone();
                v.append(&mut mid);
                proof {
                    assert(v@ =~= seq!['-'] + chars@);
                }
                v
            },
            Token::FlagLong(n) => {
                let mut v: Vec<char> = Vec::new();
                v.push('-');
                v.push('-');
                let mut mid = chars_of(n.as_str());
                v.append(&mut mid);
                proof {
                    assert(v@ =~= seq!['-', '-'] + n@);
                }
                v
            },
            Token::Str(text) => chars_of(text.as_str()),
        };
        string_from_chars(&cs)
    }
}

/// The input lexer's cursor over the typed answer.
pub struct InputCmdLexer {
    chars: Vec<char>,
    pos: usize,
}

impl InputCmdLexer {
    pub closed spec fn wf(&self) -> bool {
        self.pos <= self.chars@.len()
    }

    /// Tokenizes a whole typed answer. Total: there is no failure mode.
    pub fn compile(input: &str) -> (r: Vec<Token>)
        ensures
            input_tokens_view(r@) == spec_input_lex(input@),
    {
        let chars = chars_of(input);
        let ghost s = chars@;
        let mut lexer = InputCmdLexer { chars, pos: 0 };
        let mut tokens: Vec<Token> = Vec::new();
        loop
            invariant
                lexer.wf(),
                lexer.chars@ == s,
                s == input@,
                input_tokens_view(tokens@) + spec_input_lex_at(s, lexer.pos as int)
                    == spec_input_lex(s),
            decreases s.len() - lexer.pos,
        {
            let ghost pre = input_tokens_view(tokens@);
            let ghost p0 = lexer.pos as int;
            match lexer.next_token() {
                Some(t) => {
                    proof {
                        let rest = spec_input_lex_at(s, lexer.pos as int);
                        assert(pre + (seq![t@] + rest) =~= pre.push(t@) + rest);
                        assert(input_tokens_view(tokens@.push(t)) =~= pre.push(t@));
                    }
                    tokens.push(t);
                },
                None => {
                    proof {
                        assert(pre + Seq::<TokenV>::empty() =~= pre);
                    }
                    return tokens;
                },
            }
        }
    }

    /// Advances past spaces.
    fn skip_whitespace(&mut self)
        requires
            old(self).wf(),
        ensures
            final(self).wf(),
            final(self).chars@ == old(self).chars@,
            final(self).pos as int == run_end(final(self).chars@, old(self).pos as int, space_pred()),
    {
        let ghost s = self.chars@;
        let ghost p0 = self.pos as int;
        while self.pos < self.chars.len() && self.chars[self.pos] == ' '
            invariant
                0 <= p0 <= self.pos as int <= s.len(),
                self.chars@ == s,
                run_end(s, p0, space_pred()) == run_end(s, self.pos as int, space_pred()),
            decreases s.len() - self.pos,
        {
            proof {
                assert(space_pred()(s[self.pos as int]));
                assert(run_end(s, self.pos as int, space_pred()) == run_end(
                    s,
                    self.pos + 1,
                    space_pred(),
                ));
            }
            self.pos = self.pos + 1;
        }
        proof {
            assert(run_end(s, self.pos as int, space_pred()) == self.pos as int);
        }
    }

    /// Reads the run of non-space characters from the cursor.
    fn read_str(&mut self) -> (out: Vec<char>)
        requires
            old(self).wf(),
        ensures
            final(self).wf(),
            final(self).chars@ == old(self).chars@,
            final(self).pos as int == word_end(final(self).chars@, old(self).pos as int),
            out@ == final(self).chars@.subrange(old(self).pos as int, final(self).pos as int),
    {
        let ghost s = self.chars@;
        let ghost p0 = self.pos as int;
        let mut out: Vec<char> = Vec::new();
        while self.pos < self.chars.len() && self.chars[self.pos] != ' '
            invariant
                0 <= p0 <= self.pos as int <= s.len(),
                self.chars@ == s,
                word_end(s, p0) == word_end(s, self.pos as int),
                out@ == s.subrange(p0, self.pos as int),
            decreases s.len() - self.pos,
        {
            proof {
                assert(word_end(s, self.pos as int) == word_end(s, self.pos + 1));
            }
            out.push(self.chars[self.pos]);
            proof {
                assert(out@ =~= s.subrange(p0, self.pos + 1));
            }
            self.pos = self.pos + 1;
        }
        proof {
            assert(word_end(s, self.pos as int) == self.pos as int);
        }
        out
    }

    /// Reads characters up to the closing `quote`, or to the end of the
    /// input when the quote is never closed.
    fn read_input(&mut self, quote: char) -> (out: Vec<char>)
        requires
            old(self).wf(),
        ensures
            final(self).wf(),
            final(self).chars@ == old(self).chars@,
            final(self).pos as int == quote_end(final(self).chars@, old(self).pos as int, quote),
            out@ == final(self).chars@.subrange(old(self).pos as int, final(self).pos as int),
    {
        let ghost s = self.chars@;
        let ghost p0 = self.pos as int;
        let mut out: Vec<char> = Vec::new();
        while self.pos < self.chars.len() && self.chars[self.pos] != quote
            invariant
                0 <= p0 <= self.pos as int <= s.len(),
                self.chars@ == s,
                quote_end(s, p0, quote) == quote_end(s, self.pos as int, quote),
                out@ == s.subrange(p0, self.pos as int),
            decreases s.len() - self.pos,
        {
            proof {
                assert(quote_end(s, self.pos as int, quote) == quote_end(s, self.pos + 1, quote));
            }
            out.push(self.chars[self.pos]);
            proof {
                assert(out@ =~= s.subrange(p0, self.pos + 1));
            }
            self.pos = self.pos + 1;
        }
        proof {
            assert(quote_end(s, self.pos as int, quote) == self.pos as int);
        }
        out
    }

    /// The next token at the cursor, or `None` at the end of the input.
    fn next_token(&mut self) -> (r: Option<Token>)
        requires
            old(self).wf(),
        ensures
            final(self).wf(),
            final(self).chars@ == old(self).chars@,
            match r {
                Some(t) => old(self).pos < final(self).pos
                    && spec_input_lex_at(final(self).chars@, old(self).pos as int)
                    == seq![t@] + spec_input_lex_at(final(self).chars@, final(self).pos as int),
                None => final(self).pos == final(self).chars@.len()
                    && spec_input_lex_at(final(self).chars@, old(self).pos as int)
                    == Seq::<TokenV>::empty(),
            },
    {
        let ghost s = self.chars@;
        let ghost p0 = self.pos as int;
        self.skip_whitespace();
        proof {
            lemma_input_lex_skip_spaces(s, p0);
            lemma_run_end(s, p0, space_pred());
        }
        if self.pos == self.chars.len() {
            return None;
        }
        let start = self.pos;
        let ghost p = start as int;
        let c = self.chars[start];
        proof {
            assert(!space_pred()(s[p]));
        }
        if c == '"' || c == '\'' {
            self.pos = self.pos + 1;
            let value = self.read_input(c);
            proof {
                lemma_quote_end(s, p + 1, c);
            }
            // Skip the closing quote, if the quote was closed at all.
            if self.pos < self.chars.len() {
                self.pos = self.pos + 1;
            }
            proof {
                assert(spec_input_lex_at(s, p) == seq![TokenV::Str(value@)]
                    + spec_input_lex_at(s, self.pos as int));
            }
            Some(Token::Str(string_from_chars(&value)))
        } else if c == '-' {
            if start + 1 < self.chars.len() && self.chars[start + 1] == '-' {
                self.pos = self.pos + 2;
                let value = self.read_str();
                proof {
                    lemma_word_end(s, p + 2);
                }
                proof {
                    assert(spec_input_lex_at(s, p) == seq![TokenV::FlagLong(value@)]
                        + spec_input_lex_at(s, self.pos as int));
                }
                Some(Token::FlagLong(string_from_chars(&value)))
            } else if start + 1 >= self.chars.len() || self.chars[start + 1] == ' ' {
                self.pos = self.pos + 1;
                let dash = vec!['-'];
                proof {
                    assert(dash@ =~= seq!['-']);
                }
                proof {
                    assert(spec_input_lex_at(s, p) == seq![TokenV::Str(seq!['-'])]
                        + spec_input_lex_at(s, self.pos as int));
                }
                Some(Token::Str(string_from_chars(&dash)))
            } else {
                self.pos = self.pos + 1;
                let value = self.read_str();
                proof {
                    lemma_word_end(s, p + 1);
                    assert(word_end(s, p + 1) == word_end(s, p + 2));
                }
                if value.len() == 1 {
                    proof {
                        assert(short_flag_at(s, p + 1) == TokenV::FlagShort(s[p + 1]));
                        assert(spec_input_lex_at(s, p) == seq![short_flag_at(s, p + 1)]
                            + spec_input_lex_at(s, self.pos as int));
                    }
                    Some(Token::FlagShort(value[0]))
                } else {
                    proof {
                        assert(spec_input_lex_at(s, p) == seq![TokenV::FlagCombo(value@)]
                            + spec_input_lex_at(s, self.pos as int));
                    }
                    Some(Token::FlagCombo(value))
                }
            }
        } else {
            let value = self.read_str();
            proof {
                lemma_word_end(s, p);
                assert(word_end(s, p) == word_end(s, p + 1));
            }
            proof {
                assert(spec_input_lex_at(s, p) == seq![TokenV::Str(value@)]
                    + spec_input_lex_at(s, self.pos as int));
            }
            Some(Token::Str(string_from_chars(&value)))
        }
    }
}

} // verus!
