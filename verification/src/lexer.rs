//! The pattern lexer: turns a grammar string into a token sequence.
//!
//! Single-character lookahead, no backtracking, maximal munch for runs:
//! brackets and angle brackets become their own tokens, `--name` a long
//! flag, `-c` a short flag, `-abc` a flag combo, a run of dots `Multiple`,
//! `|` `Or`, and a run of letters, dashes and underscores that starts with
//! a letter a literal. Spaces separate tokens. A character that starts no
//! token is reported as a recoverable [`CompileError::IllegalToken`].

use vstd::prelude::*;

use crate::error::CompileError;
use crate::text::{
    chars_of, dot_pred, flag_char, flag_pred, is_dot, is_letter, is_space, lemma_run_end,
    letter_char, run_end, space_pred, str_char, str_pred, string_from_chars,
};

verus! {

/// One lexical unit of a pattern string.
#[derive(Debug, PartialEq, Clone)]
pub enum Token {
    LSq,
    RSq,
    LAr,
    RAr,
    FlagShort(String),
    FlagCombo(String),
    FlagLong(String),
    Multiple,
    Or,
    Str(String),
}

/// The mathematical shape of a [`Token`]: the same constructors over
/// character sequences.
pub enum TokenV {
    LSq,
    RSq,
    LAr,
    RAr,
    FlagShort(Seq<char>),
    FlagCombo(Seq<char>),
    FlagLong(Seq<char>),
    Multiple,
    Or,
    Str(Seq<char>),
}

impl View for Token {
    type V = TokenV;

    open spec fn view(&self) -> TokenV {
        match self {
            Token::LSq => TokenV::LSq,
            Token::RSq => TokenV::RSq,
            Token::LAr => TokenV::LAr,
            Token::RAr => TokenV::RAr,
            Token::FlagShort(v) => TokenV::FlagShort(v@),
            Token::FlagCombo(v) => TokenV::FlagCombo(v@),
            Token::FlagLong(v) => TokenV::FlagLong(v@),
            Token::Multiple => TokenV::Multiple,
            Token::Or => TokenV::Or,
            Token::Str(v) => TokenV::Str(v@),
        }
    }
}

pub open spec fn tokens_view(ts: Seq<Token>) -> Seq<TokenV> {
    ts.map_values(|t: Token| t@)
}

/// What the lexer guarantees of each token it emits: a short flag holds
/// exactly one character, a combo at least two.
pub open spec fn wf_token(t: TokenV) -> bool {
    match t {
        TokenV::FlagShort(v) => v.len() == 1,
        TokenV::FlagCombo(v) => v.len() >= 2,
        _ => true,
    }
}

pub open spec fn wf_tokens(ts: Seq<TokenV>) -> bool {
    forall|k: int| 0 <= k < ts.len() ==> wf_token(#[trigger] ts[k])
}

/// Prepends a token to the rest of a lexing result.
pub open spec fn lex_cons(t: TokenV, rest: Result<Seq<TokenV>, CompileError>) -> Result<
    Seq<TokenV>,
    CompileError,
> {
    match rest {
        Ok(v) => Ok(seq![t] + v),
        Err(e) => Err(e),
    }
}

/// Prepends already-lexed tokens to the rest of a lexing result.
pub open spec fn lex_app(pre: Seq<TokenV>, rest: Result<Seq<TokenV>, CompileError>) -> Result<
    Seq<TokenV>,
    CompileError,
> {
    match rest {
        Ok(v) => Ok(pre + v),
        Err(e) => Err(e),
    }
}

/// The tokens of `s` from position `i` on: the single definition that
/// [`CmdLexer::compile`] is proved against.
pub open spec fn spec_lex_at(s: Seq<char>, i: int) -> Result<Seq<TokenV>, CompileError>
    decreases s.len() - i,
        when 0 <= i <= s.len()
        via spec_lex_at_dec
{
    if i >= s.len() {
        Ok(Seq::empty())
    } else {
        let c = s[i];
        if is_space(c) {
            spec_lex_at(s, i + 1)
        } else if c == '[' {
            lex_cons(TokenV::LSq, spec_lex_at(s, i + 1))
        } else if c == ']' {
            lex_cons(TokenV::RSq, spec_lex_at(s, i + 1))
        } else if c == '<' {
            lex_cons(TokenV::LAr, spec_lex_at(s, i + 1))
        } else if c == '>' {
            lex_cons(TokenV::RAr, spec_lex_at(s, i + 1))
        } else if c == '|' {
            lex_cons(TokenV::Or, spec_lex_at(s, i + 1))
        } else if is_dot(c) {
            lex_cons(TokenV::Multiple, spec_lex_at(s, run_end(s, i, dot_pred())))
        } else if c == '-' {
            if i + 1 < s.len() && s[i + 1] == '-' {
                let j = run_end(s, i + 2, flag_pred());
                lex_cons(TokenV::FlagLong(s.subrange(i + 2, j)), spec_lex_at(s, j))
            } else {
                let j = run_end(s, i + 1, flag_pred());
                if j == i + 1 {
                    Err(CompileError::IllegalToken { position: i as usize })
                } else if j == i + 2 {
                    lex_cons(TokenV::FlagShort(s.subrange(i + 1, j)), spec_lex_at(s, j))
                } else {
                    lex_cons(TokenV::FlagCombo(s.subrange(i + 1, j)), spec_lex_at(s, j))
                }
            }
        } else if is_letter(c) {
            let j = run_end(s, i, str_pred());
            lex_cons(TokenV::Str(s.subrange(i, j)), spec_lex_at(s, j))
        } else {
            Err(CompileError::IllegalToken { position: i as usize })
        }
    }
}

#[via_fn]
proof fn spec_lex_at_dec(s: Seq<char>, i: int) {
    if 0 <= i && i < s.len() {
        let c = s[i];
        if is_dot(c) {
            lemma_run_end(s, i + 1, dot_pred());
            assert(run_end(s, i, dot_pred()) == run_end(s, i + 1, dot_pred()));
        } else if c == '-' {
            if i + 1 < s.len() && s[i + 1] == '-' {
                lemma_run_end(s, i + 2, flag_pred());
            } else {
                lemma_run_end(s, i + 1, flag_pred());
            }
        } else if is_letter(c) {
            lemma_run_end(s, i + 1, str_pred());
            assert(run_end(s, i, str_pred()) == run_end(s, i + 1, str_pred()));
        }
    }
}

/// The tokens of the whole pattern string `s`.
pub open spec fn spec_lex(s: Seq<char>) -> Result<Seq<TokenV>, CompileError> {
    spec_lex_at(s, 0)
}

/// Skipping spaces does not change what is lexed.
pub proof fn lemma_lex_skip_spaces(s: Seq<char>, i: int)
    requires
        0 <= i <= s.len(),
    ensures
        spec_lex_at(s, i) == spec_lex_at(s, run_end(s, i, space_pred())),
    decreases s.len() - i,
{
    if i < s.len() && is_space(s[i]) {
        assert(space_pred()(s[i]));
        assert(run_end(s, i, space_pred()) == run_end(s, i + 1, space_pred()));
        lemma_lex_skip_spaces(s, i + 1);
    } else {
        assert(run_end(s, i, space_pred()) == i);
    }
}

/// Every token stream the lexer accepts is well formed.
pub proof fn lemma_lex_wf(s: Seq<char>, i: int)
    requires
        0 <= i <= s.len(),
        spec_lex_at(s, i) is Ok,
    ensures
        wf_tokens(spec_lex_at(s, i)->Ok_0),
    decreases s.len() - i,
{
    if i >= s.len() {
    } else {
        let c = s[i];
        if is_space(c) {
            lemma_lex_wf(s, i + 1);
        } else if c == '[' || c == ']' || c == '<' || c == '>' || c == '|' {
            lemma_lex_wf(s, i + 1);
            lemma_cons_wf(spec_lex_at(s, i)->Ok_0, spec_lex_at(s, i + 1)->Ok_0);
        } else if is_dot(c) {
            lemma_run_end(s, i + 1, dot_pred());
            assert(run_end(s, i, dot_pred()) == run_end(s, i + 1, dot_pred()));
            let j = run_end(s, i, dot_pred());
            lemma_lex_wf(s, j);
            lemma_cons_wf(spec_lex_at(s, i)->Ok_0, spec_lex_at(s, j)->Ok_0);
        } else if c == '-' {
            if i + 1 < s.len() && s[i + 1] == '-' {
                lemma_run_end(s, i + 2, flag_pred());
                let j = run_end(s, i + 2, flag_pred());
                lemma_lex_wf(s, j);
                lemma_cons_wf(spec_lex_at(s, i)->Ok_0, spec_lex_at(s, j)->Ok_0);
            } else {
                lemma_run_end(s, i + 1, flag_pred());
                let j = run_end(s, i + 1, flag_pred());
                lemma_lex_wf(s, j);
                lemma_cons_wf(spec_lex_at(s, i)->Ok_0, spec_lex_at(s, j)->Ok_0);
            }
        } else if is_letter(c) {
            lemma_run_end(s, i + 1, str_pred());
            assert(run_end(s, i, str_pred()) == run_end(s, i + 1, str_pred()));
            let j = run_end(s, i, str_pred());
            lemma_lex_wf(s, j);
            lemma_cons_wf(spec_lex_at(s, i)->Ok_0, spec_lex_at(s, j)->Ok_0);
        }
    }
}

/// A well-formed head and tail make a well-formed stream.
proof fn lemma_cons_wf(whole: Seq<TokenV>, tail: Seq<TokenV>)
    requires
        whole.len() == tail.len() + 1,
        wf_token(whole[0]),
        forall|k: int| 0 <= k < tail.len() ==> whole[k + 1] == tail[k],
        wf_tokens(tail),
    ensures
        wf_tokens(whole),
{
    assert forall|k: int| 0 <= k < whole.len() implies wf_token(#[trigger] whole[k]) by {
        if k > 0 {
            assert(whole[k] == tail[k - 1]);
        }
    }
}

/// The pattern lexer's cursor over the input characters.
pub struct CmdLexer {
    chars: Vec<char>,
    pos: usize,
}

impl CmdLexer {
    pub closed spec fn wf(&self) -> bool {
        self.pos <= self.chars@.len()
    }

    /// Tokenizes a whole pattern string, or reports the first character
    /// that starts no token.
    pub fn compile(input: &str) -> (r: Result<Vec<Token>, CompileError>)
        ensures
            match r {
                Ok(v) => spec_lex(input@) == Ok::<Seq<TokenV>, CompileError>(tokens_view(v@)),
                Err(e) => spec_lex(input@) == Err::<Seq<TokenV>, CompileError>(e),
            },
    {
        let chars = chars_of(input);
        let ghost s = chars@;
        let mut lexer = CmdLexer { chars, pos: 0 };
        let mut tokens: Vec<Token> = Vec::new();
        loop
            invariant
                lexer.wf(),
                lexer.chars@ == s,
                s == input@,
                lex_app(tokens_view(tokens@), spec_lex_at(s, lexer.pos as int)) == spec_lex(s),
            decreases s.len() - lexer.pos,
        {
            let ghost pre = tokens_view(tokens@);
            let ghost p0 = lexer.pos as int;
            match lexer.next_token() {
                Ok(Some(t)) => {
                    proof {
                        let rest = spec_lex_at(s, lexer.pos as int);
                        assert(spec_lex_at(s, p0) == lex_cons(t@, rest));
                        if rest is Ok {
                            assert(pre + (seq![t@] + rest->Ok_0) =~= pre.push(t@) + rest->Ok_0);
                        }
                        assert(tokens_view(tokens@.push(t)) =~= pre.push(t@));
                    }
                    tokens.push(t);
                },
                Ok(None) => {
                    proof {
                        assert(pre + Seq::<TokenV>::empty() =~= pre);
                    }
                    return Ok(tokens);
                },
                Err(e) => {
                    return Err(e);
                },
            }
        }
    }

    /// Advances past spaces.
    fn skip_whitespace(&mut self)
        requires
            old(self).wf(),
        ensures
            final(self).wf(),
            final(self).chars@ == old(self).chars@,
            final(self).pos as int == run_end(final(self).chars@, old(self).pos as int, space_pred()),
    {
        let ghost s = self.chars@;
        let ghost p0 = self.pos as int;
        while self.pos < self.chars.len() && self.chars[self.pos] == ' '
            invariant
                0 <= p0 <= self.pos as int <= s.len(),
                self.chars@ == s,
                run_end(s, p0, space_pred()) == run_end(s, self.pos as int, space_pred()),
            decreases s.len() - self.pos,
        {
            proof {
                assert(space_pred()(s[self.pos as int]));
                assert(run_end(s, self.pos as int, space_pred()) == run_end(
                    s,
                    self.pos + 1,
                    space_pred(),
                ));
            }
            self.pos = self.pos + 1;
        }
        proof {
            assert(run_end(s, self.pos as int, space_pred()) == self.pos as int);
        }
    }

    /// Reads the maximal run of literal-word characters from the cursor.
    fn read_str(&mut self) -> (out: Vec<char>)
        requires
            old(self).wf(),
        ensures
            final(self).wf(),
            final(self).chars@ == old(self).chars@,
            final(self).pos as int == run_end(final(self).chars@, old(self).pos as int, str_pred()),
            out@ == final(self).chars@.subrange(old(self).pos as int, final(self).pos as int),
    {
        let ghost s = self.chars@;
        let ghost p0 = self.pos as int;
        let mut out: Vec<char> = Vec::new();
        while self.pos < self.chars.len() && str_char(self.chars[self.pos])
            invariant
                0 <= p0 <= self.pos as int <= s.len(),
                self.chars@ == s,
                run_end(s, p0, str_pred()) == run_end(s, self.pos as int, str_pred()),
                out@ == s.subrange(p0, self.pos as int),
            decreases s.len() - self.pos,
        {
            proof {
                assert(str_pred()(s[self.pos as int]));
                assert(run_end(s, self.pos as int, str_pred()) == run_end(
                    s,
                    self.pos + 1,
                    str_pred(),
                ));
            }
            out.push(self.chars[self.pos]);
            proof {
                assert(out@ =~= s.subrange(p0, self.pos + 1));
            }
            self.pos = self.pos + 1;
        }
        proof {
            assert(run_end(s, self.pos as int, str_pred()) == self.pos as int);
        }
        out
    }

    /// Reads the maximal run of flag-name characters from the cursor.
    fn read_flag(&mut self) -> (out: Vec<char>)
        requires
            old(self).wf(),
        ensures
            final(self).wf(),
            final(self).chars@ == old(self).chars@,
            final(self).pos as int == run_end(final(self).chars@, old(self).pos as int, flag_pred()),
            out@ == final(self).chars@.subrange(old(self).pos as int, final(self).pos as int),
    {
        let ghost s = self.chars@;
        let ghost p0 = self.pos as int;
        let mut out: Vec<char> = Vec::new();
        while self.pos < self.chars.len() && flag_char(self.chars[self.pos])
            invariant
                0 <= p0 <= self.pos as int <= s.len(),
                self.chars@ == s,
                run_end(s, p0, flag_pred()) == run_end(s, self.pos as int, flag_pred()),
                out@ == s.subrange(p0, self.pos as int),
            decreases s.len() - self.pos,
        {
            proof {
                assert(flag_pred()(s[self.pos as int]));
                assert(run_end(s, self.pos as int, flag_pred()) == run_end(
                    s,
                    self.pos + 1,
                    flag_pred(),
                ));
            }
            out.push(self.chars[self.pos]);
            proof {
                assert(out@ =~= s.subrange(p0, self.pos + 1));
            }
            self.pos = self.pos + 1;
        }
        proof {
            assert(run_end(s, self.pos as int, flag_pred()) == self.pos as int);
        }
        out
    }

    /// Advances past the run of dots at the cursor.
    fn consume_dots(&mut self)
        requires
            old(self).wf(),
        ensures
            final(self).wf(),
            final(self).chars@ == old(self).chars@,
            final(self).pos as int == run_end(final(self).chars@, old(self).pos as int, dot_pred()),
    {
        let ghost s = self.chars@;
        let ghost p0 = self.pos as int;
        while self.pos < self.chars.len() && self.chars[self.pos] == '.'
            invariant
                0 <= p0 <= self.pos as int <= s.len(),
                self.chars@ == s,
                run_end(s, p0, dot_pred()) == run_end(s, self.pos as int, dot_pred()),
            decreases s.len() - self.pos,
        {
            proof {
                assert(dot_pred()(s[self.pos as int]));
                assert(run_end(s, self.pos as int, dot_pred()) == run_end(
                    s,
                    self.pos + 1,
                    dot_pred(),
                ));
            }
            self.pos = self.pos + 1;
        }
        proof {
            assert(run_end(s, self.pos as int, dot_pred()) == self.pos as int);
        }
    }

    /// The next token at the cursor, `None` at the end of the input, or
    /// the position of a character that starts no token.
    fn next_token(&mut self) -> (r: Result<Option<Token>, CompileError>)
        requires
            old(self).wf(),
        ensures
            final(self).wf(),
            final(self).chars@ == old(self).chars@,
            match r {
                Ok(Some(t)) => old(self).pos < final(self).pos
                    && spec_lex_at(final(self).chars@, old(self).pos as int)
                    == lex_cons(t@, spec_lex_at(final(self).chars@, final(self).pos as int)),
                Ok(None) => final(self).pos == final(self).chars@.len()
                    && spec_lex_at(final(self).chars@, old(self).pos as int) == Ok::<
                    Seq<TokenV>,
                    CompileError,
                >(Seq::empty()),
                Err(e) => spec_lex_at(final(self).chars@, old(self).pos as int) == Err::<
                    Seq<TokenV>,
                    CompileError,
                >(e),
            },
    {
        let ghost s = self.chars@;
        let ghost p0 = self.pos as int;
        self.skip_whitespace();
        proof {
            lemma_lex_skip_spaces(s, p0);
            lemma_run_end(s, p0, space_pred());
        }
        if self.pos == self.chars.len() {
            return Ok(None);
        }
        let start = self.pos;
        let ghost p = start as int;
        let c = self.chars[start];
        proof {
            assert(!space_pred()(s[p]));
        }
        if c == '[' {
            self.pos = self.pos + 1;
            Ok(Some(Token::LSq))
        } else if c == ']' {
            self.pos = self.pos + 1;
            Ok(Some(Token::RSq))
        } else if c == '<' {
            self.pos = self.pos + 1;
            Ok(Some(Token::LAr))
        } else if c == '>' {
            self.pos = self.pos + 1;
            Ok(Some(Token::RAr))
        } else if c == '|' {
            self.pos = self.pos + 1;
            Ok(Some(Token::Or))
        } else if c == '.' {
            self.consume_dots();
            proof {
                lemma_run_end(s, p, dot_pred());
                assert(dot_pred()(s[p]));
            }
            Ok(Some(Token::Multiple))
        } else if c == '-' {
            if start + 1 < self.chars.len() && self.chars[start + 1] == '-' {
                self.pos = self.pos + 2;
                let name = self.read_flag();
                proof {
                    lemma_run_end(s, p + 2, flag_pred());
                }
                Ok(Some(Token::FlagLong(string_from_chars(&name))))
            } else {
                self.pos = self.pos + 1;
                let v = self.read_flag();
                proof {
                    lemma_run_end(s, p + 1, flag_pred());
                }
                if v.len() == 0 {
                    Err(CompileError::IllegalToken { position: start })
                } else if v.len() == 1 {
                    Ok(Some(Token::FlagShort(string_from_chars(&v))))
                } else {
                    Ok(Some(Token::FlagCombo(string_from_chars(&v))))
                }
            }
        } else if letter_char(c) {
            let v = self.read_str();
            proof {
                assert(str_pred()(s[p]));
                assert(run_end(s, p, str_pred()) == run_end(s, p + 1, str_pred()));
                lemma_run_end(s, p + 1, str_pred());
            }
            Ok(Some(Token::Str(string_from_chars(&v))))
        } else {
            Err(CompileError::IllegalToken { position: start })
        }
    }
}

} // verus!
