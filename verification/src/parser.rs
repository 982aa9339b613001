//! The pattern parser: builds the ordered AST of words from the pattern
//! lexer's tokens.
//!
//! Recursive descent with two-token lookahead. The first bare literal is
//! the command name; later bare literals are still literal words. `<name>`
//! holds exactly one literal and becomes a variable. `[ ... ]` is parsed
//! with the same rules and its words are flattened into the top-level
//! sequence. A short or long flag directly followed by `<...>` takes that
//! variable as its nested input; a combo never does. Alternation (`|`) and
//! repetition (`...`) are rejected at compile time with a named error.
//! Every malformed pattern is a compile-time error, never deferred to
//! match time.

use vstd::prelude::*;

use crate::error::CompileError;
use crate::lexer::{lemma_lex_wf, spec_lex, tokens_view, wf_token, wf_tokens, CmdLexer, Token, TokenV};
use crate::text::{chars_of, dash_char, string_from_chars};

verus! {

/// The operators a [`CmdWord::BinaryOp`] node could carry. Alternation is
/// recognized lexically but unsupported: the parser rejects it, so no node
/// with it is ever built.
#[derive(Debug, PartialEq, Eq, Clone, Copy, Structural)]
pub enum BinaryOp {
    Or,
}

/// The kind of value a variable stands for.
#[derive(Debug, PartialEq, Eq, Clone, Copy, Structural)]
pub enum Variable {
    String,
    Int,
}

/// One semantic unit of a compiled pattern.
#[derive(Debug, PartialEq)]
pub enum CmdWord {
    Literal { value: String },
    Variable { name: String, kind: Variable },
    FlagShort { value: char, input: Box<Option<CmdWord>> },
    FlagLong { value: String, input: Box<Option<CmdWord>> },
    FlagCombo { values: Vec<char> },
    BinaryOp { op: BinaryOp, lhs: Box<CmdWord>, rhs: Box<CmdWord> },
}

/// The mathematical shape of a [`CmdWord`].
pub enum WordV {
    Literal { value: Seq<char> },
    Variable { name: Seq<char>, kind: Variable },
    FlagShort { value: char, input: Option<Box<WordV>> },
    FlagLong { value: Seq<char>, input: Option<Box<WordV>> },
    FlagCombo { values: Seq<char> },
    BinaryOp { op: BinaryOp, lhs: Box<WordV>, rhs: Box<WordV> },
}

pub open spec fn input_view(input: Option<CmdWord>) -> Option<Box<WordV>>
    decreases input,
{
    match input {
        Some(inner) => Some(Box::new(word_view(inner))),
        None => None,
    }
}

/// The short-flag shape, named: a plain constructor defeats the solver's
/// unfolding when a non-literal character stands in it inside a recursive
/// definition.
pub open spec fn short_word_v(value: char, input: Option<Box<WordV>>) -> WordV {
    WordV::FlagShort { value, input }
}

pub open spec fn word_view(w: CmdWord) -> WordV
    decreases w,
{
    match w {
        CmdWord::Literal { value } => WordV::Literal { value: value@ },
        CmdWord::Variable { name, kind } => WordV::Variable { name: name@, kind },
        CmdWord::FlagShort { value, input } => short_word_v(value, input_view(*input)),
        CmdWord::FlagLong { value, input } => WordV::FlagLong {
            value: value@,
            input: input_view(*input),
        },
        CmdWord::FlagCombo { values } => WordV::FlagCombo { values: values@ },
        CmdWord::BinaryOp { op, lhs, rhs } => WordV::BinaryOp {
            op,
            lhs: Box::new(word_view(*lhs)),
            rhs: Box::new(word_view(*rhs)),
        },
    }
}

impl View for CmdWord {
    type V = WordV;

    open spec fn view(&self) -> WordV {
        word_view(*self)
    }
}

pub open spec fn words_view(ws: Seq<CmdWord>) -> Seq<WordV> {
    ws.map_values(|w: CmdWord| word_view(w))
}

/// How [`word_view`] acts on a short flag, spelled out for callers.
pub proof fn lemma_word_view_short(w: CmdWord)
    ensures
        (w matches CmdWord::FlagShort { value, input } ==> word_view(w) == short_word_v(
            value,
            input_view(*input),
        )),
{
}

/// How [`word_view`] acts on a long flag, spelled out for callers.
pub proof fn lemma_word_view_long(w: CmdWord)
    ensures
        (w matches CmdWord::FlagLong { value, input } ==> word_view(w) == (WordV::FlagLong {
            value: value@,
            input: input_view(*input),
        })),
{
}

/// The literal word read from the token at `i`.
pub open spec fn lit_word_at(toks: Seq<TokenV>, i: int) -> WordV {
    WordV::Literal { value: toks[i]->Str_0 }
}

/// The variable word whose name token stands at `i`.
pub open spec fn var_word_at(toks: Seq<TokenV>, i: int) -> WordV {
    WordV::Variable { name: toks[i]->Str_0, kind: Variable::String }
}

/// The short-flag word read from the token at `i`; with `nested`, its
/// input is the variable whose name token stands at `i + 2`.
pub open spec fn short_word_at(toks: Seq<TokenV>, i: int, nested: bool) -> WordV {
    short_word_v(
        toks[i]->FlagShort_0[0],
        if nested {
            Some(Box::new(var_word_at(toks, i + 2)))
        } else {
            None
        },
    )
}

/// The long-flag word read from the token at `i`; with `nested`, its
/// input is the variable whose name token stands at `i + 2`.
pub open spec fn long_word_at(toks: Seq<TokenV>, i: int, nested: bool) -> WordV {
    WordV::FlagLong {
        value: toks[i]->FlagLong_0,
        input: if nested {
            Some(Box::new(var_word_at(toks, i + 2)))
        } else {
            None
        },
    }
}

/// The combo word read from the token at `i`.
pub open spec fn combo_word_at(toks: Seq<TokenV>, i: int) -> WordV {
    WordV::FlagCombo { values: toks[i]->FlagCombo_0 }
}

/// Prepends a word to the rest of a parsing result.
pub open spec fn pcons(w: WordV, rest: Result<Seq<WordV>, CompileError>) -> Result<
    Seq<WordV>,
    CompileError,
> {
    match rest {
        Ok(ws) => Ok(seq![w] + ws),
        Err(e) => Err(e),
    }
}

/// Prepends already-parsed words to the rest of a parsing result.
pub open spec fn parse_app(pre: Seq<WordV>, rest: Result<Seq<WordV>, CompileError>) -> Result<
    Seq<WordV>,
    CompileError,
> {
    match rest {
        Ok(ws) => Ok(pre + ws),
        Err(e) => Err(e),
    }
}

/// The words parsed from the tokens at `i` on, with `depth` brackets
/// currently open. Brackets only flatten, so they are a counter here: a
/// word inside brackets joins the same top-level sequence.
pub open spec fn spec_parse_at(toks: Seq<TokenV>, i: int, depth: int) -> Result<
    Seq<WordV>,
    CompileError,
>
    decreases toks.len() - i,
{
    if i < 0 || i >= toks.len() {
        if depth > 0 {
            Err(CompileError::UnterminatedBracket)
        } else {
            Ok(Seq::empty())
        }
    } else {
        let t = toks[i];
        match t {
            TokenV::Str(_) => pcons(lit_word_at(toks, i), spec_parse_at(toks, i + 1, depth)),
            TokenV::LAr => {
                if i + 1 < toks.len() && toks[i + 1] is Str {
                    if i + 2 < toks.len() && toks[i + 2] is RAr {
                        pcons(var_word_at(toks, i + 1), spec_parse_at(toks, i + 3, depth))
                    } else {
                        Err(CompileError::AngleUnclosed)
                    }
                } else {
                    Err(CompileError::AngleMissingName)
                }
            },
            TokenV::RAr => Err(CompileError::UnexpectedAngleClose),
            TokenV::FlagShort(_) => {
                if i + 1 < toks.len() && toks[i + 1] is LAr {
                    if i + 2 < toks.len() && toks[i + 2] is Str {
                        if i + 3 < toks.len() && toks[i + 3] is RAr {
                            pcons(short_word_at(toks, i, true), spec_parse_at(toks, i + 4, depth))
                        } else {
                            Err(CompileError::AngleUnclosed)
                        }
                    } else {
                        Err(CompileError::AngleMissingName)
                    }
                } else {
                    pcons(short_word_at(toks, i, false), spec_parse_at(toks, i + 1, depth))
                }
            },
            TokenV::FlagLong(_) => {
                if i + 1 < toks.len() && toks[i + 1] is LAr {
                    if i + 2 < toks.len() && toks[i + 2] is Str {
                        if i + 3 < toks.len() && toks[i + 3] is RAr {
                            pcons(long_word_at(toks, i, true), spec_parse_at(toks, i + 4, depth))
                        } else {
                            Err(CompileError::AngleUnclosed)
                        }
                    } else {
                        Err(CompileError::AngleMissingName)
                    }
                } else {
                    pcons(long_word_at(toks, i, false), spec_parse_at(toks, i + 1, depth))
                }
            },
            TokenV::FlagCombo(_) => pcons(combo_word_at(toks, i), spec_parse_at(toks, i + 1, depth)),
            TokenV::LSq => spec_parse_at(toks, i + 1, depth + 1),
            TokenV::RSq => {
                if depth > 0 {
                    spec_parse_at(toks, i + 1, depth - 1)
                } else {
                    Err(CompileError::UnexpectedBracketClose)
                }
            },
            TokenV::Or => Err(CompileError::UnsupportedAlternation),
            TokenV::Multiple => Err(CompileError::UnsupportedRepetition),
        }
    }
}

/// The words of a whole token sequence. A pattern with no token at all is
/// an error of its own.
pub open spec fn spec_parse(toks: Seq<TokenV>) -> Result<Seq<WordV>, CompileError> {
    if toks.len() == 0 {
        Err(CompileError::EmptyPattern)
    } else {
        spec_parse_at(toks, 0, 0)
    }
}

/// What compiling a pattern string yields: the lexer's tokens, parsed.
pub open spec fn spec_compile_pattern(s: Seq<char>) -> Result<Seq<WordV>, CompileError> {
    match spec_lex(s) {
        Ok(toks) => spec_parse(toks),
        Err(e) => Err(e),
    }
}

/// Compiling a pattern is a function of the pattern string alone: two
/// results of it on the same string are structurally equal.
pub proof fn lemma_compile_idempotent(
    s: Seq<char>,
    r1: Result<Seq<WordV>, CompileError>,
    r2: Result<Seq<WordV>, CompileError>,
)
    requires
        r1 == spec_compile_pattern(s),
        r2 == spec_compile_pattern(s),
    ensures
        r1 == r2,
{
}

/// A pattern AST as the parser builds it: a flag's nested input, when it
/// has one, is a variable, and no alternation node occurs.
pub open spec fn wf_word(w: WordV) -> bool {
    match w {
        WordV::FlagShort { input, .. } => match input {
            None => true,
            Some(inner) => *inner is Variable,
        },
        WordV::FlagLong { input, .. } => match input {
            None => true,
            Some(inner) => *inner is Variable,
        },
        WordV::BinaryOp { .. } => false,
        _ => true,
    }
}

pub open spec fn wf_ast(ast: Seq<WordV>) -> bool {
    forall|k: int| 0 <= k < ast.len() ==> wf_word(#[trigger] ast[k])
}

/// A well-formed head and tail make a well-formed AST.
proof fn lemma_cons_wf_ast(whole: Seq<WordV>, tail: Seq<WordV>)
    requires
        whole.len() == tail.len() + 1,
        wf_word(whole[0]),
        forall|k: int| 0 <= k < tail.len() ==> whole[k + 1] == tail[k],
        wf_ast(tail),
    ensures
        wf_ast(whole),
{
    assert forall|k: int| 0 <= k < whole.len() implies wf_word(#[trigger] whole[k]) by {
        if k > 0 {
            assert(whole[k] == tail[k - 1]);
        }
    }
}

/// Every AST the parser accepts is well formed: nested flag inputs are
/// variables and no alternation node occurs.
pub proof fn lemma_parse_wf(toks: Seq<TokenV>, i: int, depth: int)
    requires
        0 <= i,
        spec_parse_at(toks, i, depth) is Ok,
    ensures
        wf_ast(spec_parse_at(toks, i, depth)->Ok_0),
    decreases toks.len() - i,
{
    if i >= toks.len() {
    } else {
        let t = toks[i];
        let r = spec_parse_at(toks, i, depth);
        match t {
            TokenV::Str(_) => {
                lemma_parse_wf(toks, i + 1, depth);
                lemma_cons_wf_ast(r->Ok_0, spec_parse_at(toks, i + 1, depth)->Ok_0);
            },
            TokenV::LAr => {
                lemma_parse_wf(toks, i + 3, depth);
                lemma_cons_wf_ast(r->Ok_0, spec_parse_at(toks, i + 3, depth)->Ok_0);
            },
            TokenV::FlagShort(_) => {
                if i + 1 < toks.len() && toks[i + 1] is LAr {
                    assert(wf_word(short_word_at(toks, i, true)));
                    lemma_parse_wf(toks, i + 4, depth);
                    lemma_cons_wf_ast(r->Ok_0, spec_parse_at(toks, i + 4, depth)->Ok_0);
                } else {
                    assert(wf_word(short_word_at(toks, i, false)));
                    lemma_parse_wf(toks, i + 1, depth);
                    lemma_cons_wf_ast(r->Ok_0, spec_parse_at(toks, i + 1, depth)->Ok_0);
                }
            },
            TokenV::FlagLong(_) => {
                if i + 1 < toks.len() && toks[i + 1] is LAr {
                    assert(wf_word(long_word_at(toks, i, true)));
                    lemma_parse_wf(toks, i + 4, depth);
                    lemma_cons_wf_ast(r->Ok_0, spec_parse_at(toks, i + 4, depth)->Ok_0);
                } else {
                    assert(wf_word(long_word_at(toks, i, false)));
                    lemma_parse_wf(toks, i + 1, depth);
                    lemma_cons_wf_ast(r->Ok_0, spec_parse_at(toks, i + 1, depth)->Ok_0);
                }
            },
            TokenV::FlagCombo(_) => {
                lemma_parse_wf(toks, i + 1, depth);
                lemma_cons_wf_ast(r->Ok_0, spec_parse_at(toks, i + 1, depth)->Ok_0);
            },
            TokenV::LSq => {
                lemma_parse_wf(toks, i + 1, depth + 1);
            },
            TokenV::RSq => {
                if depth > 0 {
                    lemma_parse_wf(toks, i + 1, depth - 1);
                }
            },
            _ => {},
        }
    }
}

/// Every AST a pattern string compiles to is well formed.
pub proof fn lemma_compile_wf(s: Seq<char>)
    requires
        spec_compile_pattern(s) is Ok,
    ensures
        wf_ast(spec_compile_pattern(s)->Ok_0),
{
    let toks = spec_lex(s)->Ok_0;
    lemma_parse_wf(toks, 0, 0);
}

/// The pattern parser's cursor over the lexer's tokens.
pub struct CmdParser {
    tokens: Vec<Token>,
    pos: usize,
    depth: usize,
}

impl CmdParser {
    pub closed spec fn wf(&self) -> bool {
        &&& self.pos <= self.tokens@.len()
        &&& self.depth <= self.pos
        &&& wf_tokens(tokens_view(self.tokens@))
    }

    pub closed spec fn toks(&self) -> Seq<TokenV> {
        tokens_view(self.tokens@)
    }

    /// Compiles a pattern string to its AST, or reports the first fault
    /// in it.
    pub fn compile(input: &str) -> (r: Result<Vec<CmdWord>, CompileError>)
        ensures
            match r {
                Ok(ws) => spec_compile_pattern(input@) == Ok::<Seq<WordV>, CompileError>(
                    words_view(ws@),
                ),
                Err(e) => spec_compile_pattern(input@) == Err::<Seq<WordV>, CompileError>(e),
            },
    {
        let tokens = match CmdLexer::compile(input) {
            Ok(t) => t,
            Err(e) => {
                return Err(e);
            },
        };
        proof {
            lemma_lex_wf(input@, 0);
        }
        if tokens.len() == 0 {
            return Err(CompileError::EmptyPattern);
        }
        let mut parser = CmdParser { tokens, pos: 0, depth: 0 };
        let ghost toksv = tokens_view(parser.tokens@);
        let mut words: Vec<CmdWord> = Vec::new();
        loop
            invariant
                parser.wf(),
                parser.toks() == toksv,
                toksv.len() > 0,
                spec_lex(input@) == Ok::<Seq<TokenV>, CompileError>(toksv),
                parse_app(words_view(words@), spec_parse_at(toksv, parser.pos as int, parser.depth as int))
                    == spec_parse_at(toksv, 0, 0),
            decreases toksv.len() - parser.pos,
        {
            let ghost pre = words_view(words@);
            if parser.pos == parser.tokens.len() {
                if parser.depth > 0 {
                    return Err(CompileError::UnterminatedBracket);
                }
                proof {
                    assert(pre + Seq::<WordV>::empty() =~= pre);
                }
                return Ok(words);
            }
            match parser.parse_exp() {
                Ok(Some(w)) => {
                    proof {
                        let rest = spec_parse_at(toksv, parser.pos as int, parser.depth as int);
                        if rest is Ok {
                            assert(pre + (seq![w@] + rest->Ok_0) =~= pre.push(w@) + rest->Ok_0);
                        }
                        assert(words_view(words@.push(w)) =~= pre.push(w@));
                    }
                    words.push(w);
                },
                Ok(None) => {},
                Err(e) => {
                    return Err(e);
                },
            }
        }
    }

    /// Parses one element at the cursor: a word, or a bracket boundary
    /// that only changes the open-bracket count, or the first fault.
    fn parse_exp(&mut self) -> (r: Result<Option<CmdWord>, CompileError>)
        requires
            old(self).wf(),
            old(self).pos < old(self).tokens@.len(),
        ensures
            final(self).wf(),
            final(self).toks() == old(self).toks(),
            match r {
                Ok(Some(w)) => old(self).pos < final(self).pos && spec_parse_at(
                    final(self).toks(),
                    old(self).pos as int,
                    old(self).depth as int,
                ) == pcons(
                    w@,
                    spec_parse_at(final(self).toks(), final(self).pos as int, final(self).depth as int),
                ),
                Ok(None) => old(self).pos < final(self).pos && spec_parse_at(
                    final(self).toks(),
                    old(self).pos as int,
                    old(self).depth as int,
                ) == spec_parse_at(
                    final(self).toks(),
                    final(self).pos as int,
                    final(self).depth as int,
                ),
                Err(e) => spec_parse_at(
                    final(self).toks(),
                    old(self).pos as int,
                    old(self).depth as int,
                ) == Err::<Seq<WordV>, CompileError>(e),
            },
    {
        let ghost toks = tokens_view(self.tokens@);
        let ghost p = self.pos as int;
        let ghost d = self.depth as int;
        let n = self.tokens.len();
        let pos = self.pos;
        proof {
            assert(wf_token(toks[p]));
            assert(toks[p] == self.tokens@[p]@);
        }
        match &self.tokens[pos] {
            Token::Str(v) => {
                let w = CmdWord::Literal { value: v.clone() };
                proof {
                    assert(w@ == lit_word_at(toks, p));
                    assert(spec_parse_at(toks, p, d) == pcons(
                        lit_word_at(toks, p),
                        spec_parse_at(toks, p + 1, d),
                    ));
                }
                self.pos = pos + 1;
                Ok(Some(w))
            },
            Token::LAr => {
                if pos + 1 < n {
                    proof {
                        assert(toks[p + 1] == self.tokens@[p + 1]@);
                    }
                    if let Token::Str(name) = &self.tokens[pos + 1] {
                        if pos + 2 < n {
                            proof {
                                assert(toks[p + 2] == self.tokens@[p + 2]@);
                            }
                            if self.tokens[pos + 2].is_rar() {
                                let w = CmdWord::Variable {
                                    name: name.clone(),
                                    kind: Variable::String,
                                };
                                proof {
                                    assert(w@ == var_word_at(toks, p + 1));
                                    assert(spec_parse_at(toks, p, d) == pcons(
                                        var_word_at(toks, p + 1),
                                        spec_parse_at(toks, p + 3, d),
                                    ));
                                }
                                self.pos = pos + 3;
                                return Ok(Some(w));
                            }
                        }
                        return Err(CompileError::AngleUnclosed);
                    }
                }
                Err(CompileError::AngleMissingName)
            },
            Token::RAr => Err(CompileError::UnexpectedAngleClose),
            Token::FlagShort(v) => {
                let cs = chars_of(v.as_str());
                let c = cs[0];
                proof {
                    assert(c == toks[p]->FlagShort_0[0]);
                }
                if pos + 1 < n && self.tokens[pos + 1].is_lar() {
                    proof {
                        assert(toks[p + 1] == self.tokens@[p + 1]@);
                    }
                    if pos + 2 < n {
                        proof {
                            assert(toks[p + 2] == self.tokens@[p + 2]@);
                        }
                        if let Token::Str(name) = &self.tokens[pos + 2] {
                            if pos + 3 < n {
                                proof {
                                    assert(toks[p + 3] == self.tokens@[p + 3]@);
                                }
                                if self.tokens[pos + 3].is_rar() {
                                    let nested = CmdWord::Variable {
                                        name: name.clone(),
                                        kind: Variable::String,
                                    };
                                    let ghost nested_g = nested;
                                    let boxed = Box::new(Some(nested));
                                    let ghost boxed_g = boxed;
                                    proof {
                                        assert(*boxed_g == Some(nested_g));
                                        assert(word_view(nested_g) == var_word_at(toks, p + 2));
                                        assert(input_view(*boxed_g) == Some(
                                            Box::new(word_view(nested_g)),
                                        ));
                                    }
                                    let w = CmdWord::FlagShort { value: c, input: boxed };
                                    proof {
                                        lemma_word_view_short(w);
                                        assert(w@ == short_word_at(toks, p, true));
                                        assert(spec_parse_at(toks, p, d) == pcons(
                                            short_word_at(toks, p, true),
                                            spec_parse_at(toks, p + 4, d),
                                        ));
                                    }
                                    self.pos = pos + 4;
                                    return Ok(Some(w));
                                }
                            }
                            return Err(CompileError::AngleUnclosed);
                        }
                    }
                    return Err(CompileError::AngleMissingName);
                }
                let w = CmdWord::FlagShort { value: c, input: Box::new(None) };
                proof {
                    lemma_word_view_short(w);
                    assert(input_view(None) == None::<Box<WordV>>);
                    assert(w@ == short_word_at(toks, p, false));
                    assert(spec_parse_at(toks, p, d) == pcons(
                        short_word_at(toks, p, false),
                        spec_parse_at(toks, p + 1, d),
                    ));
                }
                self.pos = pos + 1;
                Ok(Some(w))
            },
            Token::FlagLong(v) => {
                let value = v.clone();
                if pos + 1 < n && self.tokens[pos + 1].is_lar() {
                    proof {
                        assert(toks[p + 1] == self.tokens@[p + 1]@);
                    }
                    if pos + 2 < n {
                        proof {
                            assert(toks[p + 2] == self.tokens@[p + 2]@);
                        }
                        if let Token::Str(name) = &self.tokens[pos + 2] {
                            if pos + 3 < n {
                                proof {
                                    assert(toks[p + 3] == self.tokens@[p + 3]@);
                                }
                                if self.tokens[pos + 3].is_rar() {
                                    let nested = CmdWord::Variable {
                                        name: name.clone(),
                                        kind: Variable::String,
                                    };
                                    let ghost nested_g = nested;
                                    let boxed = Box::new(Some(nested));
                                    let ghost boxed_g = boxed;
                                    proof {
                                        assert(*boxed_g == Some(nested_g));
                                        assert(word_view(nested_g) == var_word_at(toks, p + 2));
                                        assert(input_view(*boxed_g) == Some(
                                            Box::new(word_view(nested_g)),
                                        ));
                                    }
                                    let w = CmdWord::FlagLong { value, input: boxed };
                                    proof {
                                        lemma_word_view_long(w);
                                        assert(w@ == long_word_at(toks, p, true));
                                        assert(spec_parse_at(toks, p, d) == pcons(
                                            long_word_at(toks, p, true),
                                            spec_parse_at(toks, p + 4, d),
                                        ));
                                    }
                                    self.pos = pos + 4;
                                    return Ok(Some(w));
                                }
                            }
                            return Err(CompileError::AngleUnclosed);
                        }
                    }
                    return Err(CompileError::AngleMissingName);
                }
                let w = CmdWord::FlagLong { value, input: Box::new(None) };
                proof {
                    lemma_word_view_long(w);
                    assert(input_view(None) == None::<Box<WordV>>);
                    assert(w@ == long_word_at(toks, p, false));
                    assert(spec_parse_at(toks, p, d) == pcons(
                        long_word_at(toks, p, false),
                        spec_parse_at(toks, p + 1, d),
                    ));
                }
                self.pos = pos + 1;
                Ok(Some(w))
            },
            Token::FlagCombo(v) => {
                let w = CmdWord::FlagCombo { values: chars_of(v.as_str()) };
                proof {
                    assert(w@ == combo_word_at(toks, p));
                    assert(spec_parse_at(toks, p, d) == pcons(
                        combo_word_at(toks, p),
                        spec_parse_at(toks, p + 1, d),
                    ));
                }
                self.pos = pos + 1;
                Ok(Some(w))
            },
            Token::LSq => {
                proof {
                    assert(spec_parse_at(toks, p, d) == spec_parse_at(toks, p + 1, d + 1));
                }
                self.pos = pos + 1;
                self.depth = self.depth + 1;
                Ok(None)
            },
            Token::RSq => {
                if self.depth == 0 {
                    return Err(CompileError::UnexpectedBracketClose);
                }
                proof {
                    assert(spec_parse_at(toks, p, d) == spec_parse_at(toks, p + 1, d - 1));
                }
                self.pos = pos + 1;
                self.depth = self.depth - 1;
                Ok(None)
            },
            Token::Or => Err(CompileError::UnsupportedAlternation),
            Token::Multiple => Err(CompileError::UnsupportedRepetition),
        }
    }
}

impl Token {
    /// Tells whether this token is `<`.
    fn is_lar(&self) -> (r: bool)
        ensures
            r == (self@ is LAr),
    {
        match self {
            Token::LAr => true,
            _ => false,
        }
    }

    /// Tells whether this token is `>`.
    fn is_rar(&self) -> (r: bool)
        ensures
            r == (self@ is RAr),
    {
        match self {
            Token::RAr => true,
            _ => false,
        }
    }
}

/// What a word looks like when rendered back to text: a literal is
/// itself, a variable `<name>`, a short flag `-c`, a long flag `--name`
/// (each flag followed by its rendered input, when it has one), a combo
/// `-cs`. This is exactly the text the match report shows for a word.
pub open spec fn spec_render_word(w: WordV) -> Seq<char>
    decreases w,
{
    match w {
        WordV::Literal { value } => value,
        WordV::Variable { name, .. } => seq!['<'] + name + seq!['>'],
        WordV::FlagShort { value, input } => match input {
            Some(inner) => dash_char(value) + seq![' '] + spec_render_word(*inner),
            None => dash_char(value),
        },
        WordV::FlagLong { value, input } => match input {
            Some(inner) => seq!['-', '-'] + value + seq![' '] + spec_render_word(*inner),
            None => seq!['-', '-'] + value,
        },
        WordV::FlagCombo { values } => seq!['-'] + values,
        WordV::BinaryOp { lhs, rhs, .. } => spec_render_word(*lhs) + seq!['|'] + spec_render_word(
            *rhs,
        ),
    }
}

/// How [`spec_render_word`] acts on a literal, spelled out for callers.
pub proof fn lemma_render_literal(w: WordV)
    ensures
        (w matches WordV::Literal { value } ==> spec_render_word(w) == value),
{
}

/// How [`spec_render_word`] acts on a short flag, spelled out for callers.
pub proof fn lemma_render_short(w: WordV)
    ensures
        (w matches WordV::FlagShort { value, input } ==> spec_render_word(w) == (match input {
            Some(inner) => dash_char(value) + seq![' '] + spec_render_word(*inner),
            None => dash_char(value),
        })),
{
}

/// How [`spec_render_word`] acts on a long flag, spelled out for callers.
pub proof fn lemma_render_long(w: WordV)
    ensures
        (w matches WordV::FlagLong { value, input } ==> spec_render_word(w) == (match input {
            Some(inner) => seq!['-', '-'] + value + seq![' '] + spec_render_word(*inner),
            None => seq!['-', '-'] + value,
        })),
{
}

impl CmdWord {
    /// The characters of this word's rendering.
    pub fn render_chars(&self) -> (out: Vec<char>)
        ensures
            out@ == spec_render_word(self@),
        decreases *self,
    {
        match self {
            CmdWord::Literal { value } => chars_of(value.as_str()),
            CmdWord::Variable { name, .. } => {
                let mut out: Vec<char> = Vec::new();
                out.push('<');
                let mut mid = chars_of(name.as_str());
                out.append(&mut mid);
                out.push('>');
                proof {
                    assert(out@ =~= spec_render_word(self@));
                }
                out
            },
            CmdWord::FlagShort { value, input } => {
                let mut out: Vec<char> = Vec::new();
                out.push('-');
                out.push(*value);
                proof {
                    lemma_word_view_short(*self);
                    lemma_render_short(self@);
                }
                if let Some(inner) = &**input {
                    out.push(' ');
                    let mut rest = inner.render_chars();
                    out.append(&mut rest);
                    proof {
                        assert(input_view(**input) == Some(Box::new(word_view(*inner))));
                        assert(out@ =~= spec_render_word(self@));
                    }
                } else {
                    proof {
                        assert(input_view(**input) == None::<Box<WordV>>);
                        assert(out@ =~= spec_render_word(self@));
                    }
                }
                out
            },
            CmdWord::FlagLong { value, input } => {
                let mut out: Vec<char> = Vec::new();
                out.push('-');
                out.push('-');
                let mut mid = chars_of(value.as_str());
                out.append(&mut mid);
                proof {
                    lemma_word_view_long(*self);
                    lemma_render_long(self@);
                }
                if let Some(inner) = &**input {
                    out.push(' ');
                    let mut rest = inner.render_chars();
                    out.append(&mut rest);
                    proof {
                        assert(input_view(**input) == Some(Box::new(word_view(*inner))));
                        assert(out@ =~= spec_render_word(self@));
                    }
                } else {
                    proof {
                        assert(input_view(**input) == None::<Box<WordV>>);
                        assert(out@ =~= spec_render_word(self@));
                    }
                }
                out
            },
            CmdWord::FlagCombo { values } => {
                let mut out: Vec<char> = Vec::new();
                out.push('-');
                let mut mid = values.clone();
                out.append(&mut mid);
                proof {
                    assert(out@ =~= spec_render_word(self@));
                }
                out
            },
            CmdWord::BinaryOp { lhs, rhs, .. } => {
                let mut out = lhs.render_chars();
                out.push('|');
                let mut rest = rhs.render_chars();
                out.append(&mut rest);
                proof {
                    assert(out@ =~= spec_render_word(self@));
                }
                out
            },
        }
    }

    /// This word's rendering, as the match report shows it.
    pub fn render(&self) -> (r: String)
        ensures
            r@ == spec_render_word(self@),
    {
        let cs = self.render_chars();
        string_from_chars(&cs)
    }
}

} // verus!
