//! The schema matcher: aligns a compiled pattern against the tokens of a
//! typed answer and produces the per-token match report.
//!
//! Purely positional, with two independent cursors and no backtracking: a
//! literal matches a plain string of the same text, a variable any plain
//! string, each flag kind a token of the same kind with the same name (a
//! combo comparison is order-sensitive), and any other pairing is a
//! mismatch; every step advances both cursors. A flag word with a nested
//! variable also consumes the following plain string as the variable's
//! value when one is there. Once either side is exhausted, leftover input
//! tokens are appended to the report as mismatches; leftover pattern
//! words are not reported. The matcher is infallible: a wrong answer is a
//! report full of mismatches, never an error.

use vstd::prelude::*;

use crate::input_lexer::{input_tokens_view, spec_render_input_token, Token, TokenV};
use crate::parser::{spec_render_word, wf_ast, wf_word, word_view, words_view, CmdWord, WordV};
use crate::text::{dash_char, string_eq, string_from_chars};

verus! {

/// One report entry: the text shown to the learner, and whether it
/// matched.
pub open spec fn entries_view(rs: Seq<(String, bool)>) -> Seq<(Seq<char>, bool)> {
    rs.map_values(|e: (String, bool)| (e.0@, e.1))
}

/// The mismatch entries for the input tokens left over at `t`.
pub open spec fn spec_trailing(toks: Seq<TokenV>, t: int) -> Seq<(Seq<char>, bool)>
    decreases toks.len() - t,
{
    if t < 0 || t >= toks.len() {
        Seq::empty()
    } else {
        seq![trailing_entry(toks, t)] + spec_trailing(toks, t + 1)
    }
}

/// The mismatch entry for the leftover input token at `t`.
pub open spec fn trailing_entry(toks: Seq<TokenV>, t: int) -> (Seq<char>, bool) {
    (spec_render_input_token(toks[t]), false)
}

/// The entries one matching step emits for pattern word `w` against input
/// token `tok` (with `next` the token after it), and how many input
/// tokens the step consumes.
pub open spec fn step_entries(w: WordV, tok: TokenV, next: Option<TokenV>) -> (
    Seq<(Seq<char>, bool)>,
    int,
) {
    match (w, tok) {
        (WordV::Literal { value }, TokenV::Str(text)) => (seq![(value, value == text)], 1),
        (WordV::Variable { .. }, TokenV::Str(text)) => (seq![(text, true)], 1),
        (WordV::FlagShort { value, input }, TokenV::FlagShort(c)) => {
            let head = (dash_char(value), value == c);
            match input {
                None => (seq![head], 1),
                Some(inner) => {
                    if next matches Some(TokenV::Str(_)) && *inner is Variable {
                        (seq![head, (spec_render_word(*inner), true)], 2)
                    } else {
                        (seq![head, (spec_render_word(*inner), false)], 1)
                    }
                },
            }
        },
        (WordV::FlagLong { value, input }, TokenV::FlagLong(n)) => {
            let head = (seq!['-', '-'] + value, value == n);
            match input {
                None => (seq![head], 1),
                Some(inner) => {
                    if next matches Some(TokenV::Str(_)) && *inner is Variable {
                        (seq![head, (spec_render_word(*inner), true)], 2)
                    } else {
                        (seq![head, (spec_render_word(*inner), false)], 1)
                    }
                },
            }
        },
        (WordV::FlagCombo { values }, TokenV::FlagCombo(cs)) => (
            seq![(seq!['-'] + values, values == cs)],
            1,
        ),
        _ => (seq![(spec_render_word(w), false)], 1),
    }
}

/// The lock-step walk: the entries emitted while both cursors are in
/// range, and the cursor positions where the walk stopped.
pub open spec fn spec_match_core(ast: Seq<WordV>, toks: Seq<TokenV>, a: int, t: int) -> (
    Seq<(Seq<char>, bool)>,
    int,
    int,
)
    decreases ast.len() - a,
{
    if a < 0 || t < 0 || a >= ast.len() || t >= toks.len() {
        (Seq::empty(), a, t)
    } else {
        let next = if t + 1 < toks.len() {
            Some(toks[t + 1])
        } else {
            None
        };
        let su = step_entries(ast[a], toks[t], next);
        let rest = spec_match_core(ast, toks, a + 1, t + su.1);
        (su.0 + rest.0, rest.1, rest.2)
    }
}

/// The whole match report: the lock-step entries, then a mismatch entry
/// for every leftover input token.
pub open spec fn spec_match_report(ast: Seq<WordV>, toks: Seq<TokenV>, a: int, t: int) -> Seq<
    (Seq<char>, bool),
> {
    let core = spec_match_core(ast, toks, a, t);
    core.0 + spec_trailing(toks, core.2)
}

pub open spec fn all_matched(es: Seq<(Seq<char>, bool)>) -> bool {
    forall|k: int| 0 <= k < es.len() ==> (#[trigger] es[k]).1
}

/// An answer is fully correct when every report entry matched and both
/// sequences were exactly consumed.
pub open spec fn spec_fully_correct(ast: Seq<WordV>, toks: Seq<TokenV>) -> bool {
    let core = spec_match_core(ast, toks, 0, 0);
    &&& all_matched(core.0 + spec_trailing(toks, core.2))
    &&& core.1 == ast.len()
    &&& core.2 == toks.len()
}

/// A word paired against a token of the wrong kind is reported as one
/// mismatch entry whose text is exactly the word's rendering.
pub proof fn lemma_mismatch_text_is_rendering(w: WordV, tok: TokenV, next: Option<TokenV>)
    requires
        !(w is Literal && tok is Str),
        !(w is Variable),
        !(w is FlagShort && tok is FlagShort),
        !(w is FlagLong && tok is FlagLong),
        !(w is FlagCombo && tok is FlagCombo),
    ensures
        step_entries(w, tok, next) == (seq![(spec_render_word(w), false)], 1int),
{
}

/// How [`spec_match_core`] steps, spelled out for callers.
proof fn lemma_match_core_step(ast: Seq<WordV>, toks: Seq<TokenV>, a: int, t: int)
    requires
        0 <= a < ast.len(),
        0 <= t < toks.len(),
    ensures
        ({
            let next = if t + 1 < toks.len() {
                Some(toks[t + 1])
            } else {
                None
            };
            let su = step_entries(ast[a], toks[t], next);
            let rest = spec_match_core(ast, toks, a + 1, t + su.1);
            spec_match_core(ast, toks, a, t) == (su.0 + rest.0, rest.1, rest.2)
        }),
{
}

/// Where [`spec_match_core`] stops, it stops: the walk is over.
proof fn lemma_match_core_base(ast: Seq<WordV>, toks: Seq<TokenV>, a: int, t: int)
    requires
        a >= ast.len() || t >= toks.len(),
    ensures
        spec_match_core(ast, toks, a, t) == (Seq::<(Seq<char>, bool)>::empty(), a, t),
{
}

/// How [`spec_trailing`] steps, spelled out for callers.
proof fn lemma_trailing_step(toks: Seq<TokenV>, t: int)
    requires
        0 <= t < toks.len(),
    ensures
        spec_trailing(toks, t) == seq![trailing_entry(toks, t)] + spec_trailing(toks, t + 1),
{
}

/// Tells whether two character vectors hold the same characters.
fn chars_eq(a: &Vec<char>, b: &Vec<char>) -> (r: bool)
    ensures
        r == (a@ == b@),
{
    if a.len() != b.len() {
        proof {
            assert(a@ != b@);
        }
        return false;
    }
    let n = a.len();
    let mut i: usize = 0;
    while i < n
        invariant
            0 <= i <= n,
            n == a@.len() && n == b@.len(),
            forall|k: int| 0 <= k < i ==> a@[k] == b@[k],
        decreases n - i,
    {
        if a[i] != b[i] {
            proof {
                assert(a@[i as int] != b@[i as int]);
            }
            return false;
        }
        i = i + 1;
    }
    proof {
        assert(a@ =~= b@);
    }
    true
}

/// The text `-c` for a short flag character.
fn dash_char_string(c: char) -> (r: String)
    ensures
        r@ == dash_char(c),
{
    let mut v: Vec<char> = Vec::new();
    v.push('-');
    v.push(c);
    proof {
        assert(v@ =~= dash_char(c));
    }
    string_from_chars(&v)
}

/// The text `--name` for a long flag name.
fn dash_dash_string(name: &String) -> (r: String)
    ensures
        r@ == seq!['-', '-'] + name@,
{
    let mut v: Vec<char> = Vec::new();
    v.push('-');
    v.push('-');
    let mut mid = crate::text::chars_of(name.as_str());
    v.append(&mut mid);
    proof {
        assert(v@ =~= seq!['-', '-'] + name@);
    }
    string_from_chars(&v)
}

/// The text `-cs` for a combo's characters.
fn dash_combo_string(values: &Vec<char>) -> (r: String)
    ensures
        r@ == seq!['-'] + values@,
{
    let mut v: Vec<char> = Vec::new();
    v.push('-');
    let mut mid = values.clone();
    v.append(&mut mid);
    proof {
        assert(v@ =~= seq!['-'] + values@);
    }
    string_from_chars(&v)
}

impl CmdWord {
    /// Tells whether this word is a variable.
    fn is_variable(&self) -> (r: bool)
        ensures
            r == (self@ is Variable),
    {
        match self {
            CmdWord::Variable { .. } => true,
            _ => false,
        }
    }
}

/// Walks the pattern words and the input tokens in lock step from the
/// given cursors and returns the per-token match report.
pub fn match_schema(ast: &Vec<CmdWord>, tokens: &Vec<Token>, ast_idx: usize, token_idx: usize) -> (r:
    Vec<(String, bool)>)
    ensures
        entries_view(r@) == spec_match_report(
            words_view(ast@),
            input_tokens_view(tokens@),
            ast_idx as int,
            token_idx as int,
        ),
{
    let ghost astv = words_view(ast@);
    let ghost toksv = input_tokens_view(tokens@);
    let mut a = ast_idx;
    let mut t = token_idx;
    let mut res: Vec<(String, bool)> = Vec::new();
    let ghost full = spec_match_core(astv, toksv, ast_idx as int, token_idx as int);
    while a < ast.len() && t < tokens.len()
        invariant
            astv == words_view(ast@),
            toksv == input_tokens_view(tokens@),
            full == spec_match_core(astv, toksv, ast_idx as int, token_idx as int),
            a >= ast_idx && t >= token_idx,
            ({
                let here = spec_match_core(astv, toksv, a as int, t as int);
                entries_view(res@) + here.0 == full.0 && here.1 == full.1 && here.2 == full.2
            }),
        decreases ast@.len() - a,
    {
        let ghost pre = entries_view(res@);
        let ghost here = spec_match_core(astv, toksv, a as int, t as int);
        proof {
            lemma_match_core_step(astv, toksv, a as int, t as int);
            assert(astv[a as int] == ast@[a as int]@);
            assert(toksv[t as int] == tokens@[t as int]@);
            if t + 1 < tokens.len() {
                assert(toksv[t as int + 1] == tokens@[t as int + 1]@);
            }
        }
        let ghost next = if t + 1 < toksv.len() {
            Some(toksv[t as int + 1])
        } else {
            None
        };
        let ghost su = step_entries(astv[a as int], toksv[t as int], next);
        let cmd = &ast[a];
        let token = &tokens[t];
        match (cmd, token) {
            (CmdWord::Literal { value }, Token::Str(word)) => {
                let entry = (cmd.render(), string_eq(value, word));
                proof {
                    crate::parser::lemma_render_literal(astv[a as int]);
                    assert(seq![(entry.0@, entry.1)] =~= su.0);
                }
                res.push(entry);
                a = a + 1;
                t = t + 1;
            },
            (CmdWord::Variable { .. }, Token::Str(word)) => {
                let entry = (word.clone(), true);
                proof {
                    assert(seq![(entry.0@, entry.1)] =~= su.0);
                }
                res.push(entry);
                a = a + 1;
                t = t + 1;
            },
            (CmdWord::FlagShort { value, input }, Token::FlagShort(word)) => {
                let head = (dash_char_string(*value), *value == *word);
                proof {
                    crate::parser::lemma_word_view_short(*cmd);
                }
                match &**input {
                    None => {
                        proof {
                            assert(crate::parser::input_view(**input) == None::<Box<WordV>>);
                            assert(seq![(head.0@, head.1)] =~= su.0);
                        }
                        res.push(head);
                        a = a + 1;
                        t = t + 1;
                    },
                    Some(inner) => {
                        res.push(head);
                        let consumed: bool = t + 1 < tokens.len() && tokens[t + 1].is_str()
                            && inner.is_variable();
                        let entry = (inner.render(), consumed);
                        proof {
                            assert(crate::parser::input_view(**input) == Some(
                                Box::new(word_view(*inner)),
                            ));
                            assert(seq![(head.0@, head.1), (entry.0@, entry.1)] =~= su.0);
                        }
                        res.push(entry);
                        a = a + 1;
                        if consumed {
                            t = t + 2;
                        } else {
                            t = t + 1;
                        }
                    },
                }
            },
            (CmdWord::FlagLong { value, input }, Token::FlagLong(word)) => {
                let head = (dash_dash_string(value), string_eq(value, word));
                proof {
                    crate::parser::lemma_word_view_long(*cmd);
                }
                match &**input {
                    None => {
                        proof {
                            assert(crate::parser::input_view(**input) == None::<Box<WordV>>);
                            assert(seq![(head.0@, head.1)] =~= su.0);
                        }
                        res.push(head);
                        a = a + 1;
                        t = t + 1;
                    },
                    Some(inner) => {
                        res.push(head);
                        let consumed: bool = t + 1 < tokens.len() && tokens[t + 1].is_str()
                            && inner.is_variable();
                        let entry = (inner.render(), consumed);
                        proof {
                            assert(crate::parser::input_view(**input) == Some(
                                Box::new(word_view(*inner)),
                            ));
                            assert(seq![(head.0@, head.1), (entry.0@, entry.1)] =~= su.0);
                        }
                        res.push(entry);
                        a = a + 1;
                        if consumed {
                            t = t + 2;
                        } else {
                            t = t + 1;
                        }
                    },
                }
            },
            (CmdWord::FlagCombo { values }, Token::FlagCombo(chars)) => {
                let entry = (dash_combo_string(values), chars_eq(values, chars));
                proof {
                    assert(seq![(entry.0@, entry.1)] =~= su.0);
                }
                res.push(entry);
                a = a + 1;
                t = t + 1;
            },
            _ => {
                let entry = (cmd.render(), false);
                proof {
                    assert(su == (seq![(spec_render_word(astv[a as int]), false)], 1int));
                    assert(seq![(entry.0@, entry.1)] =~= su.0);
                }
                res.push(entry);
                a = a + 1;
                t = t + 1;
            },
        }
        proof {
            let used = su.1;
            let rest = spec_match_core(astv, toksv, a as int, t as int);
            assert(here == (su.0 + rest.0, rest.1, rest.2));
            assert(entries_view(res@) =~= pre + su.0);
            assert(pre + (su.0 + rest.0) =~= (pre + su.0) + rest.0);
        }
    }
    proof {
        lemma_match_core_base(astv, toksv, a as int, t as int);
        assert(entries_view(res@) =~= full.0);
    }
    // Append a mismatch for every leftover input token.
    let ghost target = spec_match_report(astv, toksv, ast_idx as int, token_idx as int);
    proof {
        assert(entries_view(res@) + spec_trailing(toksv, t as int) == target);
    }
    while t < tokens.len()
        invariant
            toksv == input_tokens_view(tokens@),
            target == spec_match_report(astv, toksv, ast_idx as int, token_idx as int),
            entries_view(res@) + spec_trailing(toksv, t as int) == target,
        decreases tokens@.len() - t,
    {
        let ghost pre = entries_view(res@);
        let entry = (tokens[t].render(), false);
        proof {
            lemma_trailing_step(toksv, t as int);
            assert(toksv[t as int] == tokens@[t as int]@);
            assert((entry.0@, entry.1) == trailing_entry(toksv, t as int));
        }
        res.push(entry);
        t = t + 1;
        proof {
            let rest = spec_trailing(toksv, t as int);
            assert(pre + (seq![trailing_entry(toksv, t - 1)] + rest) =~= pre.push(
                (entry.0@, entry.1),
            ) + rest);
            assert(entries_view(res@) =~= pre.push((entry.0@, entry.1)));
        }
    }
    proof {
        assert(spec_trailing(toksv, t as int) =~= Seq::<(Seq<char>, bool)>::empty());
        assert(entries_view(res@) + Seq::<(Seq<char>, bool)>::empty() =~= entries_view(res@));
    }
    res
}

/// Pattern words and input tokens the walk consumed: the cursor
/// positions at which the lock-step walk stops.
fn consumed_ends(ast: &Vec<CmdWord>, tokens: &Vec<Token>) -> (r: (usize, usize))
    ensures
        ({
            let core = spec_match_core(words_view(ast@), input_tokens_view(tokens@), 0, 0);
            r.0 == core.1 && r.1 == core.2
        }),
{
    let ghost astv = words_view(ast@);
    let ghost toksv = input_tokens_view(tokens@);
    let mut a: usize = 0;
    let mut t: usize = 0;
    let ghost full = spec_match_core(astv, toksv, 0, 0);
    while a < ast.len() && t < tokens.len()
        invariant
            astv == words_view(ast@),
            toksv == input_tokens_view(tokens@),
            full == spec_match_core(astv, toksv, 0, 0),
            spec_match_core(astv, toksv, a as int, t as int).1 == full.1,
            spec_match_core(astv, toksv, a as int, t as int).2 == full.2,
        decreases ast@.len() - a,
    {
        proof {
            lemma_match_core_step(astv, toksv, a as int, t as int);
            assert(astv[a as int] == ast@[a as int]@);
            assert(toksv[t as int] == tokens@[t as int]@);
            if t + 1 < tokens.len() {
                assert(toksv[t as int + 1] == tokens@[t as int + 1]@);
            }
        }
        let cmd = &ast[a];
        let token = &tokens[t];
        let mut used: usize = 1;
        match (cmd, token) {
            (CmdWord::FlagShort { input, .. }, Token::FlagShort(_)) => {
                proof {
                    crate::parser::lemma_word_view_short(*cmd);
                }
                if let Some(inner) = &**input {
                    proof {
                        assert(crate::parser::input_view(**input) == Some(
                            Box::new(word_view(*inner)),
                        ));
                    }
                    if t + 1 < tokens.len() && tokens[t + 1].is_str() && inner.is_variable() {
                        used = 2;
                    }
                } else {
                    proof {
                        assert(crate::parser::input_view(**input) == None::<Box<WordV>>);
                    }
                }
            },
            (CmdWord::FlagLong { input, .. }, Token::FlagLong(_)) => {
                proof {
                    crate::parser::lemma_word_view_long(*cmd);
                }
                if let Some(inner) = &**input {
                    proof {
                        assert(crate::parser::input_view(**input) == Some(
                            Box::new(word_view(*inner)),
                        ));
                    }
                    if t + 1 < tokens.len() && tokens[t + 1].is_str() && inner.is_variable() {
                        used = 2;
                    }
                } else {
                    proof {
                        assert(crate::parser::input_view(**input) == None::<Box<WordV>>);
                    }
                }
            },
            _ => {},
        }
        proof {
            let next = if t as int + 1 < toksv.len() {
                Some(toksv[t as int + 1])
            } else {
                None
            };
            assert(step_entries(astv[a as int], toksv[t as int], next).1 == used as int);
        }
        a = a + 1;
        t = t + used;
    }
    proof {
        lemma_match_core_base(astv, toksv, a as int, t as int);
    }
    (a, t)
}

/// Tells whether the answer is fully correct: every report entry matched
/// and both sequences were exactly consumed.
pub fn fully_correct(ast: &Vec<CmdWord>, tokens: &Vec<Token>) -> (r: bool)
    ensures
        r == spec_fully_correct(words_view(ast@), input_tokens_view(tokens@)),
{
    let ghost astv = words_view(ast@);
    let ghost toksv = input_tokens_view(tokens@);
    let report = match_schema(ast, tokens, 0, 0);
    let ghost es = entries_view(report@);
    let mut all = true;
    let mut i: usize = 0;
    while i < report.len()
        invariant
            es == entries_view(report@),
            0 <= i <= report@.len(),
            all == all_matched(es.subrange(0, i as int)),
        decreases report@.len() - i,
    {
        proof {
            assert(es.subrange(0, i + 1) =~= es.subrange(0, i as int).push(es[i as int]));
            assert(all_matched(es.subrange(0, i + 1)) == (all_matched(es.subrange(0, i as int))
                && es[i as int].1)) by {
                if all_matched(es.subrange(0, i as int)) && es[i as int].1 {
                    assert forall|k: int| 0 <= k < i + 1 implies (#[trigger] es.subrange(
                        0,
                        i + 1,
                    )[k]).1 by {
                        if k < i {
                            assert(es.subrange(0, i as int)[k].1);
                        }
                    }
                }
                if all_matched(es.subrange(0, i + 1)) {
                    assert forall|k: int| 0 <= k < i implies (#[trigger] es.subrange(
                        0,
                        i as int,
                    )[k]).1 by {
                        assert(es.subrange(0, i + 1)[k].1);
                    }
                    assert(es.subrange(0, i + 1)[i as int].1);
                }
            }
            assert(es[i as int] == (report@[i as int].0@, report@[i as int].1));
        }
        all = all && report[i].1;
        i = i + 1;
    }
    proof {
        assert(es.subrange(0, es.len() as int) =~= es);
    }
    let ends = consumed_ends(ast, tokens);
    all && ends.0 == ast.len() && ends.1 == tokens.len()
}

/// The token sequence `toks` substitutes concrete values for `ast`: each
/// literal is typed as itself, each variable as some plain string, each
/// flag as a flag token of the same kind and name (with a plain string
/// after it for a nested variable), and nothing more is typed.
pub open spec fn spec_substitutes(ast: Seq<WordV>, toks: Seq<TokenV>, a: int, t: int) -> bool
    decreases ast.len() - a,
{
    if a < 0 || t < 0 {
        false
    } else if a >= ast.len() {
        t == toks.len()
    } else {
        match ast[a] {
            WordV::Literal { value } => t < toks.len() && (toks[t] matches TokenV::Str(text)
                && text == value) && spec_substitutes(ast, toks, a + 1, t + 1),
            WordV::Variable { .. } => t < toks.len() && toks[t] is Str && spec_substitutes(
                ast,
                toks,
                a + 1,
                t + 1,
            ),
            WordV::FlagShort { value, input } => t < toks.len() && (toks[t] matches
                TokenV::FlagShort(c) && c == value) && (match input {
                None => spec_substitutes(ast, toks, a + 1, t + 1),
                Some(_) => t + 1 < toks.len() && toks[t + 1] is Str && spec_substitutes(
                    ast,
                    toks,
                    a + 1,
                    t + 2,
                ),
            }),
            WordV::FlagLong { value, input } => t < toks.len() && (toks[t] matches
                TokenV::FlagLong(n) && n == value) && (match input {
                None => spec_substitutes(ast, toks, a + 1, t + 1),
                Some(_) => t + 1 < toks.len() && toks[t + 1] is Str && spec_substitutes(
                    ast,
                    toks,
                    a + 1,
                    t + 2,
                ),
            }),
            WordV::FlagCombo { values } => t < toks.len() && (toks[t] matches TokenV::FlagCombo(cs)
                && cs == values) && spec_substitutes(ast, toks, a + 1, t + 1),
            WordV::BinaryOp { .. } => false,
        }
    }
}

/// Matched entries followed by matched entries are all matched.
proof fn lemma_all_matched_app(x: Seq<(Seq<char>, bool)>, y: Seq<(Seq<char>, bool)>)
    requires
        all_matched(x),
        all_matched(y),
    ensures
        all_matched(x + y),
{
    assert forall|k: int| 0 <= k < (x + y).len() implies (#[trigger] (x + y)[k]).1 by {
        if k < x.len() {
            assert((x + y)[k] == x[k]);
        } else {
            assert((x + y)[k] == y[k - x.len()]);
        }
    }
}

/// The walk from `(a, t)` over a substituted answer matches every entry
/// and consumes both sides whole.
proof fn lemma_subst_core(ast: Seq<WordV>, toks: Seq<TokenV>, a: int, t: int)
    requires
        0 <= a <= ast.len(),
        0 <= t <= toks.len(),
        wf_ast(ast),
        spec_substitutes(ast, toks, a, t),
    ensures
        ({
            let core = spec_match_core(ast, toks, a, t);
            all_matched(core.0) && core.1 == ast.len() && core.2 == toks.len()
        }),
    decreases ast.len() - a,
{
    if a >= ast.len() {
        lemma_match_core_base(ast, toks, a, t);
    } else {
        assert(wf_word(ast[a]));
        assert(t < toks.len());
        lemma_match_core_step(ast, toks, a, t);
        let next = if t + 1 < toks.len() {
            Some(toks[t + 1])
        } else {
            None
        };
        let su = step_entries(ast[a], toks[t], next);
        match ast[a] {
            WordV::Literal { value } => {
                lemma_subst_core(ast, toks, a + 1, t + 1);
            },
            WordV::Variable { .. } => {
                lemma_subst_core(ast, toks, a + 1, t + 1);
            },
            WordV::FlagShort { value, input } => {
                match input {
                    None => {
                        lemma_subst_core(ast, toks, a + 1, t + 1);
                    },
                    Some(inner) => {
                        assert(toks[t + 1] is Str);
                        assert(next matches Some(TokenV::Str(_)));
                        assert(*inner is Variable);
                        lemma_subst_core(ast, toks, a + 1, t + 2);
                    },
                }
            },
            WordV::FlagLong { value, input } => {
                match input {
                    None => {
                        lemma_subst_core(ast, toks, a + 1, t + 1);
                    },
                    Some(inner) => {
                        assert(toks[t + 1] is Str);
                        assert(next matches Some(TokenV::Str(_)));
                        assert(*inner is Variable);
                        lemma_subst_core(ast, toks, a + 1, t + 2);
                    },
                }
            },
            WordV::FlagCombo { values } => {
                lemma_subst_core(ast, toks, a + 1, t + 1);
            },
            WordV::BinaryOp { .. } => {
                assert(false);
            },
        }
        let rest = spec_match_core(ast, toks, a + 1, t + su.1);
        assert(all_matched(su.0));
        lemma_all_matched_app(su.0, rest.0);
    }
}

/// Substituting concrete values for every variable in a pattern and
/// typing exactly that sequence is fully correct.
pub proof fn lemma_substitution_fully_correct(ast: Seq<WordV>, toks: Seq<TokenV>)
    requires
        wf_ast(ast),
        spec_substitutes(ast, toks, 0, 0),
    ensures
        spec_fully_correct(ast, toks),
{
    lemma_subst_core(ast, toks, 0, 0);
    let core = spec_match_core(ast, toks, 0, 0);
    assert(spec_trailing(toks, core.2) =~= Seq::<(Seq<char>, bool)>::empty());
    lemma_all_matched_app(core.0, spec_trailing(toks, core.2));
}

} // verus!
