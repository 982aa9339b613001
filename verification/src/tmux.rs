//! A small word-level lexer for command descriptions: each
//! space-separated word becomes a command name, a flag, or an argument.
//! An argument written `<...>` that reads as a number is numeric; a word
//! starting with `[` is skipped.

use vstd::prelude::*;

use crate::text::{chars_of, spec_words_at, split_words, string_from_chars, strings_view};

verus! {

/// One argument value: a number where the text reads as one, else the
/// text itself.
#[derive(Debug, PartialEq)]
pub enum Arg {
    String(String),
    Int(usize),
}

/// One word of a command description.
#[derive(Debug, PartialEq)]
pub enum Token {
    Command(String),
    Flag(String),
    Argument(Arg),
}

pub open spec fn is_digit(c: char) -> bool {
    '0' <= c && c <= '9'
}

/// The value of a decimal digit character.
pub open spec fn digit_val(c: char) -> int {
    if c == '0' {
        0
    } else if c == '1' {
        1
    } else if c == '2' {
        2
    } else if c == '3' {
        3
    } else if c == '4' {
        4
    } else if c == '5' {
        5
    } else if c == '6' {
        6
    } else if c == '7' {
        7
    } else if c == '8' {
        8
    } else {
        9
    }
}

/// The number the digit characters of `w` spell, most significant first.
pub open spec fn spec_num(w: Seq<char>) -> int
    decreases w.len(),
{
    if w.len() == 0 {
        0
    } else {
        spec_num(w.drop_last()) * 10 + digit_val(w.last())
    }
}

pub open spec fn all_digits(w: Seq<char>) -> bool {
    forall|k: int| 0 <= k < w.len() ==> is_digit(#[trigger] w[k])
}

/// What `usize::from_str` accepts: an optional `+`, then at least one
/// digit, spelling a value that fits.
pub open spec fn spec_parse_usize(w: Seq<char>) -> Option<usize> {
    let body = if w.len() > 0 && w[0] == '+' {
        w.skip(1)
    } else {
        w
    };
    if body.len() > 0 && all_digits(body) && spec_num(body) <= usize::MAX {
        Some(spec_num(body) as usize)
    } else {
        None
    }
}

/// A digit string spells a non-negative number.
proof fn lemma_num_nonneg(w: Seq<char>)
    ensures
        spec_num(w) >= 0,
    decreases w.len(),
{
    if w.len() > 0 {
        lemma_num_nonneg(w.drop_last());
        assert(digit_val(w.last()) >= 0);
        assert(spec_num(w.drop_last()) * 10 >= 0);
    }
}

/// A longer digit prefix never spells a smaller number.
proof fn lemma_num_prefix_le(w: Seq<char>, j: int)
    requires
        0 <= j <= w.len(),
    ensures
        spec_num(w.subrange(0, j)) <= spec_num(w),
    decreases w.len() - j,
{
    if j < w.len() {
        lemma_num_prefix_le(w, j + 1);
        let shorter = w.subrange(0, j);
        let longer = w.subrange(0, j + 1);
        assert(longer.drop_last() =~= shorter);
        assert(longer.last() == w[j]);
        lemma_num_nonneg(shorter);
        assert(spec_num(shorter) * 10 >= spec_num(shorter));
        assert(spec_num(longer) == spec_num(shorter) * 10 + digit_val(w[j]));
        assert(digit_val(w[j]) >= 0);
        if j + 1 == w.len() {
            assert(w.subrange(0, j + 1) =~= w);
        }
    } else {
        assert(w.subrange(0, j) =~= w);
    }
}

/// Tells whether `c` is a decimal digit, and its value.
fn digit_of(c: char) -> (r: Option<usize>)
    ensures
        match r {
            Some(d) => is_digit(c) && d == digit_val(c) && d <= 9,
            None => !is_digit(c),
        },
{
    match c {
        '0' => Some(0),
        '1' => Some(1),
        '2' => Some(2),
        '3' => Some(3),
        '4' => Some(4),
        '5' => Some(5),
        '6' => Some(6),
        '7' => Some(7),
        '8' => Some(8),
        '9' => Some(9),
        _ => None,
    }
}

/// Reads `w` as a decimal number the way `usize::from_str` would: an
/// optional `+`, then digits; too large a value is no number.
pub fn parse_usize(w: &str) -> (r: Option<usize>)
    ensures
        r == spec_parse_usize(w@),
{
    let chars = chars_of(w);
    let ghost body = if w@.len() > 0 && w@[0] == '+' {
        w@.skip(1)
    } else {
        w@
    };
    let start: usize = if chars.len() > 0 && chars[0] == '+' {
        1
    } else {
        0
    };
    proof {
        assert(body =~= w@.subrange(start as int, w@.len() as int));
    }
    if chars.len() == start {
        return None;
    }
    let mut acc: usize = 0;
    let mut i: usize = start;
    while i < chars.len()
        invariant
            start <= i <= chars@.len(),
            chars@ == w@,
            body == w@.subrange(start as int, w@.len() as int),
            body == (if w@.len() > 0 && w@[0] == '+' {
                w@.skip(1)
            } else {
                w@
            }),
            body.len() > 0,
            all_digits(w@.subrange(start as int, i as int)),
            acc == spec_num(w@.subrange(start as int, i as int)),
        decreases chars@.len() - i,
    {
        let ghost prefix = w@.subrange(start as int, i as int);
        let d = match digit_of(chars[i]) {
            Some(d) => d,
            None => {
                proof {
                    assert(body[i - start] == w@[i as int]);
                    assert(!all_digits(body));
                }
                return None;
            },
        };
        let ghost longer = w@.subrange(start as int, i + 1);
        proof {
            assert(longer.drop_last() =~= prefix);
            assert(longer.last() == w@[i as int]);
            assert(spec_num(longer) == spec_num(prefix) * 10 + digit_val(w@[i as int]));
        }
        if acc > (usize::MAX - d) / 10 {
            // The digits seen so far already spell more than fits.
            proof {
                let floor = (usize::MAX - d) / 10;
                assert(floor * 10 + 9 >= usize::MAX - d);
                assert(acc >= floor + 1);
                assert(acc * 10 >= (floor + 1) * 10);
                assert(spec_num(longer) == acc * 10 + d);
                assert(spec_num(longer) > usize::MAX);
                let rel = i + 1 - start;
                assert(body.subrange(0, rel) =~= longer);
                lemma_num_prefix_le(body, rel);
                assert(spec_num(body) > usize::MAX);
            }
            return None;
        }
        proof {
            let floor = (usize::MAX - d) / 10;
            assert(acc <= floor);
            assert(acc * 10 <= floor * 10);
            assert(floor * 10 <= usize::MAX - d);
        }
        acc = acc * 10 + d;
        proof {
            assert(all_digits(longer));
        }
        i = i + 1;
    }
    proof {
        assert(w@.subrange(start as int, i as int) =~= body);
        assert(body.len() > 0);
    }
    Some(acc)
}

/// The mathematical shape of a [`Token`].
pub enum TokenV {
    Command(Seq<char>),
    Flag(Seq<char>),
    ArgInt(usize),
    ArgString(Seq<char>),
}

impl View for Token {
    type V = TokenV;

    open spec fn view(&self) -> TokenV {
        match self {
            Token::Command(s) => TokenV::Command(s@),
            Token::Flag(s) => TokenV::Flag(s@),
            Token::Argument(Arg::Int(n)) => TokenV::ArgInt(*n),
            Token::Argument(Arg::String(s)) => TokenV::ArgString(s@),
        }
    }
}

pub open spec fn tmux_tokens_view(ts: Seq<Token>) -> Seq<TokenV> {
    ts.map_values(|t: Token| t@)
}

/// The token one description word becomes: none for a `[`-word, a flag
/// for a `-`-word, an argument for a `<...>` word (numeric when its
/// inside reads as a number), and a command name otherwise.
pub open spec fn spec_word_token(w: Seq<char>) -> Option<TokenV> {
    if w.len() > 0 && w[0] == '[' {
        None
    } else if w.len() > 0 && w[0] == '-' {
        Some(TokenV::Flag(w))
    } else if w.len() >= 2 && w[0] == '<' && w.last() == '>' {
        let inner = w.subrange(1, w.len() - 1);
        match spec_parse_usize(inner) {
            Some(n) => Some(TokenV::ArgInt(n)),
            None => Some(TokenV::ArgString(inner)),
        }
    } else {
        Some(TokenV::Command(w))
    }
}

/// The tokens of the description's words from `k` on.
pub open spec fn spec_lex_words(words: Seq<Seq<char>>, k: int) -> Seq<TokenV>
    decreases words.len() - k,
{
    if k < 0 || k >= words.len() {
        Seq::empty()
    } else {
        match spec_word_token(words[k]) {
            Some(t) => seq![t] + spec_lex_words(words, k + 1),
            None => spec_lex_words(words, k + 1),
        }
    }
}

/// Tokenizes a whole command description, one word at a time.
pub fn lex(input: &str) -> (r: Vec<Token>)
    ensures
        tmux_tokens_view(r@) == spec_lex_words(spec_words_at(input@, 0), 0),
{
    let words = split_words(input);
    let ghost wordsv = spec_words_at(input@, 0);
    proof {
        assert(strings_view(words@) == wordsv);
    }
    let mut out: Vec<Token> = Vec::new();
    let mut k: usize = 0;
    while k < words.len()
        invariant
            0 <= k <= words@.len(),
            strings_view(words@) == wordsv,
            spec_lex_words(wordsv, 0) == tmux_tokens_view(out@) + spec_lex_words(
                wordsv,
                k as int,
            ),
        decreases words@.len() - k,
    {
        let ghost pre = tmux_tokens_view(out@);
        proof {
            assert(wordsv[k as int] == words@[k as int]@);
        }
        let word = &words[k];
        let cs = chars_of(word.as_str());
        if cs.len() > 0 && cs[0] == '[' {
            // Bracketed grouping is not tokenized at this level.
        } else if cs.len() > 0 && cs[0] == '-' {
            out.push(Token::Flag(word.clone()));
        } else if cs.len() >= 2 && cs[0] == '<' && cs[cs.len() - 1] == '>' {
            let mut inner: Vec<char> = Vec::new();
            let mut j: usize = 1;
            while j < cs.len() - 1
                invariant
                    1 <= j <= cs@.len() - 1,
                    cs@.len() >= 2,
                    inner@ == cs@.subrange(1, j as int),
                decreases cs@.len() - j,
            {
                inner.push(cs[j]);
                proof {
                    assert(inner@ =~= cs@.subrange(1, j + 1));
                }
                j = j + 1;
            }
            let inner_str = string_from_chars(&inner);
            match parse_usize(inner_str.as_str()) {
                Some(n) => out.push(Token::Argument(Arg::Int(n))),
                None => out.push(Token::Argument(Arg::String(inner_str))),
            }
        } else {
            out.push(Token::Command(word.clone()));
        }
        proof {
            let wv = wordsv[k as int];
            let now = spec_lex_words(wordsv, k as int);
            let next = spec_lex_words(wordsv, k + 1);
            assert(now == (match spec_word_token(wv) {
                Some(t) => seq![t] + next,
                None => next,
            }));
            match spec_word_token(wv) {
                Some(t) => {
                    assert(tmux_tokens_view(out@) =~= pre.push(t));
                    assert(pre + (seq![t] + next) =~= pre.push(t) + next);
                },
                None => {
                    assert(tmux_tokens_view(out@) =~= pre);
                },
            }
        }
        k = k + 1;
    }
    proof {
        assert(spec_lex_words(wordsv, k as int) =~= Seq::<TokenV>::empty());
        assert(tmux_tokens_view(out@) + Seq::<TokenV>::empty() =~= tmux_tokens_view(out@));
    }
    out
}

} // verus!
