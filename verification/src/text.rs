//! Character classes, maximal-run scanning, and conversions between
//! `&str`, `Vec<char>` and `String`.
//!
//! Both lexers read their input as a character sequence with a cursor and
//! take maximal runs of characters from a class; `run_end` is the shared
//! specification of where such a run stops.

use vstd::prelude::*;

verus! {

/// The only separator both lexers recognize.
pub open spec fn is_space(c: char) -> bool {
    c == ' '
}

pub open spec fn is_nonspace(c: char) -> bool {
    c != ' '
}

/// An ASCII letter: the first character of every literal word.
pub open spec fn is_letter(c: char) -> bool {
    ('a' <= c && c <= 'z') || ('A' <= c && c <= 'Z')
}

/// A character that may continue a literal word: letters, dash, underscore.
pub open spec fn is_str_char(c: char) -> bool {
    is_letter(c) || c == '-' || c == '_'
}

/// A character that may appear in a flag name: ASCII letters, digits,
/// dash and underscore.
pub open spec fn is_flag_char(c: char) -> bool {
    is_letter(c) || ('0' <= c && c <= '9') || c == '-' || c == '_'
}

pub open spec fn is_dot(c: char) -> bool {
    c == '.'
}

/// The character classes, as predicates that `run_end` can take. Naming
/// each one keeps every use the same function value.
pub open spec fn space_pred() -> spec_fn(char) -> bool {
    |c: char| is_space(c)
}

pub open spec fn nonspace_pred() -> spec_fn(char) -> bool {
    |c: char| is_nonspace(c)
}

pub open spec fn str_pred() -> spec_fn(char) -> bool {
    |c: char| is_str_char(c)
}

pub open spec fn flag_pred() -> spec_fn(char) -> bool {
    |c: char| is_flag_char(c)
}

pub open spec fn dot_pred() -> spec_fn(char) -> bool {
    |c: char| is_dot(c)
}

/// Tells whether `c` is an ASCII letter.
pub fn letter_char(c: char) -> (r: bool)
    ensures
        r == is_letter(c),
{
    ('a' <= c && c <= 'z') || ('A' <= c && c <= 'Z')
}

/// Tells whether `c` may continue a literal word.
pub fn str_char(c: char) -> (r: bool)
    ensures
        r == is_str_char(c),
{
    letter_char(c) || c == '-' || c == '_'
}

/// Tells whether `c` may appear in a flag name.
pub fn flag_char(c: char) -> (r: bool)
    ensures
        r == is_flag_char(c),
{
    letter_char(c) || ('0' <= c && c <= '9') || c == '-' || c == '_'
}

/// The index just past the maximal run of characters satisfying `pred`
/// that starts at `i`.
pub open spec fn run_end(s: Seq<char>, i: int, pred: spec_fn(char) -> bool) -> int
    decreases s.len() - i,
        when 0 <= i <= s.len()
{
    if i < s.len() && pred(s[i]) {
        run_end(s, i + 1, pred)
    } else {
        i
    }
}

/// What `run_end` delivers: a position within bounds, a run that satisfies
/// `pred` throughout, and a stop that is the end or fails `pred`.
pub proof fn lemma_run_end(s: Seq<char>, i: int, pred: spec_fn(char) -> bool)
    requires
        0 <= i <= s.len(),
    ensures
        i <= run_end(s, i, pred) <= s.len(),
        forall|k: int| i <= k < run_end(s, i, pred) ==> pred(s[k]),
        run_end(s, i, pred) == s.len() || !pred(s[run_end(s, i, pred)]),
    decreases s.len() - i,
{
    if i < s.len() && pred(s[i]) {
        lemma_run_end(s, i + 1, pred);
    }
}

/// A dash followed by one flag character. (A named helper: a non-literal
/// character inside a recursive definition defeats the solver's
/// unfolding.)
pub open spec fn dash_char(value: char) -> Seq<char> {
    seq!['-', value]
}

/// Relies on `String`'s `FromIterator<char>`: collecting a sequence of
/// characters yields the string holding exactly those characters.
#[verifier::external_body]
pub fn string_from_chars(chars: &Vec<char>) -> (r: String)
    ensures
        r@ == chars@,
{
    chars.iter().collect()
}

/// The characters of `s`, as a vector.
pub fn chars_of(s: &str) -> (r: Vec<char>)
    ensures
        r@ == s@,
{
    let mut r: Vec<char> = Vec::new();
    for c in it: s.chars()
        invariant
            r@ == it.seq().subrange(0, it.index() as int),
            it.seq() == s@,
    {
        r.push(c);
    }
    proof {
        assert(r@ =~= s@);
    }
    r
}

/// The first space-separated word of `s`, if any.
pub open spec fn spec_first_word(s: Seq<char>) -> Option<Seq<char>> {
    let b = run_end(s, 0, space_pred());
    if b == s.len() {
        None
    } else {
        Some(s.subrange(b, run_end(s, b, nonspace_pred())))
    }
}

/// The first word of `chars`: the run of non-space characters that follows
/// the leading spaces; `None` when the input is all spaces.
#[verifier::loop_isolation(false)]
pub fn first_word_chars(chars: &Vec<char>) -> (r: Option<Vec<char>>)
    ensures
        match r {
            Some(w) => spec_first_word(chars@) == Some(w@),
            None => spec_first_word(chars@) is None,
        },
{
    let ghost s = chars@;
    let mut i: usize = 0;
    while i < chars.len() && chars[i] == ' '
        invariant
            0 <= i <= s.len(),
            s == chars@,
            run_end(s, 0, space_pred()) == run_end(s, i as int, space_pred()),
        decreases s.len() - i,
    {
        proof {
            assert(space_pred()(s[i as int]));
            assert(run_end(s, i as int, space_pred()) == run_end(s, i + 1, space_pred()));
        }
        i = i + 1;
    }
    proof {
        assert(run_end(s, i as int, space_pred()) == i);
    }
    if i == chars.len() {
        return None;
    }
    let start = i;
    let mut w: Vec<char> = Vec::new();
    while i < chars.len() && chars[i] != ' '
        invariant
            start <= i <= s.len(),
            s == chars@,
            run_end(s, start as int, nonspace_pred()) == run_end(s, i as int, nonspace_pred()),
            w@ == s.subrange(start as int, i as int),
        decreases s.len() - i,
    {
        proof {
            assert(nonspace_pred()(s[i as int]));
            assert(run_end(s, i as int, nonspace_pred()) == run_end(s, i + 1, nonspace_pred()));
        }
        w.push(chars[i]);
        proof {
            assert(w@ =~= s.subrange(start as int, i + 1));
        }
        i = i + 1;
    }
    proof {
        assert(run_end(s, i as int, nonspace_pred()) == i);
    }
    Some(w)
}

/// The first space-separated word of `s`, if any.
pub fn first_word(s: &str) -> (r: Option<String>)
    ensures
        match r {
            Some(w) => spec_first_word(s@) == Some(w@),
            None => spec_first_word(s@) is None,
        },
{
    let chars = chars_of(s);
    match first_word_chars(&chars) {
        Some(w) => Some(string_from_chars(&w)),
        None => None,
    }
}

/// The decimal digit character for `d`.
pub open spec fn spec_digit(d: int) -> char {
    if d == 0 {
        '0'
    } else if d == 1 {
        '1'
    } else if d == 2 {
        '2'
    } else if d == 3 {
        '3'
    } else if d == 4 {
        '4'
    } else if d == 5 {
        '5'
    } else if d == 6 {
        '6'
    } else if d == 7 {
        '7'
    } else if d == 8 {
        '8'
    } else {
        '9'
    }
}

/// The decimal rendering of a non-negative number, most significant digit
/// first.
pub open spec fn spec_decimal(n: int) -> Seq<char>
    decreases n,
{
    if n < 10 {
        seq![spec_digit(n)]
    } else {
        spec_decimal(n / 10) + seq![spec_digit(n % 10)]
    }
}

/// The decimal digit character for `d`.
pub fn digit_char(d: u16) -> (r: char)
    requires
        d < 10,
    ensures
        r == spec_digit(d as int),
{
    match d {
        0u16 => '0',
        1u16 => '1',
        2u16 => '2',
        3u16 => '3',
        4u16 => '4',
        5u16 => '5',
        6u16 => '6',
        7u16 => '7',
        8u16 => '8',
        _ => '9',
    }
}

/// The decimal rendering of `n`.
pub fn u16_string(n: u16) -> (r: String)
    ensures
        r@ == spec_decimal(n as int),
{
    let mut v: Vec<char> = Vec::new();
    if n >= 10000 {
        v.push(digit_char(n / 10000));
    }
    if n >= 1000 {
        v.push(digit_char((n / 1000) % 10));
    }
    if n >= 100 {
        v.push(digit_char((n / 100) % 10));
    }
    if n >= 10 {
        v.push(digit_char((n / 10) % 10));
    }
    v.push(digit_char(n % 10));
    proof {
        let m = n as int;
        if m < 10 {
            assert(v@ =~= spec_decimal(m));
        } else if m < 100 {
            assert(spec_decimal(m) == spec_decimal(m / 10) + seq![spec_digit(m % 10)]);
            assert(v@ =~= spec_decimal(m));
        } else if m < 1000 {
            assert(spec_decimal(m) == spec_decimal(m / 10) + seq![spec_digit(m % 10)]);
            assert(spec_decimal(m / 10) == spec_decimal(m / 10 / 10) + seq![
                spec_digit(m / 10 % 10),
            ]);
            assert(m / 10 / 10 == m / 100);
            assert(v@ =~= spec_decimal(m));
        } else if m < 10000 {
            assert(spec_decimal(m) == spec_decimal(m / 10) + seq![spec_digit(m % 10)]);
            assert(spec_decimal(m / 10) == spec_decimal(m / 10 / 10) + seq![
                spec_digit(m / 10 % 10),
            ]);
            assert(spec_decimal(m / 100) == spec_decimal(m / 100 / 10) + seq![
                spec_digit(m / 100 % 10),
            ]);
            assert(m / 10 / 10 == m / 100);
            assert(m / 100 / 10 == m / 1000);
            assert(v@ =~= spec_decimal(m));
        } else {
            assert(spec_decimal(m) == spec_decimal(m / 10) + seq![spec_digit(m % 10)]);
            assert(spec_decimal(m / 10) == spec_decimal(m / 10 / 10) + seq![
                spec_digit(m / 10 % 10),
            ]);
            assert(spec_decimal(m / 100) == spec_decimal(m / 100 / 10) + seq![
                spec_digit(m / 100 % 10),
            ]);
            assert(spec_decimal(m / 1000) == spec_decimal(m / 1000 / 10) + seq![
                spec_digit(m / 1000 % 10),
            ]);
            assert(m / 10 / 10 == m / 100);
            assert(m / 100 / 10 == m / 1000);
            assert(m / 1000 / 10 == m / 10000);
            assert(m / 10000 < 10);
            assert(v@ =~= spec_decimal(m));
        }
    }
    string_from_chars(&v)
}

/// The word whose first character stands at `i`: the maximal run of
/// non-space characters.
pub open spec fn word_at(s: Seq<char>, i: int) -> Seq<char> {
    s.subrange(i, run_end(s, i, nonspace_pred()))
}

/// The space-separated words of `s` from position `i` on.
pub open spec fn spec_words_at(s: Seq<char>, i: int) -> Seq<Seq<char>>
    decreases s.len() - i,
        via spec_words_at_dec
{
    if i < 0 || i >= s.len() {
        Seq::empty()
    } else if is_space(s[i]) {
        spec_words_at(s, i + 1)
    } else {
        seq![word_at(s, i)] + spec_words_at(s, run_end(s, i, nonspace_pred()))
    }
}

#[via_fn]
proof fn spec_words_at_dec(s: Seq<char>, i: int) {
    if 0 <= i && i < s.len() && !is_space(s[i]) {
        assert(nonspace_pred()(s[i]));
        assert(run_end(s, i, nonspace_pred()) == run_end(s, i + 1, nonspace_pred()));
        lemma_run_end(s, i + 1, nonspace_pred());
    }
}

/// How [`spec_words_at`] steps over a word, spelled out for callers.
pub proof fn lemma_words_at_step(s: Seq<char>, i: int)
    requires
        0 <= i < s.len(),
        !is_space(s[i]),
    ensures
        spec_words_at(s, i) == seq![word_at(s, i)] + spec_words_at(
            s,
            run_end(s, i, nonspace_pred()),
        ),
{
}

/// Skipping spaces does not change the words.
pub proof fn lemma_words_skip_spaces(s: Seq<char>, i: int)
    requires
        0 <= i <= s.len(),
    ensures
        spec_words_at(s, i) == spec_words_at(s, run_end(s, i, space_pred())),
    decreases s.len() - i,
{
    if i < s.len() && is_space(s[i]) {
        assert(space_pred()(s[i]));
        assert(run_end(s, i, space_pred()) == run_end(s, i + 1, space_pred()));
        lemma_words_skip_spaces(s, i + 1);
    } else {
        assert(run_end(s, i, space_pred()) == i);
    }
}

/// Splits `s` into its space-separated words.
pub fn split_words(s: &str) -> (r: Vec<String>)
    ensures
        strings_view(r@) == spec_words_at(s@, 0),
{
    let chars = chars_of(s);
    let ghost sv = s@;
    let mut out: Vec<String> = Vec::new();
    let mut i: usize = 0;
    while i < chars.len()
        invariant
            0 <= i <= sv.len(),
            chars@ == sv,
            spec_words_at(sv, 0) == strings_view(out@) + spec_words_at(sv, i as int),
        decreases sv.len() - i,
    {
        let ghost pre = strings_view(out@);
        if chars[i] == ' ' {
            proof {
                assert(spec_words_at(sv, i as int) == spec_words_at(sv, i + 1));
            }
            i = i + 1;
        } else {
            proof {
                lemma_words_at_step(sv, i as int);
            }
            let start = i;
            let mut w: Vec<char> = Vec::new();
            while i < chars.len() && chars[i] != ' '
                invariant
                    0 <= start <= i <= sv.len(),
                    chars@ == sv,
                    run_end(sv, start as int, nonspace_pred()) == run_end(
                        sv,
                        i as int,
                        nonspace_pred(),
                    ),
                    w@ == sv.subrange(start as int, i as int),
                decreases sv.len() - i,
            {
                proof {
                    assert(nonspace_pred()(sv[i as int]));
                    assert(run_end(sv, i as int, nonspace_pred()) == run_end(
                        sv,
                        i + 1,
                        nonspace_pred(),
                    ));
                }
                w.push(chars[i]);
                proof {
                    assert(w@ =~= sv.subrange(start as int, i + 1));
                }
                i = i + 1;
            }
            proof {
                assert(run_end(sv, i as int, nonspace_pred()) == i);
                assert(w@ == word_at(sv, start as int));
            }
            out.push(string_from_chars(&w));
            proof {
                assert(strings_view(out@) =~= pre.push(word_at(sv, start as int)));
                assert(pre + (seq![word_at(sv, start as int)] + spec_words_at(sv, i as int))
                    =~= pre.push(word_at(sv, start as int)) + spec_words_at(sv, i as int));
            }
        }
    }
    proof {
        assert(spec_words_at(sv, i as int) =~= Seq::<Seq<char>>::empty());
        assert(strings_view(out@) + Seq::<Seq<char>>::empty() =~= strings_view(out@));
    }
    out
}

/// The texts of a vector of strings.
pub open spec fn strings_view(v: Seq<String>) -> Seq<Seq<char>> {
    v.map_values(|s: String| s@)
}

/// Tells whether two strings hold the same characters.
pub fn string_eq(a: &String, b: &String) -> (r: bool)
    ensures
        r == (a@ == b@),
{
    *a == *b
}

/// Tells whether some string in `v` holds the text of `x`.
pub fn contains_string(v: &Vec<String>, x: &String) -> (r: bool)
    ensures
        r == strings_view(v@).contains(x@),
{
    let mut i: usize = 0;
    while i < v.len()
        invariant
            0 <= i <= v@.len(),
            forall|k: int| 0 <= k < i ==> strings_view(v@)[k] != x@,
        decreases v@.len() - i,
    {
        if string_eq(&v[i], x) {
            proof {
                assert(strings_view(v@)[i as int] == x@);
            }
            return true;
        }
        proof {
            assert(strings_view(v@)[i as int] == v@[i as int]@);
        }
        i = i + 1;
    }
    proof {
        assert(!strings_view(v@).contains(x@)) by {
            if strings_view(v@).contains(x@) {
                let w = choose|k: int|
                    0 <= k < strings_view(v@).len() && strings_view(v@)[k] == x@;
                assert(strings_view(v@)[w] != x@);
            }
        }
    }
    false
}

} // verus!
