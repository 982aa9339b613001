//! The flashcard prompt: one quest's state through the ask-answer-grade
//! cycle.
//!
//! A prompt holds the compiled pattern, the learner's typed answer, and
//! the view to paint: the question, the "you got it" view, or the "you
//! missed it" view with an underline that puts `^` under each character
//! of a mismatched report entry and spaces under a matched one. Grading
//! is pure: the answer is tokenized, matched against the AST, and judged
//! by [`crate::compare::spec_fully_correct`].

use vstd::prelude::*;

use crate::compare::{
    entries_view, fully_correct, match_schema, spec_fully_correct, spec_match_report,
};
use crate::error::CompileError;
use crate::input_lexer::{input_tokens_view, spec_input_lex, InputCmdLexer};
use crate::parser::{spec_compile_pattern, words_view, CmdParser, CmdWord};
use crate::rect::Rect;
use crate::text::{first_word_chars, spec_first_word, string_from_chars};

verus! {

/// Which view of the quest the screen shows.
#[derive(Debug, PartialEq, Eq, Clone, Copy, Structural)]
pub enum PromptView {
    Prompt,
    Correct,
    Wrong,
}

/// One quest's interactive state.
pub struct Prompt {
    /// The command's display name: the pattern's first word.
    pub cmd: Vec<char>,
    /// The question shown to the learner.
    pub title: Vec<char>,
    /// The answer typed so far.
    pub input: Vec<char>,
    /// The caret position within the typed answer.
    pub input_cursor: u16,
    /// The compiled pattern.
    pub ast: Vec<CmdWord>,
    /// The underline of the last wrong answer, once one was graded.
    pub feedback: Option<Vec<char>>,
    /// The view to paint.
    pub view: PromptView,
    /// Where on the screen the prompt is drawn.
    pub rect: Rect,
}

/// The underline character for one report entry: spaces under a matched
/// entry's text, carets under a mismatched one's.
pub open spec fn entry_underline(es: Seq<(Seq<char>, bool)>, i: int) -> Seq<char> {
    Seq::new(
        es[i].0.len(),
        |k: int|
            if es[i].1 {
                ' '
            } else {
                '^'
            },
    ).push(' ')
}

/// The underline of a whole report: one run per entry, each followed by
/// one space.
pub open spec fn spec_underline_at(es: Seq<(Seq<char>, bool)>, i: int) -> Seq<char>
    decreases es.len() - i,
{
    if i < 0 || i >= es.len() {
        Seq::empty()
    } else {
        entry_underline(es, i) + spec_underline_at(es, i + 1)
    }
}

pub open spec fn spec_underline(es: Seq<(Seq<char>, bool)>) -> Seq<char> {
    spec_underline_at(es, 0)
}

/// How [`spec_underline_at`] steps, spelled out for callers.
proof fn lemma_underline_step(es: Seq<(Seq<char>, bool)>, i: int)
    requires
        0 <= i < es.len(),
    ensures
        spec_underline_at(es, i) == entry_underline(es, i) + spec_underline_at(es, i + 1),
{
}

impl Prompt {
    /// The typed answer tracks its caret.
    pub open spec fn wf(&self) -> bool {
        self.input_cursor == self.input@.len()
    }

    /// A fresh prompt for a quest: the pattern compiled, the answer
    /// empty, the question view up.
    pub fn new(title: &str, cmd: &str) -> (r: Result<Prompt, CompileError>)
        ensures
            match r {
                Ok(p) => {
                    &&& spec_compile_pattern(cmd@) == Ok::<_, CompileError>(words_view(p.ast@))
                    &&& spec_first_word(cmd@) == Some(p.cmd@)
                    &&& p.title@ == title@
                    &&& p.input@ == Seq::<char>::empty()
                    &&& p.feedback is None
                    &&& p.view == PromptView::Prompt
                    &&& p.wf()
                },
                Err(e) => spec_compile_pattern(cmd@) == Err::<Seq<crate::parser::WordV>, _>(e) || (
                e == CompileError::EmptyPattern && spec_first_word(cmd@) is None),
            },
    {
        let ast = match CmdParser::compile(cmd) {
            Ok(ast) => ast,
            Err(e) => {
                return Err(e);
            },
        };
        let cmd_chars = crate::text::chars_of(cmd);
        let cmd_name = match first_word_chars(&cmd_chars) {
            Some(w) => w,
            None => {
                return Err(CompileError::EmptyPattern);
            },
        };
        let mut rect = Rect::default();
        rect.set_padding(Some(2), Some(4), Some(1), Some(4));
        Ok(
            Prompt {
                cmd: cmd_name,
                title: crate::text::chars_of(title),
                input: Vec::new(),
                input_cursor: 0,
                ast,
                feedback: None,
                view: PromptView::Prompt,
                rect,
            },
        )
    }

    /// Fits the prompt's rectangle inside a `w` by `h` screen, leaving a
    /// margin of an eighth of the width and a tenth of the height.
    pub fn resize(&mut self, w: u16, h: u16)
        ensures
            final(self).rect.spec_x() == w / 8,
            final(self).rect.spec_y() == h / 10,
            final(self).rect.spec_width() == w - 2 * (w / 8),
            final(self).rect.spec_height() == h - 2 * (h / 10),
            final(self).cmd@ == old(self).cmd@ && final(self).title@ == old(self).title@,
            final(self).input@ == old(self).input@ && final(self).input_cursor == old(
                self,
            ).input_cursor,
            final(self).ast@ == old(self).ast@,
            final(self).feedback == old(self).feedback,
            final(self).view == old(self).view,
    {
        let padd_x = w / 8;
        let padd_y = h / 10;
        proof {
            assert(2 * (w / 8) <= w);
            assert(2 * (h / 10) <= h);
        }
        let b_w = w - 2 * padd_x;
        let b_x = padd_x;
        let b_h = h - 2 * padd_y;
        let b_y = padd_y;
        self.rect.set_anchor(b_x, b_y);
        self.rect.set_dimensions(b_w, b_h);
    }

    /// Replaces the quest: a new question and pattern, the answer reset,
    /// the question view up. A malformed pattern leaves the prompt as it
    /// was.
    pub fn set_question(&mut self, title: &str, cmd: &str) -> (r: Result<(), CompileError>)
        ensures
            match r {
                Ok(()) => {
                    &&& spec_compile_pattern(cmd@) == Ok::<_, CompileError>(
                        words_view(final(self).ast@),
                    )
                    &&& spec_first_word(cmd@) == Some(final(self).cmd@)
                    &&& final(self).title@ == title@
                    &&& final(self).input@ == Seq::<char>::empty()
                    &&& final(self).feedback is None
                    &&& final(self).view == PromptView::Prompt
                    &&& final(self).wf()
                },
                Err(e) => (spec_compile_pattern(cmd@) == Err::<Seq<crate::parser::WordV>, _>(e) || (
                e == CompileError::EmptyPattern && spec_first_word(cmd@) is None)) && *final(self)
                    == *old(self),
            },
    {
        let ast = match CmdParser::compile(cmd) {
            Ok(ast) => ast,
            Err(e) => {
                return Err(e);
            },
        };
        let cmd_chars = crate::text::chars_of(cmd);
        let cmd_name = match first_word_chars(&cmd_chars) {
            Some(w) => w,
            None => {
                return Err(CompileError::EmptyPattern);
            },
        };
        self.cmd = cmd_name;
        self.title = crate::text::chars_of(title);
        self.reset_input();
        self.ast = ast;
        self.feedback = None;
        self.view = PromptView::Prompt;
        Ok(())
    }

    /// Grades the typed answer: fully correct shows the correct view;
    /// anything else computes the underline and shows the wrong view.
    pub fn submit_answer(&mut self)
        ensures
            ({
                let astv = words_view(old(self).ast@);
                let toks = spec_input_lex(old(self).input@);
                let correct = spec_fully_correct(astv, toks);
                &&& final(self).view == (if correct {
                    PromptView::Correct
                } else {
                    PromptView::Wrong
                })
                &&& (correct ==> final(self).feedback == old(self).feedback)
                &&& (!correct ==> (final(self).feedback matches Some(u) && u@ == spec_underline(
                    spec_match_report(astv, toks, 0, 0),
                )))
            }),
            final(self).cmd@ == old(self).cmd@ && final(self).title@ == old(self).title@,
            final(self).input@ == old(self).input@ && final(self).input_cursor == old(
                self,
            ).input_cursor,
            final(self).ast@ == old(self).ast@,
            final(self).rect == old(self).rect,
    {
        let answer = string_from_chars(&self.input);
        let in_lex = InputCmdLexer::compile(answer.as_str());
        if fully_correct(&self.ast, &in_lex) {
            self.view = PromptView::Correct;
        } else {
            let report = match_schema(&self.ast, &in_lex, 0, 0);
            let ghost es = entries_view(report@);
            let mut underline: Vec<char> = Vec::new();
            let mut i: usize = 0;
            while i < report.len()
                invariant
                    es == entries_view(report@),
                    0 <= i <= report@.len(),
                    underline@ == spec_underline(es).subrange(
                        0,
                        spec_underline(es).len() - spec_underline_at(es, i as int).len(),
                    ),
                    spec_underline_at(es, i as int).len() <= spec_underline(es).len(),
                    spec_underline(es).skip(
                        spec_underline(es).len() - spec_underline_at(es, i as int).len(),
                    ) == spec_underline_at(es, i as int),
                decreases report@.len() - i,
            {
                let ghost pre = underline@;
                proof {
                    lemma_underline_step(es, i as int);
                    assert(es[i as int] == (report@[i as int].0@, report@[i as int].1));
                }
                let text = crate::text::chars_of(report[i].0.as_str());
                let symbol = if report[i].1 {
                    ' '
                } else {
                    '^'
                };
                let mut j: usize = 0;
                while j < text.len()
                    invariant
                        0 <= j <= text@.len(),
                        underline@ == pre + Seq::new(j as nat, |k: int| symbol),
                    decreases text@.len() - j,
                {
                    underline.push(symbol);
                    proof {
                        assert(underline@ =~= pre + Seq::new((j + 1) as nat, |k: int| symbol));
                    }
                    j = j + 1;
                }
                underline.push(' ');
                proof {
                    assert(Seq::new(text@.len(), |k: int| symbol) =~= Seq::new(
                        es[i as int].0.len(),
                        |k: int|
                            if es[i as int].1 {
                                ' '
                            } else {
                                '^'
                            },
                    ));
                    assert(underline@ =~= pre + entry_underline(es, i as int));
                    let whole = spec_underline(es);
                    let now = spec_underline_at(es, i as int);
                    let next = spec_underline_at(es, i + 1);
                    assert(whole.skip(whole.len() - now.len()) == now);
                    assert(now == entry_underline(es, i as int) + next);
                    assert(entry_underline(es, i as int).len() + next.len() == now.len());
                    assert forall|m: int| 0 <= m < now.len() implies whole[whole.len() - now.len()
                        + m] == now[m] by {
                        assert(whole.skip(whole.len() - now.len())[m] == now[m]);
                    }
                    assert(pre == whole.subrange(0, whole.len() - now.len()));
                    assert forall|k: int| 0 <= k < whole.len() - next.len() implies underline@[k]
                        == whole[k] by {
                        if k < whole.len() - now.len() {
                            assert(underline@[k] == pre[k]);
                            assert(pre[k] == whole.subrange(0, whole.len() - now.len())[k]);
                        } else {
                            let m = k - (whole.len() - now.len());
                            assert(underline@[k] == entry_underline(es, i as int)[m]);
                            assert(now[m] == entry_underline(es, i as int)[m]);
                            assert(whole[k] == now[m]);
                        }
                    }
                    assert(underline@ =~= whole.subrange(0, whole.len() - next.len()));
                    assert forall|m: int| 0 <= m < next.len() implies whole.skip(
                        whole.len() - next.len(),
                    )[m] == next[m] by {
                        assert(whole.skip(whole.len() - next.len())[m] == whole[whole.len()
                            - next.len() + m]);
                        assert(whole[whole.len() - now.len() + (now.len() - next.len() + m)]
                            == now[now.len() - next.len() + m]);
                        assert(now[now.len() - next.len() + m] == next[m]);
                    }
                    assert(whole.skip(whole.len() - next.len()) =~= next);
                }
                i = i + 1;
            }
            proof {
                assert(spec_underline_at(es, i as int) =~= Seq::<char>::empty());
                assert(underline@ =~= spec_underline(es));
            }
            self.feedback = Some(underline);
            self.view = PromptView::Wrong;
        }
    }

    /// Types one character at the caret.
    pub fn append_input(&mut self, ch: char)
        requires
            old(self).wf(),
            old(self).input@.len() < u16::MAX,
        ensures
            final(self).input@ == old(self).input@.push(ch),
            final(self).wf(),
            final(self).cmd@ == old(self).cmd@ && final(self).title@ == old(self).title@,
            final(self).ast@ == old(self).ast@,
            final(self).feedback == old(self).feedback,
            final(self).view == old(self).view,
            final(self).rect == old(self).rect,
    {
        self.input.push(ch);
        self.input_cursor = self.input_cursor + 1;
    }

    /// Erases the character before the caret, if there is one.
    pub fn backspace_input(&mut self)
        requires
            old(self).wf(),
        ensures
            final(self).input@ == (if old(self).input@.len() > 0 {
                old(self).input@.drop_last()
            } else {
                old(self).input@
            }),
            final(self).wf(),
            final(self).cmd@ == old(self).cmd@ && final(self).title@ == old(self).title@,
            final(self).ast@ == old(self).ast@,
            final(self).feedback == old(self).feedback,
            final(self).view == old(self).view,
            final(self).rect == old(self).rect,
    {
        if self.input.len() > 0 {
            self.input.pop();
            self.input_cursor = self.input_cursor - 1;
        }
    }

    /// The typed answer, as one string.
    pub fn get_input_string(&self) -> (r: String)
        ensures
            r@ == self.input@,
    {
        string_from_chars(&self.input)
    }

    /// Clears the typed answer.
    pub fn reset_input(&mut self)
        ensures
            final(self).input@ == Seq::<char>::empty(),
            final(self).wf(),
            final(self).cmd@ == old(self).cmd@ && final(self).title@ == old(self).title@,
            final(self).ast@ == old(self).ast@,
            final(self).feedback == old(self).feedback,
            final(self).view == old(self).view,
            final(self).rect == old(self).rect,
    {
        self.input.clear();
        self.input_cursor = 0;
    }
}

} // verus!
