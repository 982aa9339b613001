//! Fuzzy search over the learner's shell history.
//!
//! The host reads the history file and hands its lines over; this module
//! keeps the commands (most recent first, first occurrence only), runs
//! the fuzzy query over them, and tracks which result is selected.

use vstd::prelude::*;

use crate::fuzzy::{fuzzy_match_score, fuzzy_score};
use crate::text::{contains_string, string_eq, strings_view};

verus! {

/// Which way the selection moves.
pub enum MoveDirection {
    Up,
    Down,
}

/// The commands of `s` with every later duplicate dropped, considering
/// the first `k` entries.
pub open spec fn spec_dedup_upto(s: Seq<Seq<char>>, k: int) -> Seq<Seq<char>>
    decreases k,
{
    if k <= 0 {
        Seq::empty()
    } else {
        let pre = spec_dedup_upto(s, k - 1);
        if s.subrange(0, k - 1).contains(s[k - 1]) {
            pre
        } else {
            pre.push(s[k - 1])
        }
    }
}

/// The commands of `s`, first occurrence only, order kept.
pub open spec fn spec_dedup(s: Seq<Seq<char>>) -> Seq<Seq<char>> {
    spec_dedup_upto(s, s.len() as int)
}

/// The most recent commands first: the lines reversed, each kept at its
/// first (most recent) occurrence only.
pub fn recent_unique(lines: &Vec<String>) -> (r: Vec<String>)
    ensures
        strings_view(r@) == spec_dedup(strings_view(lines@).reverse()),
{
    let ghost rev = strings_view(lines@).reverse();
    let n = lines.len();
    let mut out: Vec<String> = Vec::new();
    let mut k: usize = 0;
    while k < n
        invariant
            0 <= k <= n,
            n == lines@.len(),
            rev == strings_view(lines@).reverse(),
            strings_view(out@) == spec_dedup_upto(rev, k as int),
            forall|x: Seq<char>|
                rev.subrange(0, k as int).contains(x) == strings_view(out@).contains(x),
        decreases n - k,
    {
        let ghost pre = strings_view(out@);
        let line = &lines[n - 1 - k];
        proof {
            assert(rev[k as int] == strings_view(lines@)[n - 1 - k as int]);
            assert(strings_view(lines@)[n - 1 - k as int] == lines@[n - 1 - k as int]@);
        }
        let dup = contains_string(&out, line);
        proof {
            assert(rev.subrange(0, k as int).contains(line@) == pre.contains(line@));
        }
        if !dup {
            out.push(line.clone());
            proof {
                assert(strings_view(out@) =~= pre.push(line@));
            }
        }
        proof {
            assert(rev.subrange(0, k + 1) =~= rev.subrange(0, k as int).push(rev[k as int]));
            assert forall|x: Seq<char>|
                rev.subrange(0, k + 1).contains(x) == strings_view(out@).contains(x) by {
                let prefix = rev.subrange(0, k as int);
                let longer = rev.subrange(0, k + 1);
                if longer.contains(x) {
                    let w = choose|i: int| 0 <= i < longer.len() && longer[i] == x;
                    if w < k {
                        assert(prefix[w] == x);
                        assert(prefix.contains(x));
                    } else {
                        assert(x == rev[k as int]);
                    }
                    if x == rev[k as int] && !dup {
                        assert(strings_view(out@)[strings_view(out@).len() - 1] == x);
                    }
                    if x == rev[k as int] && dup {
                        assert(pre.contains(x));
                    }
                    if strings_view(out@) == pre.push(line@) && pre.contains(x) {
                        let w2 = choose|i: int| 0 <= i < pre.len() && pre[i] == x;
                        assert(strings_view(out@)[w2] == x);
                    }
                } else {
                    if strings_view(out@).contains(x) {
                        let w = choose|i: int|
                            0 <= i < strings_view(out@).len() && strings_view(out@)[i] == x;
                        if w < pre.len() {
                            assert(pre[w] == x);
                            assert(prefix.contains(x));
                            let w3 = choose|i: int| 0 <= i < prefix.len() && prefix[i] == x;
                            assert(longer[w3] == x);
                        } else {
                            assert(x == line@);
                            assert(longer[k as int] == x);
                        }
                        assert(longer.contains(x));
                    }
                }
            }
        }
        k = k + 1;
    }
    out
}

/// The first `limit` of `items`.
pub open spec fn spec_take(items: Seq<Seq<char>>, limit: int) -> Seq<Seq<char>> {
    if limit < items.len() {
        items.subrange(0, limit)
    } else {
        items
    }
}

/// The first `limit` of `items` whose fuzzy score for `q` is a match,
/// scanning from position `i`.
pub open spec fn spec_fuzzy_take(items: Seq<Seq<char>>, q: Seq<char>, i: int, limit: int) -> Seq<
    Seq<char>,
>
    decreases items.len() - i,
{
    if i < 0 || i >= items.len() || limit <= 0 {
        Seq::empty()
    } else if fuzzy_score(items[i], q) is Some {
        seq![items[i]] + spec_fuzzy_take(items, q, i + 1, limit - 1)
    } else {
        spec_fuzzy_take(items, q, i + 1, limit)
    }
}

/// How [`spec_fuzzy_take`] steps, spelled out for callers.
proof fn lemma_fuzzy_take_step(items: Seq<Seq<char>>, q: Seq<char>, i: int, limit: int)
    requires
        0 <= i < items.len(),
        limit > 0,
    ensures
        spec_fuzzy_take(items, q, i, limit) == (if fuzzy_score(items[i], q) is Some {
            seq![items[i]] + spec_fuzzy_take(items, q, i + 1, limit - 1)
        } else {
            spec_fuzzy_take(items, q, i + 1, limit)
        }),
{
}

/// Takes up to `limit` items of `items` that fuzzily match `query`, in
/// order.
fn fuzzy_take(items: &Vec<String>, query: &String, limit: usize) -> (r: Vec<String>)
    ensures
        strings_view(r@) == spec_fuzzy_take(strings_view(items@), query@, 0, limit as int),
{
    let ghost itemsv = strings_view(items@);
    let mut out: Vec<String> = Vec::new();
    let mut i: usize = 0;
    while i < items.len() && out.len() < limit
        invariant
            0 <= i <= items@.len(),
            itemsv == strings_view(items@),
            out@.len() <= limit,
            spec_fuzzy_take(itemsv, query@, 0, limit as int) == strings_view(out@)
                + spec_fuzzy_take(itemsv, query@, i as int, limit - out@.len()),
        decreases items@.len() - i,
    {
        let ghost pre = strings_view(out@);
        proof {
            lemma_fuzzy_take_step(itemsv, query@, i as int, limit - out@.len());
            assert(itemsv[i as int] == items@[i as int]@);
        }
        if fuzzy_match_score(items[i].as_str(), query.as_str()).is_some() {
            out.push(items[i].clone());
            proof {
                assert(strings_view(out@) =~= pre.push(itemsv[i as int]));
                assert(pre + (seq![itemsv[i as int]] + spec_fuzzy_take(
                    itemsv,
                    query@,
                    i + 1,
                    limit - pre.len() - 1,
                )) =~= pre.push(itemsv[i as int]) + spec_fuzzy_take(
                    itemsv,
                    query@,
                    i + 1,
                    limit - pre.len() - 1,
                ));
            }
        }
        i = i + 1;
    }
    proof {
        if out@.len() >= limit || i >= items@.len() {
            assert(spec_fuzzy_take(itemsv, query@, i as int, limit - out@.len())
                =~= Seq::<Seq<char>>::empty());
        }
        assert(strings_view(out@) + Seq::<Seq<char>>::empty() =~= strings_view(out@));
    }
    out
}

/// The fuzzy-search state over the shell history.
pub struct History {
    /// The query typed so far.
    pub query: String,
    /// The query the cached results were computed for.
    pub prev_query: String,
    /// The current results, most relevant first.
    pub results: Vec<String>,
    /// The known commands, most recent first, without duplicates.
    pub history: Vec<String>,
    /// Which result is selected.
    pub selected_idx: usize,
}

impl History {
    pub open spec fn spec_history(&self) -> Seq<Seq<char>> {
        strings_view(self.history@)
    }

    pub open spec fn spec_prev_query(&self) -> Seq<char> {
        self.prev_query@
    }

    /// A fresh search over the given commands (most recent first): empty
    /// query, no results yet.
    pub fn from_commands(history: Vec<String>) -> (r: History)
        ensures
            r.spec_history() == strings_view(history@),
            r.query@ == Seq::<char>::empty(),
            r.spec_prev_query() == Seq::<char>::empty(),
            r.results@ == Seq::<String>::empty(),
            r.selected_idx == 0,
    {
        History {
            query: String::new(),
            prev_query: String::new(),
            results: Vec::new(),
            history,
            selected_idx: 0,
        }
    }

    /// Fills the results with the `limit` most recent commands.
    pub fn init_search(&mut self, limit: usize) -> (r: &Vec<String>)
        ensures
            strings_view(final(self).results@) == spec_take(old(self).spec_history(), limit as int),
            r@ == final(self).results@,
            final(self).spec_history() == old(self).spec_history(),
            final(self).query@ == old(self).query@,
            final(self).spec_prev_query() == old(self).spec_prev_query(),
            final(self).selected_idx == old(self).selected_idx,
    {
        let mut out: Vec<String> = Vec::new();
        let mut i: usize = 0;
        let ghost hv = strings_view(self.history@);
        while i < self.history.len() && i < limit
            invariant
                0 <= i <= self.history@.len(),
                i <= limit,
                hv == strings_view(self.history@),
                strings_view(out@) =~= hv.subrange(0, i as int),
            decreases self.history@.len() - i,
        {
            let ghost pre = strings_view(out@);
            proof {
                assert(hv[i as int] == self.history@[i as int]@);
            }
            out.push(self.history[i].clone());
            proof {
                assert(strings_view(out@) =~= pre.push(hv[i as int]));
                assert(hv.subrange(0, i + 1) =~= hv.subrange(0, i as int).push(hv[i as int]));
                assert(strings_view(out@) =~= hv.subrange(0, i + 1));
            }
            i = i + 1;
        }
        proof {
            if i >= hv.len() {
                assert(hv.subrange(0, i as int) =~= hv);
            }
        }
        self.results = out;
        &self.results
    }

    /// Runs the query: cached results when the query has not changed,
    /// the most recent commands for an empty query, and otherwise the
    /// first `limit` fuzzy matches.
    pub fn search(&mut self, limit: usize) -> (r: &Vec<String>)
        ensures
            r@ == final(self).results@,
            final(self).spec_history() == old(self).spec_history(),
            final(self).query@ == old(self).query@,
            final(self).spec_prev_query() == old(self).spec_prev_query(),
            final(self).selected_idx == old(self).selected_idx,
            strings_view(final(self).results@) == (if old(self).query@ == old(
                self,
            ).spec_prev_query() {
                strings_view(old(self).results@)
            } else if old(self).query@ == Seq::<char>::empty() {
                spec_take(old(self).spec_history(), limit as int)
            } else {
                spec_fuzzy_take(old(self).spec_history(), old(self).query@, 0, limit as int)
            }),
    {
        if string_eq(&self.query, &self.prev_query) {
            return &self.results;
        }
        if self.query.as_str().is_empty() {
            proof {
                assert(self.query@ =~= Seq::<char>::empty());
            }
            let mut out: Vec<String> = Vec::new();
            let mut i: usize = 0;
            let ghost hv = strings_view(self.history@);
            while i < self.history.len() && i < limit
                invariant
                    0 <= i <= self.history@.len(),
                    i <= limit,
                    hv == strings_view(self.history@),
                    strings_view(out@) =~= hv.subrange(0, i as int),
                decreases self.history@.len() - i,
            {
                let ghost pre = strings_view(out@);
                proof {
                    assert(hv[i as int] == self.history@[i as int]@);
                }
                out.push(self.history[i].clone());
                proof {
                    assert(strings_view(out@) =~= pre.push(hv[i as int]));
                    assert(hv.subrange(0, i + 1) =~= hv.subrange(0, i as int).push(
                        hv[i as int],
                    ));
                    assert(strings_view(out@) =~= hv.subrange(0, i + 1));
                }
                i = i + 1;
            }
            proof {
                if i >= hv.len() {
                    assert(hv.subrange(0, i as int) =~= hv);
                }
                assert(strings_view(out@) == spec_take(hv, limit as int));
            }
            self.results = out;
            proof {
                assert(strings_view(self.results@) == spec_take(
                    old(self).spec_history(),
                    limit as int,
                ));
            }
        } else {
            let query = self.query.clone();
            self.results = fuzzy_take(&self.history, &query, limit);
            proof {
                assert(strings_view(self.results@) == spec_fuzzy_take(
                    old(self).spec_history(),
                    old(self).query@,
                    0,
                    limit as int,
                ));
            }
        }
        &self.results
    }

    /// Types one character of the query; the selection returns to the
    /// top.
    pub fn append_query(&mut self, x: char)
        ensures
            final(self).query@ == old(self).query@.push(x),
            final(self).selected_idx == 0,
            final(self).spec_history() == old(self).spec_history(),
            final(self).spec_prev_query() == old(self).spec_prev_query(),
            final(self).results@ == old(self).results@,
    {
        self.selected_idx = 0;
        let mut chars = crate::text::chars_of(self.query.as_str());
        chars.push(x);
        self.query = crate::text::string_from_chars(&chars);
    }

    /// Erases the last query character, if any; the selection returns to
    /// the top.
    pub fn backspace_query(&mut self)
        ensures
            final(self).query@ == (if old(self).query@.len() > 0 {
                old(self).query@.drop_last()
            } else {
                old(self).query@
            }),
            final(self).selected_idx == 0,
            final(self).spec_history() == old(self).spec_history(),
            final(self).spec_prev_query() == old(self).spec_prev_query(),
            final(self).results@ == old(self).results@,
    {
        self.selected_idx = 0;
        let mut chars = crate::text::chars_of(self.query.as_str());
        if chars.len() > 0 {
            chars.pop();
        }
        self.query = crate::text::string_from_chars(&chars);
    }

    /// Moves the selection one step, held inside the results.
    pub fn move_selected_index(&mut self, dir: MoveDirection)
        ensures
            final(self).results@ == old(self).results@,
            final(self).spec_history() == old(self).spec_history(),
            final(self).query@ == old(self).query@,
            final(self).spec_prev_query() == old(self).spec_prev_query(),
            final(self).selected_idx == (if old(self).results@.len() == 0 {
                old(self).selected_idx
            } else {
                match dir {
                    MoveDirection::Up => (if old(self).selected_idx > 0 {
                        (old(self).selected_idx - 1) as usize
                    } else {
                        0usize
                    }),
                    MoveDirection::Down => (if old(self).selected_idx + 1 < old(
                        self,
                    ).results@.len() {
                        (old(self).selected_idx + 1) as usize
                    } else {
                        (old(self).results@.len() - 1) as usize
                    }),
                }
            }),
    {
        if self.results.len() == 0 {
            return ;
        }
        match dir {
            MoveDirection::Up => {
                if self.selected_idx > 0 {
                    self.selected_idx = self.selected_idx - 1;
                }
            },
            MoveDirection::Down => {
                if self.selected_idx < self.results.len() - 1 {
                    self.selected_idx = self.selected_idx + 1;
                } else {
                    self.selected_idx = self.results.len() - 1;
                }
            },
        }
    }

    /// The selected result, if any.
    pub fn get_selection(&self) -> (r: Option<&String>)
        ensures
            match r {
                Some(s) => self.selected_idx < self.results@.len() && s@ == self.results@[
                    self.selected_idx as int
                ]@,
                None => self.selected_idx >= self.results@.len(),
            },
    {
        if self.selected_idx < self.results.len() {
            Some(&self.results[self.selected_idx])
        } else {
            None
        }
    }
}

} // verus!
