//! The in-memory store behind the command list: the saved-command index,
//! the shell-history entries marked against it, and the cache that holds
//! both. The host does the file reading and writing; everything here is
//! a pure function of the lines it is handed.

use vstd::prelude::*;

use crate::fuzzy::{fuzzy_match_score, fuzzy_score};
use crate::history::{recent_unique, spec_dedup};
use crate::text::{chars_of, contains_string, string_from_chars, strings_view};

verus! {

/// The saved commands, in the order they were added.
#[derive(Debug)]
pub struct DbIndex(pub Vec<String>);

/// The indices of the first `limit` items at or after `i` whose fuzzy
/// score for `q` is a match.
pub open spec fn spec_filter_refs(items: Seq<Seq<char>>, q: Seq<char>, i: int, limit: int) -> Seq<
    usize,
>
    decreases items.len() - i,
{
    if i < 0 || i >= items.len() || limit <= 0 {
        Seq::empty()
    } else if fuzzy_score(items[i], q) is Some {
        seq![i as usize] + spec_filter_refs(items, q, i + 1, limit - 1)
    } else {
        spec_filter_refs(items, q, i + 1, limit)
    }
}

/// How [`spec_filter_refs`] steps, spelled out for callers.
proof fn lemma_filter_refs_step(items: Seq<Seq<char>>, q: Seq<char>, i: int, limit: int)
    requires
        0 <= i < items.len(),
        limit > 0,
    ensures
        spec_filter_refs(items, q, i, limit) == (if fuzzy_score(items[i], q) is Some {
            seq![i as usize] + spec_filter_refs(items, q, i + 1, limit - 1)
        } else {
            spec_filter_refs(items, q, i + 1, limit)
        }),
{
}

/// The index rendered for its file: each command followed by a newline.
pub open spec fn spec_render_lines(items: Seq<Seq<char>>, i: int) -> Seq<char>
    decreases items.len() - i,
{
    if i < 0 || i >= items.len() {
        Seq::empty()
    } else {
        items[i] + seq!['\n'] + spec_render_lines(items, i + 1)
    }
}

/// How [`spec_render_lines`] steps, spelled out for callers.
proof fn lemma_render_lines_step(items: Seq<Seq<char>>, i: int)
    requires
        0 <= i < items.len(),
    ensures
        spec_render_lines(items, i) == items[i] + seq!['\n'] + spec_render_lines(items, i + 1),
{
}

/// The given lines without the empty ones, from `i` on.
pub open spec fn spec_nonempty_lines(lines: Seq<Seq<char>>, i: int) -> Seq<Seq<char>>
    decreases lines.len() - i,
{
    if i < 0 || i >= lines.len() {
        Seq::empty()
    } else if lines[i].len() == 0 {
        spec_nonempty_lines(lines, i + 1)
    } else {
        seq![lines[i]] + spec_nonempty_lines(lines, i + 1)
    }
}

/// How [`spec_nonempty_lines`] steps, spelled out for callers.
proof fn lemma_nonempty_lines_step(lines: Seq<Seq<char>>, i: int)
    requires
        0 <= i < lines.len(),
    ensures
        spec_nonempty_lines(lines, i) == (if lines[i].len() == 0 {
            spec_nonempty_lines(lines, i + 1)
        } else {
            seq![lines[i]] + spec_nonempty_lines(lines, i + 1)
        }),
{
}

impl DbIndex {
    pub open spec fn items(&self) -> Seq<Seq<char>> {
        strings_view(self.0@)
    }

    /// An empty index.
    pub fn new() -> (r: Self)
        ensures
            r.items() == Seq::<Seq<char>>::empty(),
    {
        let r = DbIndex(Vec::new());
        proof {
            assert(r.items() =~= Seq::<Seq<char>>::empty());
        }
        r
    }

    /// The index read from its file's lines: the non-empty ones, in
    /// order.
    pub fn parse(lines: &Vec<String>) -> (r: Self)
        ensures
            r.items() == spec_nonempty_lines(strings_view(lines@), 0),
    {
        let ghost lv = strings_view(lines@);
        let mut out: Vec<String> = Vec::new();
        let mut i: usize = 0;
        while i < lines.len()
            invariant
                0 <= i <= lines@.len(),
                lv == strings_view(lines@),
                spec_nonempty_lines(lv, 0) == strings_view(out@) + spec_nonempty_lines(
                    lv,
                    i as int,
                ),
            decreases lines@.len() - i,
        {
            let ghost pre = strings_view(out@);
            proof {
                lemma_nonempty_lines_step(lv, i as int);
                assert(lv[i as int] == lines@[i as int]@);
            }
            if !lines[i].as_str().is_empty() {
                out.push(lines[i].clone());
                proof {
                    assert(strings_view(out@) =~= pre.push(lv[i as int]));
                    assert(pre + (seq![lv[i as int]] + spec_nonempty_lines(lv, i + 1)) =~= pre.push(
                        lv[i as int],
                    ) + spec_nonempty_lines(lv, i + 1));
                }
            }
            i = i + 1;
        }
        proof {
            assert(spec_nonempty_lines(lv, i as int) =~= Seq::<Seq<char>>::empty());
            assert(strings_view(out@) + Seq::<Seq<char>>::empty() =~= strings_view(out@));
        }
        DbIndex(out)
    }

    /// Adds a command at the end.
    pub fn add(&mut self, val: &str)
        ensures
            final(self).items() == old(self).items().push(val@),
    {
        self.0.push(val.to_owned());
        proof {
            assert(final(self).items() =~= old(self).items().push(val@));
        }
    }

    /// The command at `idx`, if any.
    pub fn get(&self, idx: usize) -> (r: Option<&String>)
        ensures
            match r {
                Some(s) => idx < self.items().len() && s@ == self.items()[idx as int],
                None => idx >= self.items().len(),
            },
    {
        if idx < self.0.len() {
            proof {
                assert(self.items()[idx as int] == self.0@[idx as int]@);
            }
            Some(&self.0[idx])
        } else {
            None
        }
    }

    /// Tells whether the index holds this exact command.
    pub fn has(&self, val: &str) -> (r: bool)
        ensures
            r == self.items().contains(val@),
    {
        let owned = val.to_owned();
        contains_string(&self.0, &owned)
    }

    /// All commands, in order.
    pub fn all(&self) -> (r: &Vec<String>)
        ensures
            r@ == self.0@,
    {
        &self.0
    }

    /// The indices of the first `limit` commands that fuzzily match the
    /// search text.
    pub fn filter(&self, search: &str, limit: usize) -> (r: Vec<usize>)
        ensures
            r@ == spec_filter_refs(self.items(), search@, 0, limit as int),
    {
        filter_refs(&self.0, search, limit)
    }

    /// The index rendered for its file: each command followed by a
    /// newline.
    pub fn render(&self) -> (r: String)
        ensures
            r@ == spec_render_lines(self.items(), 0),
    {
        let ghost itemsv = self.items();
        let mut out: Vec<char> = Vec::new();
        let mut i: usize = 0;
        while i < self.0.len()
            invariant
                0 <= i <= self.0@.len(),
                itemsv == self.items(),
                spec_render_lines(itemsv, 0) == out@ + spec_render_lines(itemsv, i as int),
            decreases self.0@.len() - i,
        {
            let ghost pre = out@;
            proof {
                lemma_render_lines_step(itemsv, i as int);
                assert(itemsv[i as int] == self.0@[i as int]@);
            }
            let mut line = chars_of(self.0[i].as_str());
            out.append(&mut line);
            out.push('\n');
            proof {
                assert(out@ =~= pre + (itemsv[i as int] + seq!['\n']));
                assert(pre + ((itemsv[i as int] + seq!['\n']) + spec_render_lines(itemsv, i + 1))
                    =~= (pre + (itemsv[i as int] + seq!['\n'])) + spec_render_lines(
                    itemsv,
                    i + 1,
                ));
            }
            i = i + 1;
        }
        proof {
            assert(spec_render_lines(itemsv, i as int) =~= Seq::<char>::empty());
            assert(out@ + Seq::<char>::empty() =~= out@);
        }
        string_from_chars(&out)
    }
}

/// The indices of the first `limit` strings in `items` that fuzzily
/// match `search`.
fn filter_refs(items: &Vec<String>, search: &str, limit: usize) -> (r: Vec<usize>)
    ensures
        r@ == spec_filter_refs(strings_view(items@), search@, 0, limit as int),
{
    let ghost itemsv = strings_view(items@);
    let mut out: Vec<usize> = Vec::new();
    let mut i: usize = 0;
    while i < items.len() && out.len() < limit
        invariant
            0 <= i <= items@.len(),
            itemsv == strings_view(items@),
            out@.len() <= limit,
            spec_filter_refs(itemsv, search@, 0, limit as int) == out@ + spec_filter_refs(
                itemsv,
                search@,
                i as int,
                limit - out@.len(),
            ),
        decreases items@.len() - i,
    {
        let ghost pre = out@;
        proof {
            lemma_filter_refs_step(itemsv, search@, i as int, limit - out@.len());
            assert(itemsv[i as int] == items@[i as int]@);
        }
        if fuzzy_match_score(items[i].as_str(), search).is_some() {
            out.push(i);
            proof {
                assert(out@ =~= pre.push(i as usize));
                assert(pre + (seq![i as usize] + spec_filter_refs(
                    itemsv,
                    search@,
                    i + 1,
                    limit - pre.len() - 1,
                )) =~= pre.push(i as usize) + spec_filter_refs(
                    itemsv,
                    search@,
                    i + 1,
                    limit - pre.len() - 1,
                ));
            }
        }
        i = i + 1;
    }
    proof {
        if out@.len() >= limit || i >= items@.len() {
            assert(spec_filter_refs(itemsv, search@, i as int, limit - out@.len())
                =~= Seq::<usize>::empty());
        }
        assert(out@ + Seq::<usize>::empty() =~= out@);
    }
    out
}

/// One shell-history entry, marked when it is already saved in the
/// index.
#[derive(Debug)]
pub struct HistoryItem {
    pub value: String,
    pub selected: bool,
}

impl HistoryItem {
    /// An entry with the given text and mark.
    pub fn new(val: &str, selected: bool) -> (r: Self)
        ensures
            r.value@ == val@,
            r.selected == selected,
    {
        HistoryItem { value: val.to_owned(), selected }
    }
}

/// The shell-history entries, most recent first.
#[derive(Debug)]
pub struct HistoryItems(pub Vec<HistoryItem>);

pub open spec fn items_texts(v: Seq<HistoryItem>) -> Seq<Seq<char>> {
    v.map_values(|h: HistoryItem| h.value@)
}

impl HistoryItems {
    /// No entries yet.
    pub fn new() -> (r: Self)
        ensures
            r.0@ == Seq::<HistoryItem>::empty(),
    {
        HistoryItems(Vec::new())
    }

    /// The entry at `idx`, if any.
    pub fn get(&self, idx: usize) -> (r: Option<&HistoryItem>)
        ensures
            match r {
                Some(h) => idx < self.0@.len() && h.value@ == self.0@[idx as int].value@
                    && h.selected == self.0@[idx as int].selected,
                None => idx >= self.0@.len(),
            },
    {
        if idx < self.0.len() {
            Some(&self.0[idx])
        } else {
            None
        }
    }

    /// Adds an entry at the end.
    pub fn push(&mut self, item: HistoryItem)
        ensures
            final(self).0@ == old(self).0@.push(item),
    {
        self.0.push(item);
    }

    /// The indices of the first `limit` entries whose text fuzzily
    /// matches the search text.
    pub fn filter(&self, search: &str, limit: usize) -> (r: Vec<usize>)
        ensures
            r@ == spec_filter_refs(items_texts(self.0@), search@, 0, limit as int),
    {
        let mut texts: Vec<String> = Vec::new();
        let mut i: usize = 0;
        while i < self.0.len()
            invariant
                0 <= i <= self.0@.len(),
                strings_view(texts@) =~= items_texts(self.0@).subrange(0, i as int),
            decreases self.0@.len() - i,
        {
            let ghost pre = strings_view(texts@);
            proof {
                assert(items_texts(self.0@)[i as int] == self.0@[i as int].value@);
            }
            texts.push(self.0[i].value.clone());
            proof {
                assert(strings_view(texts@) =~= pre.push(self.0@[i as int].value@));
                assert(strings_view(texts@) =~= items_texts(self.0@).subrange(0, i + 1));
            }
            i = i + 1;
        }
        proof {
            assert(items_texts(self.0@).subrange(0, i as int) =~= items_texts(self.0@));
            assert(strings_view(texts@) == items_texts(self.0@));
        }
        filter_refs(&texts, search, limit)
    }
}

/// The store's in-memory state: the saved-command index and the marked
/// shell history.
#[derive(Debug)]
pub struct Cache {
    pub history: HistoryItems,
    pub db: DbIndex,
}

impl Cache {
    /// An empty cache.
    pub fn new() -> (r: Self)
        ensures
            r.history.0@ == Seq::<HistoryItem>::empty(),
            r.db.items() == Seq::<Seq<char>>::empty(),
    {
        Cache { history: HistoryItems::new(), db: DbIndex::new() }
    }

    /// Fills the history from the history file's lines: most recent
    /// first, first occurrence only, each marked when the index already
    /// holds it.
    pub fn ingest_history(&mut self, lines: &Vec<String>)
        ensures
            final(self).db.items() == old(self).db.items(),
            ({
                let cmds = spec_dedup(strings_view(lines@).reverse());
                let hist = final(self).history.0@;
                &&& items_texts(hist) == cmds
                &&& forall|k: int|
                    0 <= k < hist.len() ==> (#[trigger] hist[k]).selected == old(
                        self,
                    ).db.items().contains(cmds[k])
            }),
    {
        let cmds = recent_unique(lines);
        let ghost cmdsv = spec_dedup(strings_view(lines@).reverse());
        let mut hist = HistoryItems::new();
        let mut i: usize = 0;
        while i < cmds.len()
            invariant
                0 <= i <= cmds@.len(),
                strings_view(cmds@) == cmdsv,
                self.db.items() == old(self).db.items(),
                self.history == old(self).history,
                items_texts(hist.0@) =~= cmdsv.subrange(0, i as int),
                forall|k: int|
                    0 <= k < i ==> (#[trigger] hist.0@[k]).selected == old(
                        self,
                    ).db.items().contains(cmdsv[k]),
            decreases cmds@.len() - i,
        {
            let ghost pre = hist.0@;
            proof {
                assert(cmdsv[i as int] == cmds@[i as int]@);
            }
            let selected = self.db.has(cmds[i].as_str());
            let item = HistoryItem::new(cmds[i].as_str(), selected);
            proof {
                assert(item.value@ == cmdsv[i as int]);
            }
            hist.push(item);
            proof {
                assert(items_texts(hist.0@) =~= items_texts(pre).push(cmdsv[i as int]));
                assert(cmdsv.subrange(0, i + 1) =~= cmdsv.subrange(0, i as int).push(
                    cmdsv[i as int],
                ));
                assert(items_texts(hist.0@) =~= cmdsv.subrange(0, i + 1));
            }
            i = i + 1;
        }
        proof {
            assert(cmdsv.subrange(0, i as int) =~= cmdsv);
        }
        self.history = hist;
    }

    /// The indices of the first `limit` history entries that fuzzily
    /// match the search text.
    pub fn get_history_refs(&self, search: &str, limit: usize) -> (r: Vec<usize>)
        ensures
            r@ == spec_filter_refs(items_texts(self.history.0@), search@, 0, limit as int),
    {
        self.history.filter(search, limit)
    }

    /// The history entry at `idx`, if any.
    pub fn get_history_item(&self, idx: usize) -> (r: Option<&HistoryItem>)
        ensures
            match r {
                Some(h) => idx < self.history.0@.len() && h.value@ == self.history.0@[
                    idx as int
                ].value@ && h.selected == self.history.0@[idx as int].selected,
                None => idx >= self.history.0@.len(),
            },
    {
        self.history.get(idx)
    }

    /// The saved command at `idx`, if any.
    pub fn get_item(&self, idx: usize) -> (r: Option<&String>)
        ensures
            match r {
                Some(s) => idx < self.db.items().len() && s@ == self.db.items()[idx as int],
                None => idx >= self.db.items().len(),
            },
    {
        self.db.get(idx)
    }

    /// The indices of the first `limit` saved commands that fuzzily
    /// match the search text.
    pub fn get_refs(&self, search: &str, limit: usize) -> (r: Vec<usize>)
        ensures
            r@ == spec_filter_refs(self.db.items(), search@, 0, limit as int),
    {
        self.db.filter(search, limit)
    }

    /// All saved commands, in order.
    pub fn all(&self) -> (r: &Vec<String>)
        ensures
            r@ == self.db.0@,
    {
        self.db.all()
    }
}

} // verus!
