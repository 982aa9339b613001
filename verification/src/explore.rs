//! The explorer's navigation state machine: which list is shown, which
//! row is selected, and what a selection asks the host to do. The host
//! runs the queries and the screen; every decision is taken here.

use vstd::prelude::*;

verus! {

/// Which list the explorer shows.
#[derive(Debug, PartialEq, Eq, Clone, Copy, Structural)]
pub enum ExploreView {
    Lessons,
    Quests,
    Quest,
}

/// What the host must do after a selection.
#[derive(Debug, PartialEq, Eq, Clone, Copy, Structural)]
pub enum ExploreAction {
    /// Load the quests of the lesson at the selected row.
    LoadQuests { lessons_idx: usize },
    /// Go back to the lessons list.
    BackToLessons,
    /// Open the quest at the given position in the quests list.
    OpenQuest { quest_pos: usize },
    /// Close the quest and return to the quests list.
    CloseQuest,
    /// Nothing to do: the selection fell outside every row.
    Stay,
}

/// The explorer's navigation state. The lengths mirror what the host
/// last loaded.
pub struct ExploreState {
    pub view: ExploreView,
    pub lessons_idx: usize,
    pub quests_idx: usize,
    pub lessons_len: usize,
    pub quests_len: usize,
}

impl ExploreState {
    /// Fresh state over `lessons_len` lessons: the lessons list, top row
    /// selected.
    pub fn new(lessons_len: usize) -> (r: Self)
        ensures
            r.view == ExploreView::Lessons,
            r.lessons_idx == 0 && r.quests_idx == 0,
            r.lessons_len == lessons_len && r.quests_len == 0,
    {
        ExploreState {
            view: ExploreView::Lessons,
            lessons_idx: 0,
            quests_idx: 0,
            lessons_len,
            quests_len: 0,
        }
    }

    /// Moves the selection one row up in the list that is shown.
    pub fn select_up(&mut self)
        ensures
            final(self).view == old(self).view,
            final(self).lessons_len == old(self).lessons_len,
            final(self).quests_len == old(self).quests_len,
            final(self).lessons_idx == (if old(self).view == ExploreView::Lessons && old(
                self,
            ).lessons_idx > 0 {
                (old(self).lessons_idx - 1) as usize
            } else {
                old(self).lessons_idx
            }),
            final(self).quests_idx == (if old(self).view == ExploreView::Quests && old(
                self,
            ).quests_idx > 0 {
                (old(self).quests_idx - 1) as usize
            } else {
                old(self).quests_idx
            }),
    {
        match self.view {
            ExploreView::Lessons => {
                if self.lessons_idx > 0 {
                    self.lessons_idx = self.lessons_idx - 1;
                }
            },
            ExploreView::Quests => {
                if self.quests_idx > 0 {
                    self.quests_idx = self.quests_idx - 1;
                }
            },
            _ => {},
        }
    }

    /// Moves the selection one row down in the list that is shown: in
    /// the lessons list at most to the last lesson, in the quests list
    /// at most one past the quests (row zero is the back row).
    pub fn select_down(&mut self)
        requires
            old(self).view == ExploreView::Lessons ==> old(self).lessons_len > 0,
        ensures
            final(self).view == old(self).view,
            final(self).lessons_len == old(self).lessons_len,
            final(self).quests_len == old(self).quests_len,
            final(self).lessons_idx == (if old(self).view == ExploreView::Lessons {
                (if old(self).lessons_idx >= old(self).lessons_len - 1 {
                    (old(self).lessons_len - 1) as usize
                } else {
                    (old(self).lessons_idx + 1) as usize
                })
            } else {
                old(self).lessons_idx
            }),
            final(self).quests_idx == (if old(self).view == ExploreView::Quests {
                (if old(self).quests_idx >= old(self).quests_len {
                    old(self).quests_len
                } else {
                    (old(self).quests_idx + 1) as usize
                })
            } else {
                old(self).quests_idx
            }),
    {
        match self.view {
            ExploreView::Lessons => {
                let max = self.lessons_len - 1;
                if self.lessons_idx >= max {
                    self.lessons_idx = max;
                } else {
                    self.lessons_idx = self.lessons_idx + 1;
                }
            },
            ExploreView::Quests => {
                let max = self.quests_len;
                if self.quests_idx >= max {
                    self.quests_idx = max;
                } else {
                    self.quests_idx = self.quests_idx + 1;
                }
            },
            _ => {},
        }
    }

    /// Acts on the selected row: from the lessons list it opens the
    /// selected lesson's quests; from the quests list, row zero goes
    /// back and any other row opens that quest; from a quest it goes
    /// back to the quests list.
    pub fn select(&mut self) -> (r: ExploreAction)
        ensures
            final(self).lessons_idx == old(self).lessons_idx,
            final(self).quests_idx == old(self).quests_idx,
            final(self).lessons_len == old(self).lessons_len,
            final(self).quests_len == old(self).quests_len,
            match old(self).view {
                ExploreView::Lessons => (if old(self).lessons_idx < old(self).lessons_len {
                    final(self).view == ExploreView::Quests && r == (ExploreAction::LoadQuests {
                        lessons_idx: old(self).lessons_idx,
                    })
                } else {
                    final(self).view == old(self).view && r == ExploreAction::Stay
                }),
                ExploreView::Quests => (if old(self).quests_idx == 0 {
                    final(self).view == ExploreView::Lessons && r == ExploreAction::BackToLessons
                } else {
                    final(self).view == ExploreView::Quest && r == (ExploreAction::OpenQuest {
                        quest_pos: (old(self).quests_idx - 1) as usize,
                    })
                }),
                ExploreView::Quest => final(self).view == ExploreView::Quests && r
                    == ExploreAction::CloseQuest,
            },
    {
        match self.view {
            ExploreView::Lessons => {
                if self.lessons_idx < self.lessons_len {
                    self.view = ExploreView::Quests;
                    ExploreAction::LoadQuests { lessons_idx: self.lessons_idx }
                } else {
                    ExploreAction::Stay
                }
            },
            ExploreView::Quests => {
                if self.quests_idx == 0 {
                    self.view = ExploreView::Lessons;
                    ExploreAction::BackToLessons
                } else {
                    self.view = ExploreView::Quest;
                    ExploreAction::OpenQuest { quest_pos: self.quests_idx - 1 }
                }
            },
            ExploreView::Quest => {
                self.view = ExploreView::Quests;
                ExploreAction::CloseQuest
            },
        }
    }

    /// Sets how many quests the host loaded.
    pub fn set_quests_len(&mut self, n: usize)
        ensures
            final(self).quests_len == n,
            final(self).quests_idx == 0,
            final(self).view == old(self).view,
            final(self).lessons_idx == old(self).lessons_idx,
            final(self).lessons_len == old(self).lessons_len,
    {
        self.quests_len = n;
        self.quests_idx = 0;
    }

    /// The row the selection caret stands on in the view that is shown.
    pub fn get_selection_idx(&self) -> (r: usize)
        ensures
            r == (match self.view {
                ExploreView::Lessons => self.lessons_idx,
                ExploreView::Quests => self.quests_idx,
                ExploreView::Quest => 0usize,
            }),
    {
        match self.view {
            ExploreView::Lessons => self.lessons_idx,
            ExploreView::Quests => self.quests_idx,
            ExploreView::Quest => 0,
        }
    }
}

} // verus!
