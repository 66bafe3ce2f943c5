use vstd::prelude::*;
use vstd::string::{StrSliceExecFns, StringExecFns};

use crate::checklist::push_char;
use crate::panel::{KeyHandleResult, Shortcut};
use crate::wrap::{fill_words, find_nonspace, find_word_end};
use crate::task::TaskSection;
use crate::task_manager::{
    spec_cycle, spec_delete, spec_reorder_down, spec_reorder_up, spec_toggle_completion,
    TaskManager,
};

verus! {

/// Focused section and row of the task list.
#[derive(Debug, Clone, Copy, PartialEq, Eq, Structural)]
pub struct TaskFocus {
    pub section: TaskSection,
    pub index: usize,
}

impl Default for TaskFocus {
    fn default() -> (r: TaskFocus)
        ensures
            r.section == TaskSection::Backlog,
            r.index == 0,
    {
        TaskFocus { section: TaskSection::Backlog, index: 0 }
    }
}

/// The task list panel: which row is focused, and how many rows one page
/// jump covers (updated by the renderer).
#[derive(Debug, Clone, Copy, PartialEq, Eq, Structural)]
pub struct TasksPanel {
    pub focus: TaskFocus,
    pub section_page_size: usize,
}

impl Default for TasksPanel {
    fn default() -> (r: TasksPanel)
        ensures
            r.focus.section == TaskSection::Backlog,
            r.focus.index == 0,
            r.section_page_size == 10,
    {
        TasksPanel { focus: TaskFocus { section: TaskSection::Backlog, index: 0 }, section_page_size: 10 }
    }
}

/// Focus safety: the focused row lies inside the focused section when that
/// section is non-empty, and sits at zero when it is empty.
pub open spec fn focus_ok(p: TasksPanel, tm: TaskManager) -> bool {
    let len = tm.store().section(p.focus.section).len();
    if len == 0 {
        p.focus.index == 0
    } else {
        p.focus.index < len
    }
}

/// Where an index lands after clamping against a section of length `len`.
pub open spec fn clamp_index(index: int, len: int) -> int {
    if index >= len {
        if len == 0 {
            0
        } else {
            len - 1
        }
    } else {
        index
    }
}

/// The section after the focused one, cyclically.
pub open spec fn next_of(s: TaskSection) -> TaskSection {
    match s {
        TaskSection::Backlog => TaskSection::Current,
        TaskSection::Current => TaskSection::Completed,
        TaskSection::Completed => TaskSection::Backlog,
    }
}

/// The section before the focused one, cyclically.
pub open spec fn prev_of(s: TaskSection) -> TaskSection {
    match s {
        TaskSection::Backlog => TaskSection::Completed,
        TaskSection::Current => TaskSection::Backlog,
        TaskSection::Completed => TaskSection::Current,
    }
}

/// Key presses the tasks panel reacts to, once the terminal layer has
/// decoded them.
#[derive(Debug, Clone, Copy, PartialEq, Eq, Structural)]
pub enum TasksKey {
    Down,
    Up,
    ReorderDown,
    ReorderUp,
    NextSection,
    PrevSection,
    MoveTask,
    Complete,
    PageDown,
    PageUp,
    Add,
    Delete,
    Other,
}

impl TasksPanel {
    pub fn focused_section(&self) -> (s: TaskSection)
        ensures
            s == self.focus.section,
    {
        self.focus.section
    }

    /// Pull the focused row back inside the focused section.  Called after
    /// every store mutation that could shrink it.
    pub fn clamp_focus(&mut self, tm: &TaskManager)
        ensures
            final(self).focus.section == old(self).focus.section,
            final(self).section_page_size == old(self).section_page_size,
            final(self).focus.index == clamp_index(
                old(self).focus.index as int,
                tm.store().section(old(self).focus.section).len() as int,
            ),
            focus_ok(*final(self), *tm),
    {
        let len = tm.section_len(self.focus.section);
        if self.focus.index >= len {
            self.focus.index = if len == 0 {
                0
            } else {
                len - 1
            };
        }
    }

    pub fn move_down(&mut self, tm: &TaskManager)
        ensures
            final(self).focus.section == old(self).focus.section,
            final(self).section_page_size == old(self).section_page_size,
            final(self).focus.index == ({
                let len = tm.store().section(old(self).focus.section).len() as int;
                if len > 0 && old(self).focus.index + 1 < len {
                    old(self).focus.index + 1
                } else {
                    old(self).focus.index as int
                }
            }),
            focus_ok(*old(self), *tm) ==> focus_ok(*final(self), *tm),
    {
        let len = tm.section_len(self.focus.section);
        if len > 0 && self.focus.index < len - 1 {
            self.focus.index = self.focus.index + 1;
        }
    }

    pub fn move_up(&mut self)
        ensures
            final(self).focus.section == old(self).focus.section,
            final(self).section_page_size == old(self).section_page_size,
            final(self).focus.index == (if old(self).focus.index > 0 {
                old(self).focus.index - 1
            } else {
                0int
            }),
    {
        if self.focus.index > 0 {
            self.focus.index = self.focus.index - 1;
        }
    }

    /// Jump a page of rows down, stopping at the last row.
    pub fn page_down(&mut self, tm: &TaskManager)
        ensures
            final(self).focus.section == old(self).focus.section,
            final(self).section_page_size == old(self).section_page_size,
            final(self).focus.index == ({
                let len = tm.store().section(old(self).focus.section).len() as int;
                if len > 0 {
                    vstd::math::min(
                        old(self).focus.index + old(self).section_page_size,
                        len - 1,
                    )
                } else {
                    old(self).focus.index as int
                }
            }),
            focus_ok(*old(self), *tm) ==> focus_ok(*final(self), *tm),
    {
        let len = tm.section_len(self.focus.section);
        if len > 0 {
            let cap = len - 1;
            self.focus.index = if cap >= self.focus.index && cap - self.focus.index
                > self.section_page_size {
                self.focus.index + self.section_page_size
            } else {
                cap
            };
        }
    }

    /// Jump a page of rows up, stopping at the first row.
    pub fn page_up(&mut self)
        ensures
            final(self).focus.section == old(self).focus.section,
            final(self).section_page_size == old(self).section_page_size,
            final(self).focus.index == (if old(self).focus.index >= old(self).section_page_size {
                old(self).focus.index - old(self).section_page_size
            } else {
                0int
            }),
    {
        self.focus.index = if self.focus.index >= self.section_page_size {
            self.focus.index - self.section_page_size
        } else {
            0
        };
    }

    pub fn next_section(&mut self, tm: &TaskManager)
        ensures
            final(self).focus.section == next_of(old(self).focus.section),
            final(self).section_page_size == old(self).section_page_size,
            final(self).focus.index == clamp_index(
                old(self).focus.index as int,
                tm.store().section(next_of(old(self).focus.section)).len() as int,
            ),
            focus_ok(*final(self), *tm),
    {
        self.focus.section = match self.focus.section {
            TaskSection::Backlog => TaskSection::Current,
            TaskSection::Current => TaskSection::Completed,
            TaskSection::Completed => TaskSection::Backlog,
        };
        self.clamp_focus(tm);
    }

    pub fn prev_section(&mut self, tm: &TaskManager)
        ensures
            final(self).focus.section == prev_of(old(self).focus.section),
            final(self).section_page_size == old(self).section_page_size,
            final(self).focus.index == clamp_index(
                old(self).focus.index as int,
                tm.store().section(prev_of(old(self).focus.section)).len() as int,
            ),
            focus_ok(*final(self), *tm),
    {
        self.focus.section = match self.focus.section {
            TaskSection::Backlog => TaskSection::Completed,
            TaskSection::Current => TaskSection::Backlog,
            TaskSection::Completed => TaskSection::Current,
        };
        self.clamp_focus(tm);
    }

    /// Drive the panel with one decoded key press.  Every arm that can
    /// shrink the focused section re-clamps the focus, so focus safety is
    /// preserved across any sequence of key presses.
    pub fn handle_key(&mut self, key: TasksKey, tm: &mut TaskManager) -> (r: KeyHandleResult)
        ensures
            final(self).section_page_size == old(self).section_page_size,
            final(tm).file == old(tm).file,
            focus_ok(*old(self), *old(tm)) ==> focus_ok(*final(self), *final(tm)),
            key == TasksKey::Down || key == TasksKey::Up || key == TasksKey::PageDown || key
                == TasksKey::PageUp || key == TasksKey::NextSection || key == TasksKey::PrevSection
                ==> (r == KeyHandleResult::Consumed) && *final(tm) == *old(tm),
            key == TasksKey::Down ==> final(self).focus.section == old(self).focus.section
                && final(self).focus.index == ({
                let len = old(tm).store().section(old(self).focus.section).len() as int;
                if len > 0 && old(self).focus.index + 1 < len {
                    old(self).focus.index + 1
                } else {
                    old(self).focus.index as int
                }
            }),
            key == TasksKey::Up ==> final(self).focus.section == old(self).focus.section
                && final(self).focus.index == (if old(self).focus.index > 0 {
                old(self).focus.index - 1
            } else {
                0int
            }),
            key == TasksKey::PageDown ==> final(self).focus.section == old(self).focus.section
                && final(self).focus.index == ({
                let len = old(tm).store().section(old(self).focus.section).len() as int;
                if len > 0 {
                    vstd::math::min(
                        old(self).focus.index + old(self).section_page_size,
                        len - 1,
                    )
                } else {
                    old(self).focus.index as int
                }
            }),
            key == TasksKey::PageUp ==> final(self).focus.section == old(self).focus.section
                && final(self).focus.index == (if old(self).focus.index >= old(
                self,
            ).section_page_size {
                old(self).focus.index - old(self).section_page_size
            } else {
                0int
            }),
            key == TasksKey::NextSection ==> final(self).focus.section == next_of(
                old(self).focus.section,
            ) && focus_ok(*final(self), *final(tm)),
            key == TasksKey::PrevSection ==> final(self).focus.section == prev_of(
                old(self).focus.section,
            ) && focus_ok(*final(self), *final(tm)),
            key == TasksKey::ReorderDown ==> (r == KeyHandleResult::Consumed) && final(tm).store()
                == spec_reorder_down(
                old(tm).store(),
                old(self).focus.section,
                old(self).focus.index as int,
            ) && final(self).focus.section == old(self).focus.section && final(self).focus.index
                == ({
                let len = old(tm).store().section(old(self).focus.section).len() as int;
                if old(self).focus.index + 1 < len {
                    old(self).focus.index + 1
                } else {
                    old(self).focus.index as int
                }
            }),
            key == TasksKey::ReorderUp ==> (r == KeyHandleResult::Consumed) && final(tm).store()
                == spec_reorder_up(
                old(tm).store(),
                old(self).focus.section,
                old(self).focus.index as int,
            ) && final(self).focus.section == old(self).focus.section && final(self).focus.index
                == (if old(self).focus.index > 0 {
                old(self).focus.index - 1
            } else {
                0int
            }),
            key == TasksKey::MoveTask ==> (r == KeyHandleResult::Consumed) && final(tm).store()
                == spec_cycle(
                old(tm).store(),
                old(self).focus.section,
                old(self).focus.index as int,
            ) && final(self).focus.section == old(self).focus.section && focus_ok(
                *final(self),
                *final(tm),
            ),
            key == TasksKey::Complete ==> (r == KeyHandleResult::Consumed) && final(tm).store()
                == spec_toggle_completion(
                old(tm).store(),
                old(self).focus.section,
                old(self).focus.index as int,
            ) && final(self).focus.section == old(self).focus.section && focus_ok(
                *final(self),
                *final(tm),
            ),
            key == TasksKey::Delete ==> (r == KeyHandleResult::Consumed) && final(tm).store()
                == spec_delete(
                old(tm).store(),
                old(self).focus.section,
                old(self).focus.index as int,
            ) && final(self).focus.section == old(self).focus.section && focus_ok(
                *final(self),
                *final(tm),
            ),
            key == TasksKey::Add ==> (r == KeyHandleResult::AddTask) && *final(self) == *old(self)
                && *final(tm) == *old(tm),
            key == TasksKey::Other ==> (r == KeyHandleResult::Ignored) && *final(self) == *old(
                self,
            ) && *final(tm) == *old(tm),
    {
        match key {
            TasksKey::Down => {
                self.move_down(tm);
                KeyHandleResult::Consumed
            },
            TasksKey::Up => {
                self.move_up();
                KeyHandleResult::Consumed
            },
            TasksKey::ReorderDown => {
                tm.reorder_down(self.focus.section, self.focus.index);
                let len = tm.section_len(self.focus.section);
                if len > 0 && self.focus.index < len - 1 {
                    self.focus.index = self.focus.index + 1;
                }
                KeyHandleResult::Consumed
            },
            TasksKey::ReorderUp => {
                tm.reorder_up(self.focus.section, self.focus.index);
                if self.focus.index > 0 {
                    self.focus.index = self.focus.index - 1;
                }
                KeyHandleResult::Consumed
            },
            TasksKey::NextSection => {
                self.next_section(tm);
                KeyHandleResult::Consumed
            },
            TasksKey::PrevSection => {
                self.prev_section(tm);
                KeyHandleResult::Consumed
            },
            TasksKey::MoveTask => {
                tm.cycle_task_section(self.focus.section, self.focus.index);
                self.clamp_focus(tm);
                KeyHandleResult::Consumed
            },
            TasksKey::Complete => {
                tm.toggle_completion(self.focus.section, self.focus.index);
                self.clamp_focus(tm);
                KeyHandleResult::Consumed
            },
            TasksKey::PageDown => {
                self.page_down(tm);
                KeyHandleResult::Consumed
            },
            TasksKey::PageUp => {
                self.page_up();
                KeyHandleResult::Consumed
            },
            TasksKey::Add => KeyHandleResult::AddTask,
            TasksKey::Delete => {
                tm.delete_task(self.focus.section, self.focus.index);
                self.clamp_focus(tm);
                KeyHandleResult::Consumed
            },
            TasksKey::Other => KeyHandleResult::Ignored,
        }
    }

    /// The shortcut help entries of this panel.
    pub fn shortcuts(&self) -> (r: Vec<Shortcut>)
        ensures
            r@.len() == 8,
            r@[0].key@ == "Tab"@ && r@[0].description@ == "Section"@,
            r@[1].key@ == "j/k"@ && r@[1].description@ == "Navigate"@,
            r@[2].key@ == "J/K"@ && r@[2].description@ == "Reorder"@,
            r@[3].key@ == "Enter"@ && r@[3].description@ == "Move"@,
            r@[4].key@ == "x"@ && r@[4].description@ == "Complete"@,
            r@[5].key@ == "a"@ && r@[5].description@ == "Add"@,
            r@[6].key@ == "d"@ && r@[6].description@ == "Delete"@,
            r@[7].key@ == "s"@ && r@[7].description@ == "Sync"@,
    {
        let mut r: Vec<Shortcut> = Vec::new();
        r.push(Shortcut { key: "Tab", description: "Section" });
        r.push(Shortcut { key: "j/k", description: "Navigate" });
        r.push(Shortcut { key: "J/K", description: "Reorder" });
        r.push(Shortcut { key: "Enter", description: "Move" });
        r.push(Shortcut { key: "x", description: "Complete" });
        r.push(Shortcut { key: "a", description: "Add" });
        r.push(Shortcut { key: "d", description: "Delete" });
        r.push(Shortcut { key: "s", description: "Sync" });
        r
    }
}

/// `a - b`, stopping at zero.
pub open spec fn sat_sub(a: int, b: int) -> int {
    if a >= b {
        a - b
    } else {
        0
    }
}

/// First visible row of a list: keeps the cursor two rows from either edge
/// where possible, and never scrolls past the end.
pub open spec fn spec_scroll_offset(total: int, visible: int, focused: Option<usize>) -> int {
    match focused {
        None => 0,
        Some(cursor) => if visible == 0 {
            0
        } else {
            let max_offset = sat_sub(total, visible);
            let min_for_cursor = sat_sub(cursor as int, sat_sub(sat_sub(visible, 2), 1));
            let max_for_cursor = sat_sub(cursor as int, 2);
            vstd::math::min(
                vstd::math::min(min_for_cursor, max_offset),
                vstd::math::min(max_for_cursor, max_offset),
            )
        },
    }
}

fn sat_sub_usize(a: usize, b: usize) -> (r: usize)
    ensures
        r == sat_sub(a as int, b as int),
{
    if a >= b {
        a - b
    } else {
        0
    }
}

fn min_usize(a: usize, b: usize) -> (r: usize)
    ensures
        r == vstd::math::min(a as int, b as int),
{
    if a <= b {
        a
    } else {
        b
    }
}

/// Scroll offset of a task list so the focused row stays in view.
pub fn scroll_offset(total: usize, visible: usize, focused: Option<usize>) -> (r: usize)
    ensures
        r == spec_scroll_offset(total as int, visible as int, focused),
{
    let cursor = match focused {
        Some(c) => c,
        None => {
            return 0;
        },
    };
    if visible == 0 {
        return 0;
    }
    let max_offset = sat_sub_usize(total, visible);
    let min_for_cursor = sat_sub_usize(cursor, sat_sub_usize(sat_sub_usize(visible, 2), 1));
    let max_for_cursor = sat_sub_usize(cursor, 2);
    min_usize(
        min_usize(min_for_cursor, max_offset),
        min_usize(max_for_cursor, max_offset),
    )
}

/// Truncated display text: unchanged when it fits, otherwise whole words
/// followed by an ellipsis, within `max_width` characters.
pub open spec fn spec_truncate(s: Seq<char>, max_width: int) -> Seq<char> {
    if s.len() <= max_width {
        s
    } else if max_width < 3 {
        Seq::new(max_width as nat, |k: int| '.')
    } else {
        fill_words(s, 0, Seq::empty(), max_width - 3) + seq!['.', '.', '.']
    }
}

/// Shorten a task text for display, breaking at word boundaries and ending
/// in an ellipsis when it does not fit.
pub fn truncate_with_ellipsis(text: &str, max_width: usize) -> (r: String)
    ensures
        r@ == spec_truncate(text@, max_width as int),
{
    let n = text.unicode_len();
    if n <= max_width {
        return text.to_owned();
    }
    if max_width < 3 {
        let mut dots = String::new();
        let mut k: usize = 0;
        while k < max_width
            invariant
                k <= max_width,
                dots@.len() == k,
                forall|j: int| 0 <= j < k ==> dots@[j] == '.',
            decreases max_width - k,
        {
            push_char(&mut dots, '.');
            k = k + 1;
        }
        proof {
            assert(dots@ =~= Seq::new(max_width as nat, |j: int| '.'));
        }
        return dots;
    }
    let limit = max_width - 3;
    let mut result = String::new();
    let mut i: usize = 0;
    loop
        invariant
            i <= n,
            n == text@.len(),
            limit == max_width - 3,
            max_width >= 3,
            n > max_width,
            result@.len() <= limit,
            fill_words(text@, 0, Seq::empty(), limit as int) == fill_words(
                text@,
                i as int,
                result@,
                limit as int,
            ),
        ensures
            result@ == fill_words(text@, 0, Seq::empty(), limit as int),
        decreases n - i,
    {
        let w = find_nonspace(text, i);
        if w >= n {
            break;
        }
        let e = find_word_end(text, w);
        let wlen = e - w;
        let col = result.as_str().unicode_len();
        if col == 0 {
            if wlen > limit {
                break;
            }
            result = text.substring_char(w, e).to_owned();
        } else if wlen < limit && col <= limit - wlen - 1 {
            result.append(" ");
            result.append(text.substring_char(w, e));
            proof {
                reveal_strlit(" ");
                assert(" "@ =~= seq![' ']);
            }
        } else {
            break;
        }
        i = e;
    }
    result.append("...");
    proof {
        reveal_strlit("...");
        assert("..."@ =~= seq!['.', '.', '.']);
    }
    result
}

} // verus!
