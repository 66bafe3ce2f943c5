use vstd::prelude::*;
use vstd::string::{StrSliceExecFns, StringExecFns};

use crate::checklist::{push_char, trim_bounds, trimmed};
use crate::task::TaskSection;

verus! {

/// What the input overlay asks of its caller after a key press.
pub enum TaskInputAction {
    Consumed,
    Dismiss,
    Submit { text: String, section: TaskSection },
}

/// Key presses the input overlay reacts to, once the terminal layer has
/// decoded them.
#[derive(Debug, Clone, Copy, PartialEq, Eq, Structural)]
pub enum InputKey {
    Dismiss,
    Submit,
    Backspace,
    Left,
    Right,
    Char(char),
    Other,
}

/// Line editor for a new task: the text typed so far, the caret position in
/// characters, and the section the task will enter.
pub struct TaskInputOverlay {
    pub text: String,
    pub cursor: usize,
    pub section: TaskSection,
}

impl TaskInputOverlay {
    /// The caret never leaves the text.
    pub open spec fn wf(self) -> bool {
        self.cursor <= self.text@.len()
    }

    pub fn new(section: TaskSection) -> (r: TaskInputOverlay)
        ensures
            r.text@.len() == 0,
            r.cursor == 0,
            r.section == section,
            r.wf(),
    {
        TaskInputOverlay { text: String::new(), cursor: 0, section }
    }

    /// Drive the editor with one decoded key press.  Submitting trims the
    /// text; an empty result dismisses the overlay instead.
    pub fn handle_key(&mut self, key: InputKey) -> (r: TaskInputAction)
        requires
            old(self).wf(),
        ensures
            final(self).wf(),
            final(self).section == old(self).section,
            key == InputKey::Dismiss ==> (r is Dismiss) && *final(self) == *old(self),
            key == InputKey::Submit ==> *final(self) == *old(self) && (if trimmed(
                old(self).text@,
            ).len() == 0 {
                r is Dismiss
            } else {
                match r {
                    TaskInputAction::Submit { text, section } => text@ == trimmed(old(self).text@)
                        && section == old(self).section,
                    _ => false,
                }
            }),
            key == InputKey::Backspace ==> (r is Consumed) && (if old(self).cursor > 0 {
                let t = old(self).text@;
                let c = old(self).cursor as int;
                final(self).text@ == t.subrange(0, c - 1) + t.subrange(c, t.len() as int)
                    && final(self).cursor == c - 1
            } else {
                *final(self) == *old(self)
            }),
            key == InputKey::Left ==> (r is Consumed) && final(self).text == old(self).text
                && final(self).cursor == (if old(self).cursor > 0 {
                old(self).cursor - 1
            } else {
                0int
            }),
            key == InputKey::Right ==> (r is Consumed) && final(self).text == old(self).text
                && final(self).cursor == (if old(self).cursor < old(self).text@.len() {
                old(self).cursor + 1
            } else {
                old(self).cursor as int
            }),
            (key matches InputKey::Char(c)) ==> (r is Consumed) && (if old(self).cursor
                < usize::MAX {
                let t = old(self).text@;
                let cur = old(self).cursor as int;
                final(self).text@ == t.subrange(0, cur).push(key->Char_0) + t.subrange(
                    cur,
                    t.len() as int,
                ) && final(self).cursor == cur + 1
            } else {
                *final(self) == *old(self)
            }),
            key == InputKey::Other ==> (r is Consumed) && *final(self) == *old(self),
    {
        match key {
            InputKey::Dismiss => TaskInputAction::Dismiss,
            InputKey::Submit => {
                let (a, b) = trim_bounds(self.text.as_str());
                if b == a {
                    TaskInputAction::Dismiss
                } else {
                    let text = self.text.as_str().substring_char(a, b).to_owned();
                    TaskInputAction::Submit { text, section: self.section }
                }
            },
            InputKey::Backspace => {
                if self.cursor > 0 {
                    let n = self.text.as_str().unicode_len();
                    let mut nt = self.text.as_str().substring_char(0, self.cursor - 1).to_owned();
                    let rest = self.text.as_str().substring_char(self.cursor, n);
                    nt.append(rest);
                    self.text = nt;
                    self.cursor = self.cursor - 1;
                }
                TaskInputAction::Consumed
            },
            InputKey::Left => {
                if self.cursor > 0 {
                    self.cursor = self.cursor - 1;
                }
                TaskInputAction::Consumed
            },
            InputKey::Right => {
                let n = self.text.as_str().unicode_len();
                if self.cursor < n {
                    self.cursor = self.cursor + 1;
                }
                TaskInputAction::Consumed
            },
            InputKey::Char(c) => {
                if self.cursor < usize::MAX {
                    let n = self.text.as_str().unicode_len();
                    let mut nt = self.text.as_str().substring_char(0, self.cursor).to_owned();
                    push_char(&mut nt, c);
                    let rest = self.text.as_str().substring_char(self.cursor, n);
                    nt.append(rest);
                    self.text = nt;
                    self.cursor = self.cursor + 1;
                }
                TaskInputAction::Consumed
            },
            InputKey::Other => TaskInputAction::Consumed,
        }
    }
}

} // verus!
