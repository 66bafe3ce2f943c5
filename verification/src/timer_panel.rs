use vstd::prelude::*;
use vstd::string::StrSliceExecFns;

use crate::checklist::is_space;
use crate::panel::Shortcut;
use crate::timer::{Timer, TimerState};
use crate::wrap::{find_nonspace, find_word_end, lemma_skip_spaces_bounds, spec_wrap_line_count, wrap_from};

verus! {

/// The timer panel: only animation state lives here; the timer itself is
/// passed in by the caller.
#[derive(Debug, Clone, Copy, PartialEq, Eq, Structural)]
pub struct TimerPanel {
    pub tick_count: u32,
}

impl Default for TimerPanel {
    fn default() -> (r: TimerPanel)
        ensures
            r.tick_count == 0,
    {
        TimerPanel { tick_count: 0 }
    }
}

impl TimerPanel {
    /// Advance the animation counter one tick, wrapping around at the top.
    pub fn tick_animation(&mut self)
        ensures
            old(self).tick_count < u32::MAX ==> final(self).tick_count == old(self).tick_count + 1,
            old(self).tick_count == u32::MAX ==> final(self).tick_count == 0,
    {
        self.tick_count = if self.tick_count < u32::MAX {
            self.tick_count + 1
        } else {
            0
        };
    }

    /// The shortcut help entries of this panel: start/pause and reset are
    /// always offered, mode switching only while idle, completing only with
    /// an active task.
    pub fn shortcuts(&self, timer: &Timer, has_active_task: bool) -> (r: Vec<Shortcut>)
        ensures
            r@.len() == 2 + (if timer.state == TimerState::Idle {
                1int
            } else {
                0int
            }) + (if has_active_task {
                1int
            } else {
                0int
            }),
            r@[0].key@ == "Space"@ && r@[0].description@ == "Start/Pause"@,
            r@[1].key@ == "R"@ && r@[1].description@ == "Reset"@,
            timer.state == TimerState::Idle ==> r@[2].key@ == "Tab"@ && r@[2].description@
                == "Mode"@,
            has_active_task ==> {
                let at = if timer.state == TimerState::Idle {
                    3int
                } else {
                    2int
                };
                r@[at].key@ == "X"@ && r@[at].description@ == "Complete"@
            },
    {
        let mut r: Vec<Shortcut> = Vec::new();
        r.push(Shortcut { key: "Space", description: "Start/Pause" });
        r.push(Shortcut { key: "R", description: "Reset" });
        if timer.is_idle() {
            r.push(Shortcut { key: "Tab", description: "Mode" });
        }
        if has_active_task {
            r.push(Shortcut { key: "X", description: "Complete" });
        }
        r
    }
}

/// How many lines a text wraps to at the given width, by greedy word
/// wrapping; empty text or zero width count as one line.
pub fn wrap_line_count(text: &str, width: usize) -> (r: usize)
    ensures
        r == spec_wrap_line_count(text@, width as int),
{
    let n = text.unicode_len();
    if n == 0 || width == 0 {
        return 1;
    }
    let mut lines: usize = 1;
    let mut col: usize = 0;
    let mut i: usize = 0;
    loop
        invariant
            i <= n,
            n == text@.len(),
            n > 0,
            width > 0,
            wrap_from(text@, 0, 0, 1, width as int) == wrap_from(
                text@,
                i as int,
                col as int,
                lines as int,
                width as int,
            ),
            col == 0 ==> i == 0 && lines == 1,
            col > 0 && i < n ==> is_space(text@[i as int]),
            2 * lines <= i + 2,
        ensures
            lines == wrap_from(text@, 0, 0, 1, width as int),
        decreases n - i,
    {
        let w = find_nonspace(text, i);
        if w >= n {
            break;
        }
        proof {
            if col > 0 {
                lemma_skip_spaces_bounds(text@, i + 1);
            }
        }
        let e = find_word_end(text, w);
        let wlen = e - w;
        if col == 0 {
            col = wlen;
        } else if wlen < width && col <= width - wlen - 1 {
            col = col + 1 + wlen;
        } else {
            lines = lines + 1;
            col = wlen;
        }
        i = e;
    }
    lines
}

} // verus!
