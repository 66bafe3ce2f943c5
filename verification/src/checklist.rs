use vstd::prelude::*;
use vstd::string::{StrSliceExecFns, StringExecFns};

use crate::sync::{models, SyncItem, SyncItemModel, SyncResolution};

verus! {

/// The views of a sequence of strings, line by line.
pub open spec fn char_lines(lines: Seq<String>) -> Seq<Seq<char>> {
    lines.map_values(|s: String| s@)
}

/// Characters the codec treats as whitespace when trimming a line.
pub open spec fn is_space(c: char) -> bool {
    c == ' ' || c == '\t' || c == '\n' || c == '\r' || c == '\u{000B}' || c == '\u{000C}'
}

/// Number of leading whitespace characters: the indentation of a line.
pub open spec fn leading_ws_len(s: Seq<char>) -> nat
    decreases s.len(),
{
    if s.len() > 0 && is_space(s[0]) {
        (1 + leading_ws_len(s.drop_first())) as nat
    } else {
        0
    }
}

pub open spec fn indent_of(s: Seq<char>) -> Seq<char> {
    s.take(leading_ws_len(s) as int)
}

pub open spec fn trim_start(s: Seq<char>) -> Seq<char>
    decreases s.len(),
{
    if s.len() > 0 && is_space(s[0]) {
        trim_start(s.drop_first())
    } else {
        s
    }
}

pub open spec fn trim_end(s: Seq<char>) -> Seq<char>
    decreases s.len(),
{
    if s.len() > 0 && is_space(s.last()) {
        trim_end(s.drop_last())
    } else {
        s
    }
}

/// A line with leading and trailing whitespace removed.
pub open spec fn trimmed(s: Seq<char>) -> Seq<char> {
    trim_end(trim_start(s))
}

/// `- [ ] `, the marker of an incomplete task.
pub open spec fn marker_incomplete() -> Seq<char> {
    seq!['-', ' ', '[', ' ', ']', ' ']
}

/// `- [x] ` or `- [X] `, the marker of a completed task.
pub open spec fn marker_complete(upper: bool) -> Seq<char> {
    seq!['-', ' ', '[', if upper { 'X' } else { 'x' }, ']', ' ']
}

/// Does the trimmed line start with the incomplete-task marker?
pub open spec fn is_incomplete_line(line: Seq<char>) -> bool {
    trimmed(line).len() >= 6 && trimmed(line).take(6) == marker_incomplete()
}

/// Does the trimmed line start with a completed-task marker?
pub open spec fn is_complete_line(line: Seq<char>) -> bool {
    trimmed(line).len() >= 6 && (trimmed(line).take(6) == marker_complete(false) || trimmed(
        line,
    ).take(6) == marker_complete(true))
}

pub open spec fn is_task_line(line: Seq<char>) -> bool {
    is_incomplete_line(line) || is_complete_line(line)
}

/// The task text of a checklist line: whatever follows the marker.
pub open spec fn task_text(line: Seq<char>) -> Seq<char> {
    trimmed(line).skip(6)
}

/// The texts of all incomplete-task lines, in file order; lines whose text
/// is empty are dropped.
pub open spec fn parse_incomplete(lines: Seq<Seq<char>>) -> Seq<Seq<char>>
    decreases lines.len(),
{
    if lines.len() == 0 {
        Seq::empty()
    } else {
        let rest = parse_incomplete(lines.drop_last());
        let l = lines.last();
        if is_incomplete_line(l) && task_text(l).len() > 0 {
            rest.push(task_text(l))
        } else {
            rest
        }
    }
}

/// The texts of all completed-task lines, in file order; lines whose text
/// is empty are dropped.
pub open spec fn parse_complete(lines: Seq<Seq<char>>) -> Seq<Seq<char>>
    decreases lines.len(),
{
    if lines.len() == 0 {
        Seq::empty()
    } else {
        let rest = parse_complete(lines.drop_last());
        let l = lines.last();
        if is_complete_line(l) && task_text(l).len() > 0 {
            rest.push(task_text(l))
        } else {
            rest
        }
    }
}

/// Does the line carry a task marker, and is the line's text exactly `text`?
/// Unlike parsing, matching accepts an empty text.
pub open spec fn line_matches(line: Seq<char>, text: Seq<char>) -> bool {
    is_task_line(line) && task_text(line) == text
}

pub open spec fn as_ints(v: Seq<usize>) -> Seq<int> {
    v.map_values(|u: usize| u as int)
}

/// Index of the first line at or after `i` that matches `text` and has not
/// been used yet.
pub open spec fn spec_find_line(
    lines: Seq<Seq<char>>,
    used: Seq<int>,
    text: Seq<char>,
    i: int,
) -> Option<int>
    decreases lines.len() - i,
{
    if i < 0 || i >= lines.len() {
        None
    } else if !used.contains(i) && line_matches(lines[i], text) {
        Some(i)
    } else {
        spec_find_line(lines, used, text, i + 1)
    }
}

proof fn lemma_trim_start_at(s: Seq<char>, i: int)
    requires
        0 <= i <= s.len(),
        forall|k: int| 0 <= k < i ==> is_space(s[k]),
        i < s.len() ==> !is_space(s[i]),
    ensures
        trim_start(s) == s.skip(i),
        leading_ws_len(s) == i,
    decreases i,
{
    if i == 0 {
        assert(s.skip(0) =~= s);
    } else {
        lemma_trim_start_at(s.drop_first(), i - 1);
        assert(s.drop_first().skip(i - 1) =~= s.skip(i));
    }
}

proof fn lemma_trim_end_at(s: Seq<char>, j: int)
    requires
        0 <= j <= s.len(),
        forall|k: int| j <= k < s.len() ==> is_space(s[k]),
        j > 0 ==> !is_space(s[j - 1]),
    ensures
        trim_end(s) == s.take(j),
    decreases s.len(),
{
    if j == s.len() {
        assert(s.take(j) =~= s);
    } else {
        assert(is_space(s.last()));
        lemma_trim_end_at(s.drop_last(), j);
        assert(s.drop_last().take(j) =~= s.take(j));
    }
}

pub(crate) proof fn lemma_char_lines_push(v: Seq<String>, s: String)
    ensures
        char_lines(v.push(s)) == char_lines(v).push(s@),
{
    assert(char_lines(v.push(s)) =~= char_lines(v).push(s@));
}

proof fn lemma_as_ints_contains(v: Seq<usize>, x: usize)
    ensures
        as_ints(v).contains(x as int) == v.contains(x),
{
    if v.contains(x) {
        let k = choose|k: int| 0 <= k < v.len() && v[k] == x;
        assert(as_ints(v)[k] == x as int);
    }
    if as_ints(v).contains(x as int) {
        let k = choose|k: int| 0 <= k < as_ints(v).len() && as_ints(v)[k] == x as int;
        assert(v[k] == x);
    }
}

pub(crate) fn is_space_char(c: char) -> (b: bool)
    ensures
        b == is_space(c),
{
    c == ' ' || c == '\t' || c == '\n' || c == '\r' || c == '\u{000B}' || c == '\u{000C}'
}

/// Relies on String::push: appends exactly the given character.
#[verifier::external_body]
pub(crate) fn push_char(s: &mut String, c: char)
    ensures
        final(s)@ == old(s)@.push(c),
{
    s.push(c);
}

/// Character positions of the trimmed part of a line.
pub(crate) fn trim_bounds(line: &str) -> (r: (usize, usize))
    ensures
        ({
            let (a, b) = r;
            &&& a <= b <= line@.len()
            &&& trimmed(line@) == line@.subrange(a as int, b as int)
            &&& a == leading_ws_len(line@)
        }),
{
    let n = line.unicode_len();
    let mut a: usize = 0;
    while a < n && is_space_char(line.get_char(a))
        invariant
            n == line@.len(),
            a <= n,
            forall|k: int| 0 <= k < a ==> is_space(line@[k]),
        decreases n - a,
    {
        a = a + 1;
    }
    let mut b: usize = n;
    while b > a && is_space_char(line.get_char(b - 1))
        invariant
            a <= b <= n,
            n == line@.len(),
            forall|k: int| b <= k < n ==> is_space(line@[k]),
        decreases b,
    {
        b = b - 1;
    }
    proof {
        lemma_trim_start_at(line@, a as int);
        lemma_trim_end_at(line@.skip(a as int), b - a as int);
        assert(line@.skip(a as int).take(b - a as int) =~= line@.subrange(a as int, b as int));
    }
    (a, b)
}

/// What a line is to the codec: passthrough content, or a task line whose
/// trimmed part spans the character range `start..end`.
pub enum LineShape {
    Plain,
    Task { complete: bool, start: usize, end: usize },
}

/// Decide whether a line is a checklist line, and where its text sits.
fn classify_line(line: &str) -> (r: LineShape)
    ensures
        match r {
            LineShape::Plain => !is_task_line(line@),
            LineShape::Task { complete, start, end } => {
                &&& start + 6 <= end <= line@.len()
                &&& trimmed(line@) == line@.subrange(start as int, end as int)
                &&& start == leading_ws_len(line@)
                &&& complete == is_complete_line(line@)
                &&& complete != is_incomplete_line(line@)
                &&& task_text(line@) == line@.subrange(start + 6, end as int)
            },
        },
{
    let (a, b) = trim_bounds(line);
    if b - a < 6 {
        return LineShape::Plain;
    }
    let mark_ok = line.get_char(a) == '-' && line.get_char(a + 1) == ' ' && line.get_char(a + 2)
        == '[' && line.get_char(a + 4) == ']' && line.get_char(a + 5) == ' ';
    let state = line.get_char(a + 3);
    proof {
        assert(trimmed(line@).take(6) =~= line@.subrange(a as int, a + 6));
        assert(trimmed(line@).skip(6) =~= line@.subrange(a + 6, b as int));
    }
    if mark_ok && state == ' ' {
        proof {
            assert(trimmed(line@).take(6) =~= marker_incomplete());
        }
        LineShape::Task { complete: false, start: a, end: b }
    } else if mark_ok && (state == 'x' || state == 'X') {
        proof {
            if state == 'x' {
                assert(trimmed(line@).take(6) =~= marker_complete(false));
            } else {
                assert(trimmed(line@).take(6) =~= marker_complete(true));
            }
        }
        LineShape::Task { complete: true, start: a, end: b }
    } else {
        proof {
            assert(!is_incomplete_line(line@)) by {
                if is_incomplete_line(line@) {
                    assert(trimmed(line@).take(6)[3] == marker_incomplete()[3]);
                }
            };
            assert(!is_complete_line(line@)) by {
                if is_complete_line(line@) {
                    if trimmed(line@).take(6) == marker_complete(false) {
                        assert(trimmed(line@).take(6)[3] == marker_complete(false)[3]);
                    } else {
                        assert(trimmed(line@).take(6)[3] == marker_complete(true)[3]);
                    }
                }
            };
        }
        LineShape::Plain
    }
}

/// Split a checklist into incomplete and complete task texts.
pub fn parse_task_lines(lines: &Vec<String>) -> (parsed: ParsedTasks)
    ensures
        char_lines(parsed.incomplete@) == parse_incomplete(char_lines(lines@)),
        char_lines(parsed.complete@) == parse_complete(char_lines(lines@)),
{
    let mut incomplete: Vec<String> = Vec::new();
    let mut complete: Vec<String> = Vec::new();
    let mut i: usize = 0;
    while i < lines.len()
        invariant
            i <= lines.len(),
            char_lines(incomplete@) == parse_incomplete(char_lines(lines@).take(i as int)),
            char_lines(complete@) == parse_complete(char_lines(lines@).take(i as int)),
        decreases lines.len() - i,
    {
        proof {
            assert(char_lines(lines@).take(i + 1).drop_last() =~= char_lines(lines@).take(i as int));
            assert(char_lines(lines@).take(i + 1).last() == lines@[i as int]@);
        }
        let line: &String = &lines[i];
        match classify_line(line.as_str()) {
            LineShape::Task { complete: done, start, end } => {
                if end > start + 6 {
                    let text = line.as_str().substring_char(start + 6, end).to_owned();
                    if done {
                        proof {
                            lemma_char_lines_push(complete@, text);
                        }
                        complete.push(text);
                    } else {
                        proof {
                            lemma_char_lines_push(incomplete@, text);
                        }
                        incomplete.push(text);
                    }
                }
            },
            LineShape::Plain => {},
        }
        i = i + 1;
    }
    proof {
        assert(char_lines(lines@).take(lines@.len() as int) =~= char_lines(lines@));
    }
    ParsedTasks { incomplete, complete }
}

fn contains_usize(v: &Vec<usize>, x: usize) -> (b: bool)
    ensures
        b == v@.contains(x),
{
    let mut i: usize = 0;
    while i < v.len()
        invariant
            i <= v.len(),
            forall|k: int| 0 <= k < i ==> v@[k] != x,
        decreases v.len() - i,
    {
        if v[i] == x {
            return true;
        }
        i = i + 1;
    }
    false
}

/// Do the characters `from..to` of `line` spell exactly `text`?
fn range_eq(line: &str, from: usize, to: usize, text: &str) -> (b: bool)
    requires
        from <= to <= line@.len(),
    ensures
        b == (line@.subrange(from as int, to as int) == text@),
{
    let tlen = text.unicode_len();
    if to - from != tlen {
        proof {
            assert(line@.subrange(from as int, to as int).len() != text@.len());
        }
        return false;
    }
    let mut k: usize = 0;
    while k < tlen
        invariant
            k <= tlen,
            tlen == text@.len(),
            from + tlen == to <= line@.len(),
            forall|j: int| 0 <= j < k ==> line@[from + j] == text@[j],
        decreases tlen - k,
    {
        if line.get_char(from + k) != text.get_char(k) {
            proof {
                assert(line@.subrange(from as int, to as int)[k as int] != text@[k as int]);
            }
            return false;
        }
        k = k + 1;
    }
    proof {
        assert(line@.subrange(from as int, to as int) =~= text@);
    }
    true
}

/// Find the first line matching `task_text`, skipping lines already used by
/// an earlier item; this is how duplicate texts resolve positionally.
pub fn find_line_index(task_text: &str, file_lines: &Vec<String>, used_lines: &Vec<usize>) -> (r:
    Option<usize>)
    ensures
        match r {
            Some(idx) => idx < file_lines@.len() && spec_find_line(
                char_lines(file_lines@),
                as_ints(used_lines@),
                task_text@,
                0,
            ) == Some(idx as int),
            None => spec_find_line(char_lines(file_lines@), as_ints(used_lines@), task_text@, 0)
                is None,
        },
{
    let ghost lines_model = char_lines(file_lines@);
    let ghost used_model = as_ints(used_lines@);
    let mut idx: usize = 0;
    while idx < file_lines.len()
        invariant
            idx <= file_lines@.len(),
            lines_model == char_lines(file_lines@),
            used_model == as_ints(used_lines@),
            spec_find_line(lines_model, used_model, task_text@, 0) == spec_find_line(
                lines_model,
                used_model,
                task_text@,
                idx as int,
            ),
        decreases file_lines@.len() - idx,
    {
        proof {
            lemma_as_ints_contains(used_lines@, idx);
        }
        let used = contains_usize(used_lines, idx);
        if !used {
            let line: &String = &file_lines[idx];
            match classify_line(line.as_str()) {
                LineShape::Task { complete: _, start, end } => {
                    if range_eq(line.as_str(), start + 6, end, task_text) {
                        return Some(idx);
                    }
                },
                LineShape::Plain => {},
            }
        }
        idx = idx + 1;
    }
    None
}

/// Task texts parsed out of a checklist, split by completion state.
pub struct ParsedTasks {
    pub incomplete: Vec<String>,
    pub complete: Vec<String>,
}

/// In-memory model of the checklist file: its lines, in order, with
/// passthrough content kept verbatim.
#[derive(Debug, Clone)]
pub struct TaskFile {
    pub lines: Vec<String>,
}

impl TaskFile {
    pub fn new(lines: Vec<String>) -> (f: TaskFile)
        ensures
            f.lines == lines,
    {
        TaskFile { lines }
    }

    pub fn lines(&self) -> (r: &Vec<String>)
        ensures
            r == &self.lines,
    {
        &self.lines
    }

    /// Wrap the lines of a checklist and parse them once.
    pub fn load(lines: Vec<String>) -> (r: (TaskFile, ParsedTasks))
        ensures
            r.0.lines == lines,
            char_lines(r.1.incomplete@) == parse_incomplete(char_lines(lines@)),
            char_lines(r.1.complete@) == parse_complete(char_lines(lines@)),
    {
        let parsed = parse_task_lines(&lines);
        (TaskFile { lines }, parsed)
    }

    /// Parse the lines currently held.
    pub fn read_tasks(&self) -> (parsed: ParsedTasks)
        ensures
            char_lines(parsed.incomplete@) == parse_incomplete(char_lines(self.lines@)),
            char_lines(parsed.complete@) == parse_complete(char_lines(self.lines@)),
    {
        parse_task_lines(&self.lines)
    }
}

/// Intermediate state while items are being applied to the file: the lines
/// so far, the indices already claimed by earlier items, and the indices
/// marked for deletion.
pub struct PatchState {
    pub lines: Seq<Seq<char>>,
    pub used: Seq<int>,
    pub removed: Seq<int>,
}

/// A checklist line rebuilt in place: original indentation, new marker,
/// the item's text.
pub open spec fn rewritten_line(orig: Seq<char>, text: Seq<char>, complete: bool) -> Seq<char> {
    indent_of(orig) + (if complete {
        marker_complete(false)
    } else {
        marker_incomplete()
    }) + text
}

/// How one item changes the file: the first unconsumed matching line is
/// rewritten in place (or marked for deletion); with no match left, a new
/// unindented line is appended unless the item is a removal.
pub open spec fn apply_item_to_lines(st: PatchState, it: SyncItemModel) -> PatchState {
    match spec_find_line(st.lines, st.used, it.text, 0) {
        Some(idx) => {
            let st2 = PatchState { used: st.used.push(idx), ..st };
            match it.resolution {
                SyncResolution::Incomplete => PatchState {
                    lines: st.lines.update(idx, rewritten_line(st.lines[idx], it.text, false)),
                    ..st2
                },
                SyncResolution::Complete => PatchState {
                    lines: st.lines.update(idx, rewritten_line(st.lines[idx], it.text, true)),
                    ..st2
                },
                SyncResolution::Remove => PatchState { removed: st.removed.push(idx), ..st2 },
            }
        },
        None => match it.resolution {
            SyncResolution::Remove => st,
            SyncResolution::Incomplete => PatchState {
                lines: st.lines.push(marker_incomplete() + it.text),
                ..st
            },
            SyncResolution::Complete => PatchState {
                lines: st.lines.push(marker_complete(false) + it.text),
                ..st
            },
        },
    }
}

pub open spec fn patch_lines(st: PatchState, items: Seq<SyncItemModel>) -> PatchState
    decreases items.len(),
{
    if items.len() == 0 {
        st
    } else {
        apply_item_to_lines(patch_lines(st, items.drop_last()), items.last())
    }
}

/// Drop every line whose index was marked for deletion, keeping the order
/// of the rest.
pub open spec fn remove_marked(lines: Seq<Seq<char>>, removed: Seq<int>) -> Seq<Seq<char>>
    decreases lines.len(),
{
    if lines.len() == 0 {
        Seq::empty()
    } else {
        let rest = remove_marked(lines.drop_last(), removed);
        if removed.contains(lines.len() - 1) {
            rest
        } else {
            rest.push(lines.last())
        }
    }
}

/// The lines of the file after a list of resolved items is applied.
pub open spec fn spec_write_sync(lines: Seq<Seq<char>>, items: Seq<SyncItemModel>) -> Seq<
    Seq<char>,
> {
    let st = patch_lines(
        PatchState { lines, used: Seq::empty(), removed: Seq::empty() },
        items,
    );
    remove_marked(st.lines, st.removed)
}

pub proof fn lemma_find_some(
    lines: Seq<Seq<char>>,
    used: Seq<int>,
    text: Seq<char>,
    i: int,
    j: int,
)
    requires
        0 <= i,
        spec_find_line(lines, used, text, i) == Some(j),
    ensures
        i <= j < lines.len(),
        !used.contains(j),
        line_matches(lines[j], text),
        forall|k: int| i <= k < j ==> used.contains(k) || !line_matches(lines[k], text),
    decreases lines.len() - i,
{
    if i >= lines.len() {
    } else if !used.contains(i) && line_matches(lines[i], text) {
    } else {
        lemma_find_some(lines, used, text, i + 1, j);
    }
}

pub proof fn lemma_find_none(lines: Seq<Seq<char>>, used: Seq<int>, text: Seq<char>, i: int)
    requires
        0 <= i,
        spec_find_line(lines, used, text, i) is None,
    ensures
        forall|k: int| i <= k < lines.len() ==> used.contains(k) || !line_matches(lines[k], text),
    decreases lines.len() - i,
{
    if i < lines.len() {
        lemma_find_none(lines, used, text, i + 1);
    }
}

/// The search returns the first unconsumed match.
pub proof fn lemma_find_first(
    lines: Seq<Seq<char>>,
    used: Seq<int>,
    text: Seq<char>,
    i: int,
    j: int,
)
    requires
        0 <= i <= j < lines.len(),
        line_matches(lines[j], text),
        !used.contains(j),
        forall|k: int| i <= k < j ==> used.contains(k) || !line_matches(lines[k], text),
    ensures
        spec_find_line(lines, used, text, i) == Some(j),
    decreases j - i,
{
    if i < j {
        lemma_find_first(lines, used, text, i + 1, j);
    }
}

/// Removing nothing keeps every line.
proof fn lemma_remove_marked_none(lines: Seq<Seq<char>>, removed: Seq<int>)
    requires
        forall|k: int| 0 <= k < lines.len() ==> !removed.contains(k),
    ensures
        remove_marked(lines, removed) == lines,
    decreases lines.len(),
{
    if lines.len() > 0 {
        lemma_remove_marked_none(lines.drop_last(), removed);
        assert(remove_marked(lines, removed) =~= lines);
    } else {
        assert(remove_marked(lines, removed) =~= lines);
    }
}

/// Positional dedup: with two identical-text task lines in the file and one
/// item resolving that text to complete, applying the items changes exactly
/// the first matching line; the second stays untouched.
pub proof fn lemma_positional_dedup(lines: Seq<Seq<char>>, i: int, j: int, it: SyncItemModel)
    requires
        0 <= i < j < lines.len(),
        line_matches(lines[i], it.text),
        line_matches(lines[j], it.text),
        forall|k: int| 0 <= k < i ==> !line_matches(lines[k], it.text),
        it.resolution == SyncResolution::Complete,
    ensures
        spec_write_sync(lines, seq![it]).len() == lines.len(),
        spec_write_sync(lines, seq![it])[i] == rewritten_line(lines[i], it.text, true),
        spec_write_sync(lines, seq![it])[j] == lines[j],
        forall|k: int|
            0 <= k < lines.len() && k != i ==> spec_write_sync(lines, seq![it])[k] == lines[k],
{
    let items = seq![it];
    let init = PatchState { lines, used: Seq::empty(), removed: Seq::empty() };
    assert(items.drop_last() =~= Seq::<SyncItemModel>::empty());
    assert(patch_lines(init, items.drop_last()) == init);
    lemma_find_first(lines, init.used, it.text, 0, i);
    let st = patch_lines(init, items);
    assert(st.lines == lines.update(i, rewritten_line(lines[i], it.text, true)));
    assert(st.removed =~= Seq::<int>::empty());
    lemma_remove_marked_none(st.lines, st.removed);
}

/// Does the line carry the marker that `it` resolves to, with exactly its
/// text?
pub open spec fn marker_ok(line: Seq<char>, it: SyncItemModel) -> bool {
    &&& task_text(line) == it.text
    &&& (it.resolution == SyncResolution::Incomplete ==> is_incomplete_line(line))
    &&& (it.resolution == SyncResolution::Complete ==> is_complete_line(line))
}

/// No two items share a text.
pub open spec fn distinct_texts(items: Seq<SyncItemModel>) -> bool {
    forall|a: int, b: int| 0 <= a < b < items.len() ==> items[a].text != items[b].text
}

/// Each text is non-empty and does not end in whitespace, so a written
/// checklist line parses back to exactly that text.
pub open spec fn writable_texts(items: Seq<SyncItemModel>) -> bool {
    forall|a: int|
        0 <= a < items.len() ==> (#[trigger] items[a]).text.len() > 0 && !is_space(
            items[a].text.last(),
        )
}

/// Every removal targets a text with at most one matching line in the file.
pub open spec fn removes_single_match(lines: Seq<Seq<char>>, items: Seq<SyncItemModel>) -> bool {
    forall|a: int, k1: int, k2: int|
        0 <= a < items.len() && (#[trigger] items[a]).resolution == SyncResolution::Remove && 0
            <= k1 < lines.len() && 0 <= k2 < lines.len() && line_matches(
            #[trigger] lines[k1],
            items[a].text,
        ) && line_matches(#[trigger] lines[k2], items[a].text) ==> k1 == k2
}

/// Is this line the work of one of the first `n` items?
spec fn from_item(line: Seq<char>, items: Seq<SyncItemModel>, n: int) -> bool {
    exists|b: int|
        0 <= b < n && is_task_line(line) && task_text(line) == (#[trigger] items[b]).text
}

/// Some line not marked for deletion carries `it`'s marker and text.
spec fn has_surviving_line(st: PatchState, it: SyncItemModel) -> bool {
    exists|idx: int|
        0 <= idx < st.lines.len() && !st.removed.contains(idx) && marker_ok(
            #[trigger] st.lines[idx],
            it,
        )
}

/// No line that escapes deletion matches `t`.
spec fn no_unremoved_match(st: PatchState, t: Seq<char>) -> bool {
    forall|idx: int|
        0 <= idx < st.lines.len() && !st.removed.contains(idx) ==> !line_matches(
            #[trigger] st.lines[idx],
            t,
        )
}

/// What holds of the patch state after the first `n` items ran.
spec fn patch_inv(
    lines: Seq<Seq<char>>,
    items: Seq<SyncItemModel>,
    n: int,
    st: PatchState,
) -> bool {
    &&& st.lines.len() >= lines.len()
    &&& (forall|idx: int|
        #![trigger st.lines[idx]]
        0 <= idx < st.lines.len() ==> ((idx < lines.len() && st.lines[idx] == lines[idx])
            || from_item(st.lines[idx], items, n)))
    &&& (forall|idx: int| #[trigger]
        st.used.contains(idx) ==> 0 <= idx < st.lines.len() && from_item(st.lines[idx], items, n))
    &&& (forall|idx: int| #[trigger] st.removed.contains(idx) ==> st.used.contains(idx))
    &&& (forall|a: int|
        0 <= a < n ==> (if (#[trigger] items[a]).resolution == SyncResolution::Remove {
            no_unremoved_match(st, items[a].text)
        } else {
            has_surviving_line(st, items[a])
        }))
}

proof fn lemma_push_contains<A>(s: Seq<A>, x: A, y: A)
    ensures
        s.push(x).contains(y) <==> (s.contains(y) || x == y),
{
    if s.push(x).contains(y) {
        let i = choose|i: int| 0 <= i < s.push(x).len() && s.push(x)[i] == y;
        if i < s.len() {
            assert(s[i] == y);
        }
    }
    if s.contains(y) {
        let i = choose|i: int| 0 <= i < s.len() && s[i] == y;
        assert(s.push(x)[i] == y);
    }
    if x == y {
        assert(s.push(x)[s.len() as int] == y);
    }
}

proof fn lemma_leading_ws(s: Seq<char>)
    ensures
        leading_ws_len(s) <= s.len(),
        forall|k: int| 0 <= k < leading_ws_len(s) ==> is_space(#[trigger] s[k]),
    decreases s.len(),
{
    if s.len() > 0 && is_space(s[0]) {
        lemma_leading_ws(s.drop_first());
        assert forall|k: int| 0 <= k < leading_ws_len(s) implies is_space(#[trigger] s[k]) by {
            if k > 0 {
                assert(s.drop_first()[k - 1] == s[k]);
            }
        }
    }
}

/// A line built as indentation, marker, text parses back to that marker and
/// text, provided the text is non-empty and does not end in whitespace.
proof fn lemma_written_line_parses(indent: Seq<char>, text: Seq<char>, complete: bool)
    requires
        text.len() > 0,
        !is_space(text.last()),
        forall|k: int| 0 <= k < indent.len() ==> is_space(#[trigger] indent[k]),
    ensures
        ({
            let m = if complete {
                marker_complete(false)
            } else {
                marker_incomplete()
            };
            let l = indent + m + text;
            &&& trimmed(l) == m + text
            &&& task_text(l) == text
            &&& (complete ==> is_complete_line(l))
            &&& (!complete ==> is_incomplete_line(l))
            &&& is_task_line(l)
            &&& line_matches(l, text)
        }),
{
    let m = if complete {
        marker_complete(false)
    } else {
        marker_incomplete()
    };
    let l = indent + m + text;
    assert(!is_space('-'));
    assert forall|k: int| 0 <= k < indent.len() implies is_space(#[trigger] l[k]) by {
        assert(l[k] == indent[k]);
    }
    assert(l[indent.len() as int] == m[0]);
    lemma_trim_start_at(l, indent.len() as int);
    assert(l.skip(indent.len() as int) =~= m + text);
    assert((m + text).last() == text.last());
    lemma_trim_end_at(m + text, (m + text).len() as int);
    assert((m + text).take((m + text).len() as int) =~= m + text);
    assert(trimmed(l) == m + text);
    assert((m + text).take(6) =~= m);
    assert((m + text).skip(6) =~= text);
}

proof fn lemma_patch_inv(lines: Seq<Seq<char>>, items: Seq<SyncItemModel>, n: int)
    requires
        0 <= n <= items.len(),
        distinct_texts(items),
        writable_texts(items),
        removes_single_match(lines, items),
    ensures
        patch_inv(
            lines,
            items,
            n,
            patch_lines(PatchState { lines, used: Seq::empty(), removed: Seq::empty() }, items.take(n)),
        ),
    decreases n,
{
    let init = PatchState { lines, used: Seq::empty(), removed: Seq::empty() };
    if n == 0 {
        assert(items.take(0) =~= Seq::<SyncItemModel>::empty());
        assert(patch_lines(init, items.take(0)) == init);
        assert forall|idx: int| !(#[trigger] init.used.contains(idx)) by {}
        assert forall|idx: int| !(#[trigger] init.removed.contains(idx)) by {}
    } else {
        lemma_patch_inv(lines, items, n - 1);
        let st = patch_lines(init, items.take(n - 1));
        assert(items.take(n).drop_last() =~= items.take(n - 1));
        assert(items.take(n).last() == items[n - 1]);
        let it = items[n - 1];
        let st2 = apply_item_to_lines(st, it);
        assert(patch_lines(init, items.take(n)) == st2);
        assert(it.text.len() > 0 && !is_space(it.text.last()));
        match spec_find_line(st.lines, st.used, it.text, 0) {
            Some(idx) => {
                lemma_find_some(st.lines, st.used, it.text, 0, idx);
                assert(line_matches(st.lines[idx], it.text));
                if it.resolution == SyncResolution::Remove {
                    lemma_step_remove_found(lines, items, n, st, st2, idx);
                } else {
                    lemma_step_rewrite(lines, items, n, st, st2, idx);
                }
            },
            None => {
                lemma_find_none(st.lines, st.used, it.text, 0);
                if it.resolution == SyncResolution::Remove {
                    lemma_step_remove_missing(lines, items, n, st, st2);
                } else {
                    lemma_step_append(lines, items, n, st, st2);
                }
            },
        }
    }
}

/// Step case: the item's text was found and the line is rewritten in place.
proof fn lemma_step_rewrite(
    lines: Seq<Seq<char>>,
    items: Seq<SyncItemModel>,
    n: int,
    st: PatchState,
    st2: PatchState,
    idx: int,
)
    requires
        0 < n <= items.len(),
        distinct_texts(items),
        writable_texts(items),
        patch_inv(lines, items, n - 1, st),
        items[n - 1].resolution != SyncResolution::Remove,
        spec_find_line(st.lines, st.used, items[n - 1].text, 0) == Some(idx),
        st2 == apply_item_to_lines(st, items[n - 1]),
    ensures
        patch_inv(lines, items, n, st2),
{
    let it = items[n - 1];
    lemma_find_some(st.lines, st.used, it.text, 0, idx);
    let complete = it.resolution == SyncResolution::Complete;
    let newline = rewritten_line(st.lines[idx], it.text, complete);
    assert(st2.lines == st.lines.update(idx, newline));
    assert(st2.used == st.used.push(idx));
    assert(st2.removed == st.removed);

    lemma_leading_ws(st.lines[idx]);
    assert forall|k: int|
        0 <= k < indent_of(st.lines[idx]).len() implies is_space(
        #[trigger] indent_of(st.lines[idx])[k],
    ) by {
        assert(indent_of(st.lines[idx])[k] == st.lines[idx][k]);
    }
    lemma_written_line_parses(indent_of(st.lines[idx]), it.text, complete);
    assert(marker_ok(newline, it));
    assert(is_task_line(newline) && task_text(newline) == it.text);

    // origin of every line
    assert forall|jdx: int|
        #![trigger st2.lines[jdx]]
        0 <= jdx < st2.lines.len() implies ((jdx < lines.len() && st2.lines[jdx] == lines[jdx])
        || from_item(st2.lines[jdx], items, n)) by {
        if jdx == idx {
            assert(is_task_line(st2.lines[jdx]) && task_text(st2.lines[jdx]) == items[n - 1].text);
            assert(from_item(st2.lines[jdx], items, n));
        } else {
            assert(st2.lines[jdx] == st.lines[jdx]);
            if !(jdx < lines.len() && st.lines[jdx] == lines[jdx]) {
                let b = choose|b: int|
                    0 <= b < n - 1 && is_task_line(st.lines[jdx]) && task_text(st.lines[jdx]) == (
                    #[trigger] items[b]).text;
                assert(from_item(st2.lines[jdx], items, n));
            }
        }
    }
    // used lines carry item texts
    assert forall|jdx: int| #[trigger]
        st2.used.contains(jdx) implies 0 <= jdx < st2.lines.len() && from_item(
        st2.lines[jdx],
        items,
        n,
    ) by {
        lemma_push_contains(st.used, idx, jdx);
        if jdx == idx {
            assert(from_item(st2.lines[idx], items, n));
        } else {
            assert(st.used.contains(jdx));
            assert(st2.lines[jdx] == st.lines[jdx]);
            let b = choose|b: int|
                0 <= b < n - 1 && is_task_line(st.lines[jdx]) && task_text(st.lines[jdx]) == (
                #[trigger] items[b]).text;
            assert(from_item(st2.lines[jdx], items, n));
        }
    }
    // removed still within used
    assert forall|jdx: int| #[trigger] st2.removed.contains(jdx) implies st2.used.contains(jdx) by {
        lemma_push_contains(st.used, idx, jdx);
    }
    // claims of every processed item
    assert forall|a: int| 0 <= a < n implies (if (#[trigger] items[a]).resolution
        == SyncResolution::Remove {
        no_unremoved_match(st2, items[a].text)
    } else {
        has_surviving_line(st2, items[a])
    }) by {
        if a == n - 1 {
            assert(!st.removed.contains(idx));
            assert(marker_ok(st2.lines[idx], it));
            assert(has_surviving_line(st2, it));
        } else if items[a].resolution == SyncResolution::Remove {
            assert(items[a].text != it.text);
            assert forall|jdx: int|
                0 <= jdx < st2.lines.len() && !st2.removed.contains(jdx) implies !line_matches(
                #[trigger] st2.lines[jdx],
                items[a].text,
            ) by {
                if jdx == idx {
                    assert(task_text(st2.lines[idx]) == it.text);
                } else {
                    assert(st2.lines[jdx] == st.lines[jdx]);
                }
            }
        } else {
            let jdx = choose|jdx: int|
                0 <= jdx < st.lines.len() && !st.removed.contains(jdx) && marker_ok(
                    #[trigger] st.lines[jdx],
                    items[a],
                );
            if jdx == idx {
                assert(task_text(st.lines[idx]) == items[a].text);
                assert(task_text(st.lines[idx]) == it.text);
                assert(false);
            }
            assert(st2.lines[jdx] == st.lines[jdx]);
            assert(marker_ok(st2.lines[jdx], items[a]));
            assert(has_surviving_line(st2, items[a]));
        }
    }
}

/// Step case: a removal found its line; the line is marked for deletion.
proof fn lemma_step_remove_found(
    lines: Seq<Seq<char>>,
    items: Seq<SyncItemModel>,
    n: int,
    st: PatchState,
    st2: PatchState,
    idx: int,
)
    requires
        0 < n <= items.len(),
        distinct_texts(items),
        writable_texts(items),
        removes_single_match(lines, items),
        patch_inv(lines, items, n - 1, st),
        items[n - 1].resolution == SyncResolution::Remove,
        spec_find_line(st.lines, st.used, items[n - 1].text, 0) == Some(idx),
        st2 == apply_item_to_lines(st, items[n - 1]),
    ensures
        patch_inv(lines, items, n, st2),
{
    let it = items[n - 1];
    lemma_find_some(st.lines, st.used, it.text, 0, idx);
    assert(st2.lines == st.lines);
    assert(st2.used == st.used.push(idx));
    assert(st2.removed == st.removed.push(idx));

    // the found line is an untouched original line
    assert(line_matches(st.lines[idx], it.text));
    if !(idx < lines.len() && st.lines[idx] == lines[idx]) {
        let b = choose|b: int|
            0 <= b < n - 1 && is_task_line(st.lines[idx]) && task_text(st.lines[idx]) == (
            #[trigger] items[b]).text;
        assert(items[b].text == it.text);
        assert(false);
    }

    assert forall|jdx: int|
        #![trigger st2.lines[jdx]]
        0 <= jdx < st2.lines.len() implies ((jdx < lines.len() && st2.lines[jdx] == lines[jdx])
        || from_item(st2.lines[jdx], items, n)) by {
        if !(jdx < lines.len() && st.lines[jdx] == lines[jdx]) {
            let b = choose|b: int|
                0 <= b < n - 1 && is_task_line(st.lines[jdx]) && task_text(st.lines[jdx]) == (
                #[trigger] items[b]).text;
            assert(from_item(st2.lines[jdx], items, n));
        }
    }
    assert forall|jdx: int| #[trigger]
        st2.used.contains(jdx) implies 0 <= jdx < st2.lines.len() && from_item(
        st2.lines[jdx],
        items,
        n,
    ) by {
        lemma_push_contains(st.used, idx, jdx);
        if jdx == idx {
            assert(is_task_line(st.lines[idx]) && task_text(st.lines[idx]) == items[n - 1].text);
            assert(from_item(st2.lines[idx], items, n));
        } else {
            assert(st.used.contains(jdx));
            let b = choose|b: int|
                0 <= b < n - 1 && is_task_line(st.lines[jdx]) && task_text(st.lines[jdx]) == (
                #[trigger] items[b]).text;
            assert(from_item(st2.lines[jdx], items, n));
        }
    }
    assert forall|jdx: int| #[trigger] st2.removed.contains(jdx) implies st2.used.contains(jdx) by {
        lemma_push_contains(st.removed, idx, jdx);
        lemma_push_contains(st.used, idx, jdx);
    }
    assert forall|a: int| 0 <= a < n implies (if (#[trigger] items[a]).resolution
        == SyncResolution::Remove {
        no_unremoved_match(st2, items[a].text)
    } else {
        has_surviving_line(st2, items[a])
    }) by {
        if a == n - 1 {
            assert forall|jdx: int|
                0 <= jdx < st2.lines.len() && !st2.removed.contains(jdx) implies !line_matches(
                #[trigger] st2.lines[jdx],
                it.text,
            ) by {
                lemma_push_contains(st.removed, idx, jdx);
                if line_matches(st.lines[jdx], it.text) {
                    assert(jdx != idx);
                    if !(jdx < lines.len() && st.lines[jdx] == lines[jdx]) {
                        let b = choose|b: int|
                            0 <= b < n - 1 && is_task_line(st.lines[jdx]) && task_text(
                                st.lines[jdx],
                            ) == (#[trigger] items[b]).text;
                        assert(items[b].text == it.text);
                        assert(false);
                    }
                    assert(line_matches(lines[jdx], it.text));
                    assert(line_matches(lines[idx], it.text));
                    assert(jdx == idx);
                }
            }
        } else if items[a].resolution == SyncResolution::Remove {
            assert forall|jdx: int|
                0 <= jdx < st2.lines.len() && !st2.removed.contains(jdx) implies !line_matches(
                #[trigger] st2.lines[jdx],
                items[a].text,
            ) by {
                lemma_push_contains(st.removed, idx, jdx);
            }
        } else {
            let jdx = choose|jdx: int|
                0 <= jdx < st.lines.len() && !st.removed.contains(jdx) && marker_ok(
                    #[trigger] st.lines[jdx],
                    items[a],
                );
            if jdx == idx {
                assert(task_text(st.lines[idx]) == items[a].text);
                assert(false);
            }
            lemma_push_contains(st.removed, idx, jdx);
            assert(!st2.removed.contains(jdx));
            assert(has_surviving_line(st2, items[a]));
        }
    }
}

/// Step case: no line matches and a new checklist line is appended.
proof fn lemma_step_append(
    lines: Seq<Seq<char>>,
    items: Seq<SyncItemModel>,
    n: int,
    st: PatchState,
    st2: PatchState,
)
    requires
        0 < n <= items.len(),
        distinct_texts(items),
        writable_texts(items),
        patch_inv(lines, items, n - 1, st),
        items[n - 1].resolution != SyncResolution::Remove,
        spec_find_line(st.lines, st.used, items[n - 1].text, 0) is None,
        st2 == apply_item_to_lines(st, items[n - 1]),
    ensures
        patch_inv(lines, items, n, st2),
{
    let it = items[n - 1];
    let complete = it.resolution == SyncResolution::Complete;
    let m = if complete {
        marker_complete(false)
    } else {
        marker_incomplete()
    };
    let newline = m + it.text;
    assert(st2.lines =~= st.lines.push(newline));
    assert(st2.used == st.used);
    assert(st2.removed == st.removed);
    let newidx = st.lines.len() as int;

    lemma_written_line_parses(Seq::empty(), it.text, complete);
    assert(Seq::empty() + m + it.text =~= newline);
    assert(marker_ok(newline, it));

    assert forall|jdx: int|
        #![trigger st2.lines[jdx]]
        0 <= jdx < st2.lines.len() implies ((jdx < lines.len() && st2.lines[jdx] == lines[jdx])
        || from_item(st2.lines[jdx], items, n)) by {
        if jdx == newidx {
            assert(from_item(newline, items, n));
        } else {
            assert(st2.lines[jdx] == st.lines[jdx]);
            if !(jdx < lines.len() && st.lines[jdx] == lines[jdx]) {
                let b = choose|b: int|
                    0 <= b < n - 1 && is_task_line(st.lines[jdx]) && task_text(st.lines[jdx]) == (
                    #[trigger] items[b]).text;
                assert(from_item(st2.lines[jdx], items, n));
            }
        }
    }
    assert forall|jdx: int| #[trigger]
        st2.used.contains(jdx) implies 0 <= jdx < st2.lines.len() && from_item(
        st2.lines[jdx],
        items,
        n,
    ) by {
        assert(st.used.contains(jdx));
        assert(jdx < st.lines.len());
        assert(st2.lines[jdx] == st.lines[jdx]);
        let b = choose|b: int|
            0 <= b < n - 1 && is_task_line(st.lines[jdx]) && task_text(st.lines[jdx]) == (
            #[trigger] items[b]).text;
        assert(from_item(st2.lines[jdx], items, n));
    }
    assert forall|a: int| 0 <= a < n implies (if (#[trigger] items[a]).resolution
        == SyncResolution::Remove {
        no_unremoved_match(st2, items[a].text)
    } else {
        has_surviving_line(st2, items[a])
    }) by {
        if a == n - 1 {
            if st.removed.contains(newidx) {
                assert(st.used.contains(newidx));
                assert(false);
            }
            assert(marker_ok(st2.lines[newidx], it));
            assert(has_surviving_line(st2, it));
        } else if items[a].resolution == SyncResolution::Remove {
            assert forall|jdx: int|
                0 <= jdx < st2.lines.len() && !st2.removed.contains(jdx) implies !line_matches(
                #[trigger] st2.lines[jdx],
                items[a].text,
            ) by {
                if jdx == newidx {
                    assert(task_text(newline) == it.text);
                    assert(items[a].text != it.text);
                } else {
                    assert(st2.lines[jdx] == st.lines[jdx]);
                }
            }
        } else {
            let jdx = choose|jdx: int|
                0 <= jdx < st.lines.len() && !st.removed.contains(jdx) && marker_ok(
                    #[trigger] st.lines[jdx],
                    items[a],
                );
            assert(st2.lines[jdx] == st.lines[jdx]);
            assert(has_surviving_line(st2, items[a]));
        }
    }
}

/// Step case: a removal with nothing left to remove changes nothing.
proof fn lemma_step_remove_missing(
    lines: Seq<Seq<char>>,
    items: Seq<SyncItemModel>,
    n: int,
    st: PatchState,
    st2: PatchState,
)
    requires
        0 < n <= items.len(),
        distinct_texts(items),
        writable_texts(items),
        patch_inv(lines, items, n - 1, st),
        items[n - 1].resolution == SyncResolution::Remove,
        spec_find_line(st.lines, st.used, items[n - 1].text, 0) is None,
        st2 == apply_item_to_lines(st, items[n - 1]),
    ensures
        patch_inv(lines, items, n, st2),
{
    let it = items[n - 1];
    lemma_find_none(st.lines, st.used, it.text, 0);
    assert(st2 == st);
    assert forall|jdx: int|
        #![trigger st2.lines[jdx]]
        0 <= jdx < st2.lines.len() implies ((jdx < lines.len() && st2.lines[jdx] == lines[jdx])
        || from_item(st2.lines[jdx], items, n)) by {
        if !(jdx < lines.len() && st.lines[jdx] == lines[jdx]) {
            let b = choose|b: int|
                0 <= b < n - 1 && is_task_line(st.lines[jdx]) && task_text(st.lines[jdx]) == (
                #[trigger] items[b]).text;
            assert(from_item(st2.lines[jdx], items, n));
        }
    }
    assert forall|jdx: int| #[trigger]
        st2.used.contains(jdx) implies 0 <= jdx < st2.lines.len() && from_item(
        st2.lines[jdx],
        items,
        n,
    ) by {
        let b = choose|b: int|
            0 <= b < n - 1 && is_task_line(st.lines[jdx]) && task_text(st.lines[jdx]) == (
            #[trigger] items[b]).text;
        assert(from_item(st2.lines[jdx], items, n));
    }
    assert forall|a: int| 0 <= a < n implies (if (#[trigger] items[a]).resolution
        == SyncResolution::Remove {
        no_unremoved_match(st2, items[a].text)
    } else {
        has_surviving_line(st2, items[a])
    }) by {
        if a == n - 1 {
            assert forall|jdx: int|
                0 <= jdx < st2.lines.len() && !st2.removed.contains(jdx) implies !line_matches(
                #[trigger] st2.lines[jdx],
                it.text,
            ) by {
                if line_matches(st.lines[jdx], it.text) {
                    assert(st.used.contains(jdx) || !line_matches(st.lines[jdx], it.text));
                    assert(st.used.contains(jdx));
                    let b = choose|b: int|
                        0 <= b < n - 1 && is_task_line(st.lines[jdx]) && task_text(st.lines[jdx])
                            == (#[trigger] items[b]).text;
                    assert(items[b].text == it.text);
                    assert(false);
                }
            }
        } else if items[a].resolution != SyncResolution::Remove {
            let jdx = choose|jdx: int|
                0 <= jdx < st.lines.len() && !st.removed.contains(jdx) && marker_ok(
                    #[trigger] st.lines[jdx],
                    items[a],
                );
            assert(has_surviving_line(st2, items[a]));
        }
    }
}

/// Every line not marked for deletion survives into the result.
proof fn lemma_remove_marked_keeps(lines: Seq<Seq<char>>, removed: Seq<int>, idx: int)
    requires
        0 <= idx < lines.len(),
        !removed.contains(idx),
    ensures
        remove_marked(lines, removed).contains(lines[idx]),
    decreases lines.len(),
{
    let rest = remove_marked(lines.drop_last(), removed);
    if idx == lines.len() - 1 {
        lemma_push_contains(rest, lines.last(), lines[idx]);
    } else {
        assert(lines.drop_last()[idx] == lines[idx]);
        lemma_remove_marked_keeps(lines.drop_last(), removed, idx);
        if !removed.contains(lines.len() - 1) {
            lemma_push_contains(rest, lines.last(), lines[idx]);
        }
    }
}

/// Every line of the result is an original line that escaped deletion.
proof fn lemma_remove_marked_source(lines: Seq<Seq<char>>, removed: Seq<int>, k: int)
    requires
        0 <= k < remove_marked(lines, removed).len(),
    ensures
        exists|idx: int|
            0 <= idx < lines.len() && !removed.contains(idx) && remove_marked(lines, removed)[k]
                == #[trigger] lines[idx],
    decreases lines.len(),
{
    let rest = remove_marked(lines.drop_last(), removed);
    if removed.contains(lines.len() - 1) {
        lemma_remove_marked_source(lines.drop_last(), removed, k);
        let idx = choose|idx: int|
            0 <= idx < lines.drop_last().len() && !removed.contains(idx) && rest[k] == #[trigger] lines.drop_last()[idx];
        assert(remove_marked(lines, removed)[k] == lines[idx]);
    } else {
        if k < rest.len() {
            lemma_remove_marked_source(lines.drop_last(), removed, k);
            let idx = choose|idx: int|
                0 <= idx < lines.drop_last().len() && !removed.contains(idx) && rest[k]
                    == #[trigger] lines.drop_last()[idx];
            assert(remove_marked(lines, removed)[k] == lines[idx]);
        } else {
            assert(remove_marked(lines, removed)[k] == lines[lines.len() - 1]);
        }
    }
}

/// A text is in the parsed incomplete list exactly when some line carries it
/// under the incomplete marker.
proof fn lemma_parse_incomplete_contains(lines: Seq<Seq<char>>, t: Seq<char>)
    ensures
        parse_incomplete(lines).contains(t) <==> (t.len() > 0 && exists|k: int|
            0 <= k < lines.len() && is_incomplete_line(#[trigger] lines[k]) && task_text(lines[k])
                == t),
    decreases lines.len(),
{
    if lines.len() > 0 {
        lemma_parse_incomplete_contains(lines.drop_last(), t);
        let rest = parse_incomplete(lines.drop_last());
        let l = lines.last();
        if is_incomplete_line(l) && task_text(l).len() > 0 {
            lemma_push_contains(rest, task_text(l), t);
        }
        if parse_incomplete(lines).contains(t) {
            if rest.contains(t) {
                let k = choose|k: int|
                    0 <= k < lines.drop_last().len() && is_incomplete_line(
                        #[trigger] lines.drop_last()[k],
                    ) && task_text(lines.drop_last()[k]) == t;
                assert(lines[k] == lines.drop_last()[k]);
                assert(is_incomplete_line(lines[k]) && task_text(lines[k]) == t);
            } else {
                assert(is_incomplete_line(lines[lines.len() - 1]) && task_text(
                    lines[lines.len() - 1],
                ) == t);
            }
        }
        if t.len() > 0 && (exists|k: int|
            0 <= k < lines.len() && is_incomplete_line(#[trigger] lines[k]) && task_text(lines[k])
                == t) {
            let k = choose|k: int|
                0 <= k < lines.len() && is_incomplete_line(#[trigger] lines[k]) && task_text(
                    lines[k],
                ) == t;
            if k < lines.len() - 1 {
                assert(lines.drop_last()[k] == lines[k]);
                assert(rest.contains(t));
            }
            assert(parse_incomplete(lines).contains(t));
        }
    }
}

/// A text is in the parsed complete list exactly when some line carries it
/// under a complete marker.
proof fn lemma_parse_complete_contains(lines: Seq<Seq<char>>, t: Seq<char>)
    ensures
        parse_complete(lines).contains(t) <==> (t.len() > 0 && exists|k: int|
            0 <= k < lines.len() && is_complete_line(#[trigger] lines[k]) && task_text(lines[k])
                == t),
    decreases lines.len(),
{
    if lines.len() > 0 {
        lemma_parse_complete_contains(lines.drop_last(), t);
        let rest = parse_complete(lines.drop_last());
        let l = lines.last();
        if is_complete_line(l) && task_text(l).len() > 0 {
            lemma_push_contains(rest, task_text(l), t);
        }
        if parse_complete(lines).contains(t) {
            if rest.contains(t) {
                let k = choose|k: int|
                    0 <= k < lines.drop_last().len() && is_complete_line(
                        #[trigger] lines.drop_last()[k],
                    ) && task_text(lines.drop_last()[k]) == t;
                assert(lines[k] == lines.drop_last()[k]);
                assert(is_complete_line(lines[k]) && task_text(lines[k]) == t);
            } else {
                assert(is_complete_line(lines[lines.len() - 1]) && task_text(lines[lines.len() - 1])
                    == t);
            }
        }
        if t.len() > 0 && (exists|k: int|
            0 <= k < lines.len() && is_complete_line(#[trigger] lines[k]) && task_text(lines[k])
                == t) {
            let k = choose|k: int|
                0 <= k < lines.len() && is_complete_line(#[trigger] lines[k]) && task_text(
                    lines[k],
                ) == t;
            if k < lines.len() - 1 {
                assert(lines.drop_last()[k] == lines[k]);
                assert(rest.contains(t));
            }
            assert(parse_complete(lines).contains(t));
        }
    }
}

/// Round trip: after a sync is applied, re-parsing the file shows every
/// item under the marker its resolution asked for, and a removed text under
/// none.  The items must have distinct, non-empty texts without trailing
/// whitespace, and a removal's text may match at most one line of the file.
pub proof fn lemma_write_sync_round_trip(
    lines: Seq<Seq<char>>,
    items: Seq<SyncItemModel>,
    a: int,
)
    requires
        distinct_texts(items),
        writable_texts(items),
        removes_single_match(lines, items),
        0 <= a < items.len(),
    ensures
        items[a].resolution == SyncResolution::Incomplete ==> parse_incomplete(
            spec_write_sync(lines, items),
        ).contains(items[a].text),
        items[a].resolution == SyncResolution::Complete ==> parse_complete(
            spec_write_sync(lines, items),
        ).contains(items[a].text),
        items[a].resolution == SyncResolution::Remove ==> !parse_incomplete(
            spec_write_sync(lines, items),
        ).contains(items[a].text) && !parse_complete(spec_write_sync(lines, items)).contains(
            items[a].text,
        ),
{
    let init = PatchState { lines, used: Seq::empty(), removed: Seq::empty() };
    lemma_patch_inv(lines, items, items.len() as int);
    assert(items.take(items.len() as int) =~= items);
    let st = patch_lines(init, items);
    assert(patch_inv(lines, items, items.len() as int, st));
    let result = remove_marked(st.lines, st.removed);
    assert(spec_write_sync(lines, items) == result);
    let it = items[a];
    lemma_parse_incomplete_contains(result, it.text);
    lemma_parse_complete_contains(result, it.text);
    if it.resolution == SyncResolution::Remove {
        assert(no_unremoved_match(st, it.text));
        if parse_incomplete(result).contains(it.text) || parse_complete(result).contains(it.text) {
            let k = choose|k: int|
                0 <= k < result.len() && is_task_line(#[trigger] result[k]) && task_text(result[k])
                    == it.text;
            lemma_remove_marked_source(st.lines, st.removed, k);
            let idx = choose|idx: int|
                0 <= idx < st.lines.len() && !st.removed.contains(idx) && result[k]
                    == #[trigger] st.lines[idx];
            assert(line_matches(st.lines[idx], it.text));
            assert(false);
        }
    } else {
        assert(has_surviving_line(st, it));
        let idx = choose|idx: int|
            0 <= idx < st.lines.len() && !st.removed.contains(idx) && marker_ok(
                #[trigger] st.lines[idx],
                it,
            );
        lemma_remove_marked_keeps(st.lines, st.removed, idx);
        let k = choose|k: int| 0 <= k < result.len() && result[k] == st.lines[idx];
        if it.resolution == SyncResolution::Incomplete {
            assert(is_incomplete_line(result[k]) && task_text(result[k]) == it.text);
        } else {
            assert(is_complete_line(result[k]) && task_text(result[k]) == it.text);
        }
    }
}

proof fn lemma_as_ints_push(v: Seq<usize>, x: usize)
    ensures
        as_ints(v.push(x)) == as_ints(v).push(x as int),
{
    assert(as_ints(v.push(x)) =~= as_ints(v).push(x as int));
}

proof fn lemma_char_lines_update(v: Seq<String>, i: int, s: String)
    requires
        0 <= i < v.len(),
    ensures
        char_lines(v.update(i, s)) == char_lines(v).update(i, s@),
{
    assert(char_lines(v.update(i, s)) =~= char_lines(v).update(i, s@));
}

impl TaskFile {
    /// Replace the line at `idx` (a task line) with the same indentation,
    /// the marker for `complete`, and `text`.
    fn rewrite_line(&mut self, idx: usize, text: &String, complete: bool)
        requires
            idx < old(self).lines@.len(),
            is_task_line(old(self).lines@[idx as int]@),
        ensures
            char_lines(final(self).lines@) == char_lines(old(self).lines@).update(
                idx as int,
                rewritten_line(old(self).lines@[idx as int]@, text@, complete),
            ),
    {
        let start = match classify_line(self.lines[idx].as_str()) {
            LineShape::Task { complete: _, start, end: _ } => start,
            LineShape::Plain => vstd::pervasive::unreached(),
        };
        let mut new_line = self.lines[idx].as_str().substring_char(0, start).to_owned();
        if complete {
            new_line.append("- [x] ");
        } else {
            new_line.append("- [ ] ");
        }
        new_line.append(text.as_str());
        proof {
            reveal_strlit("- [x] ");
            reveal_strlit("- [ ] ");
            assert("- [x] "@ =~= marker_complete(false));
            assert("- [ ] "@ =~= marker_incomplete());
            assert(new_line@ =~= rewritten_line(old(self).lines@[idx as int]@, text@, complete));
        }
        let ghost nl = new_line@;
        let _old_line = self.lines.remove(idx);
        self.lines.insert(idx, new_line);
        proof {
            assert(self.lines@[idx as int]@ == nl);
            assert(self.lines@ =~= old(self).lines@.update(idx as int, self.lines@[idx as int]));
            lemma_char_lines_update(old(self).lines@, idx as int, self.lines@[idx as int]);
        }
    }

    /// Apply resolved sync items to the held lines: rewrite or delete the
    /// first unconsumed matching line of each item, appending a new line
    /// where none matches, then drop the lines marked for deletion.
    /// Passthrough lines and indentation survive untouched.
    pub fn write_sync(&mut self, items: &Vec<SyncItem>)
        ensures
            char_lines(final(self).lines@) == spec_write_sync(
                char_lines(old(self).lines@),
                models(items@),
            ),
    {
        let ghost init = PatchState {
            lines: char_lines(old(self).lines@),
            used: Seq::empty(),
            removed: Seq::empty(),
        };
        let mut used: Vec<usize> = Vec::new();
        let mut to_remove: Vec<usize> = Vec::new();
        proof {
            assert(models(items@).take(0) =~= Seq::<SyncItemModel>::empty());
            assert(as_ints(used@) =~= Seq::<int>::empty());
            assert(as_ints(to_remove@) =~= Seq::<int>::empty());
        }
        let mut i: usize = 0;
        while i < items.len()
            invariant
                i <= items@.len(),
                init == (PatchState {
                    lines: char_lines(old(self).lines@),
                    used: Seq::<int>::empty(),
                    removed: Seq::<int>::empty(),
                }),
                patch_lines(init, models(items@).take(i as int)) == (PatchState {
                    lines: char_lines(self.lines@),
                    used: as_ints(used@),
                    removed: as_ints(to_remove@),
                }),
            decreases items@.len() - i,
        {
            let ghost st = patch_lines(init, models(items@).take(i as int));
            proof {
                assert(models(items@).take(i + 1).drop_last() =~= models(items@).take(i as int));
                assert(models(items@).take(i + 1).last() == items@[i as int]@);
            }
            let item = &items[i];
            let found = find_line_index(item.text.as_str(), &self.lines, &used);
            match found {
                Some(idx) => {
                    proof {
                        lemma_find_some(
                            char_lines(self.lines@),
                            as_ints(used@),
                            item.text@,
                            0,
                            idx as int,
                        );
                        lemma_as_ints_push(used@, idx);
                    }
                    match item.resolution {
                        SyncResolution::Incomplete => {
                            self.rewrite_line(idx, &item.text, false);
                        },
                        SyncResolution::Complete => {
                            self.rewrite_line(idx, &item.text, true);
                        },
                        SyncResolution::Remove => {
                            proof {
                                lemma_as_ints_push(to_remove@, idx);
                            }
                            to_remove.push(idx);
                        },
                    }
                    used.push(idx);
                },
                None => {
                    match item.resolution {
                        SyncResolution::Incomplete => {
                            let mut new_line = String::from_str("- [ ] ");
                            new_line.append(item.text.as_str());
                            proof {
                                reveal_strlit("- [ ] ");
                                assert("- [ ] "@ =~= marker_incomplete());
                                assert(new_line@ =~= marker_incomplete() + item.text@);
                                lemma_char_lines_push(self.lines@, new_line);
                            }
                            self.lines.push(new_line);
                        },
                        SyncResolution::Complete => {
                            let mut new_line = String::from_str("- [x] ");
                            new_line.append(item.text.as_str());
                            proof {
                                reveal_strlit("- [x] ");
                                assert("- [x] "@ =~= marker_complete(false));
                                assert(new_line@ =~= marker_complete(false) + item.text@);
                                lemma_char_lines_push(self.lines@, new_line);
                            }
                            self.lines.push(new_line);
                        },
                        SyncResolution::Remove => {},
                    }
                },
            }
            i = i + 1;
        }
        proof {
            assert(models(items@).take(items@.len() as int) =~= models(items@));
        }
        let ghost patched = char_lines(self.lines@);
        let mut kept: Vec<String> = Vec::new();
        proof {
            assert(char_lines(kept@) =~= Seq::<Seq<char>>::empty());
            assert(patched.take(0) =~= Seq::<Seq<char>>::empty());
        }
        let mut j: usize = 0;
        while j < self.lines.len()
            invariant
                j <= self.lines@.len(),
                patched == char_lines(self.lines@),
                char_lines(kept@) == remove_marked(patched.take(j as int), as_ints(to_remove@)),
            decreases self.lines@.len() - j,
        {
            proof {
                assert(patched.take(j + 1).drop_last() =~= patched.take(j as int));
                assert(patched.take(j + 1).last() == self.lines@[j as int]@);
                lemma_as_ints_contains(to_remove@, j);
            }
            if !contains_usize(&to_remove, j) {
                let s = self.lines[j].clone();
                proof {
                    lemma_char_lines_push(kept@, s);
                }
                kept.push(s);
            }
            j = j + 1;
        }
        proof {
            assert(patched.take(patched.len() as int) =~= patched);
        }
        self.lines = kept;
    }
}

} // verus!
