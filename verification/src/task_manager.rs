use vstd::prelude::*;

use crate::checklist::{
    char_lines, lemma_char_lines_push, parse_complete, parse_incomplete, parse_task_lines,
    spec_write_sync, TaskFile,
};
use crate::sync::{lemma_models_push, models, SyncItem, SyncItemModel, SyncResolution};
use crate::task::{texts_of, Task, TaskSection};

verus! {

/// Model of the task store: the task texts of each section, in order.
pub struct StoreModel {
    pub backlog: Seq<Seq<char>>,
    pub current: Seq<Seq<char>>,
    pub completed: Seq<Seq<char>>,
}

impl StoreModel {
    pub open spec fn section(self, s: TaskSection) -> Seq<Seq<char>> {
        match s {
            TaskSection::Backlog => self.backlog,
            TaskSection::Current => self.current,
            TaskSection::Completed => self.completed,
        }
    }

    pub open spec fn with_section(self, s: TaskSection, v: Seq<Seq<char>>) -> StoreModel {
        match s {
            TaskSection::Backlog => StoreModel { backlog: v, ..self },
            TaskSection::Current => StoreModel { current: v, ..self },
            TaskSection::Completed => StoreModel { completed: v, ..self },
        }
    }
}

/// Append a task text to a section.
pub open spec fn spec_add(m: StoreModel, text: Seq<char>, s: TaskSection) -> StoreModel {
    m.with_section(s, m.section(s).push(text))
}

/// Delete the task at `i`; out-of-bounds indices leave the store unchanged.
pub open spec fn spec_delete(m: StoreModel, s: TaskSection, i: int) -> StoreModel {
    if 0 <= i < m.section(s).len() {
        m.with_section(s, m.section(s).remove(i))
    } else {
        m
    }
}

/// Swap the tasks at `i` and `i + 1`; a no-op at the boundary.
pub open spec fn spec_reorder_down(m: StoreModel, s: TaskSection, i: int) -> StoreModel {
    if 0 <= i && i + 1 < m.section(s).len() {
        let v = m.section(s);
        m.with_section(s, v.update(i, v[i + 1]).update(i + 1, v[i]))
    } else {
        m
    }
}

/// Swap the tasks at `i - 1` and `i`; a no-op at the boundary.
pub open spec fn spec_reorder_up(m: StoreModel, s: TaskSection, i: int) -> StoreModel {
    if 0 < i < m.section(s).len() {
        let v = m.section(s);
        m.with_section(s, v.update((i - 1) as int, v[i]).update(i, v[i - 1]))
    } else {
        m
    }
}

/// Move the task at `i` between backlog and current; completed tasks and
/// out-of-bounds indices are left alone.
pub open spec fn spec_cycle(m: StoreModel, s: TaskSection, i: int) -> StoreModel {
    match s {
        TaskSection::Backlog => if 0 <= i < m.backlog.len() {
            StoreModel {
                backlog: m.backlog.remove(i),
                current: m.current.push(m.backlog[i]),
                ..m
            }
        } else {
            m
        },
        TaskSection::Current => if 0 <= i < m.current.len() {
            StoreModel {
                backlog: m.backlog.push(m.current[i]),
                current: m.current.remove(i),
                ..m
            }
        } else {
            m
        },
        TaskSection::Completed => m,
    }
}

/// Complete the task at `i` of current, or send the task at `i` of completed
/// back to the backlog; backlog tasks and out-of-bounds indices are left
/// alone.
pub open spec fn spec_toggle_completion(m: StoreModel, s: TaskSection, i: int) -> StoreModel {
    match s {
        TaskSection::Current => if 0 <= i < m.current.len() {
            StoreModel {
                current: m.current.remove(i),
                completed: m.completed.push(m.current[i]),
                ..m
            }
        } else {
            m
        },
        TaskSection::Completed => if 0 <= i < m.completed.len() {
            StoreModel {
                backlog: m.backlog.push(m.completed[i]),
                completed: m.completed.remove(i),
                ..m
            }
        } else {
            m
        },
        TaskSection::Backlog => m,
    }
}

/// Complete the head of the current section, if any.
pub open spec fn spec_complete_current(m: StoreModel) -> StoreModel {
    if m.current.len() > 0 {
        StoreModel {
            current: m.current.remove(0),
            completed: m.completed.push(m.current[0]),
            ..m
        }
    } else {
        m
    }
}

proof fn lemma_texts_push(ts: Seq<Task>, t: Task)
    ensures
        texts_of(ts.push(t)) == texts_of(ts).push(t.text@),
{
    assert(texts_of(ts.push(t)) =~= texts_of(ts).push(t.text@));
}

proof fn lemma_texts_remove(ts: Seq<Task>, i: int)
    requires
        0 <= i < ts.len(),
    ensures
        texts_of(ts.remove(i)) == texts_of(ts).remove(i),
{
    assert(texts_of(ts.remove(i)) =~= texts_of(ts).remove(i));
}

proof fn lemma_texts_update(ts: Seq<Task>, i: int, t: Task)
    requires
        0 <= i < ts.len(),
    ensures
        texts_of(ts.update(i, t)) == texts_of(ts).update(i, t.text@),
{
    assert(texts_of(ts.update(i, t)) =~= texts_of(ts).update(i, t.text@));
}

/// Tasks across three sections, with an optional in-memory image of the
/// checklist file they mirror.
pub struct TaskManager {
    pub file: Option<TaskFile>,
    pub backlog: Vec<Task>,
    pub current: Vec<Task>,
    pub completed: Vec<Task>,
}

impl TaskManager {
    /// The text-level model of the three sections.
    pub open spec fn store(self) -> StoreModel {
        StoreModel {
            backlog: texts_of(self.backlog@),
            current: texts_of(self.current@),
            completed: texts_of(self.completed@),
        }
    }

    pub fn new() -> (tm: TaskManager)
        ensures
            tm.file is None,
            tm.store().backlog.len() == 0,
            tm.store().current.len() == 0,
            tm.store().completed.len() == 0,
    {
        TaskManager { file: None, backlog: Vec::new(), current: Vec::new(), completed: Vec::new() }
    }

    pub fn add_task(&mut self, text: String, section: TaskSection)
        ensures
            final(self).store() == spec_add(old(self).store(), text@, section),
            final(self).file == old(self).file,
    {
        let t = Task::new(text);
        proof {
            lemma_texts_push(self.backlog@, t);
            lemma_texts_push(self.current@, t);
            lemma_texts_push(self.completed@, t);
        }
        match section {
            TaskSection::Backlog => self.backlog.push(t),
            TaskSection::Current => self.current.push(t),
            TaskSection::Completed => self.completed.push(t),
        }
    }

    pub fn backlog(&self) -> (r: &Vec<Task>)
        ensures
            r == &self.backlog,
    {
        &self.backlog
    }

    pub fn current(&self) -> (r: &Vec<Task>)
        ensures
            r == &self.current,
    {
        &self.current
    }

    pub fn completed(&self) -> (r: &Vec<Task>)
        ensures
            r == &self.completed,
    {
        &self.completed
    }

    pub fn has_file_path(&self) -> (b: bool)
        ensures
            b == (self.file is Some),
    {
        self.file.is_some()
    }

    /// The task shown as in progress: the head of the current section.
    pub fn active_task(&self) -> (r: Option<&Task>)
        ensures
            match r {
                Some(t) => self.current@.len() > 0 && *t == self.current@[0],
                None => self.current@.len() == 0,
            },
    {
        if self.current.len() > 0 {
            Some(&self.current[0])
        } else {
            None
        }
    }

    pub fn section_len(&self, section: TaskSection) -> (n: usize)
        ensures
            n == self.store().section(section).len(),
    {
        match section {
            TaskSection::Backlog => self.backlog.len(),
            TaskSection::Current => self.current.len(),
            TaskSection::Completed => self.completed.len(),
        }
    }

    fn section_tasks(&mut self, section: TaskSection) -> (r: &mut Vec<Task>)
        ensures
            *r == old(self).spec_section_tasks(section),
            *final(self) == old(self).spec_with_section_tasks(section, *final(r)),
    {
        match section {
            TaskSection::Backlog => &mut self.backlog,
            TaskSection::Current => &mut self.current,
            TaskSection::Completed => &mut self.completed,
        }
    }

    pub open spec fn spec_section_tasks(self, section: TaskSection) -> Vec<Task> {
        match section {
            TaskSection::Backlog => self.backlog,
            TaskSection::Current => self.current,
            TaskSection::Completed => self.completed,
        }
    }

    pub open spec fn spec_with_section_tasks(self, section: TaskSection, v: Vec<Task>) -> TaskManager {
        match section {
            TaskSection::Backlog => TaskManager { backlog: v, ..self },
            TaskSection::Current => TaskManager { current: v, ..self },
            TaskSection::Completed => TaskManager { completed: v, ..self },
        }
    }

    pub fn delete_task(&mut self, section: TaskSection, index: usize)
        ensures
            final(self).store() == spec_delete(old(self).store(), section, index as int),
            final(self).file == old(self).file,
    {
        let tasks = self.section_tasks(section);
        if index < tasks.len() {
            let _removed = tasks.remove(index);
            proof {
                lemma_texts_remove(old(self).spec_section_tasks(section)@, index as int);
            }
        }
    }

    pub fn reorder_down(&mut self, section: TaskSection, index: usize)
        ensures
            final(self).store() == spec_reorder_down(old(self).store(), section, index as int),
            final(self).file == old(self).file,
    {
        let tasks = self.section_tasks(section);
        if index < tasks.len() && index + 1 < tasks.len() {
            let ghost before = tasks@;
            let t = tasks.remove(index);
            tasks.insert(index + 1, t);
            proof {
                assert(tasks@ =~= before.update(index as int, before[index + 1]).update(
                    index + 1,
                    before[index as int],
                ));
                lemma_texts_update(before, index as int, before[index + 1]);
                lemma_texts_update(
                    before.update(index as int, before[index + 1]),
                    index + 1,
                    before[index as int],
                );
            }
        }
    }

    pub fn reorder_up(&mut self, section: TaskSection, index: usize)
        ensures
            final(self).store() == spec_reorder_up(old(self).store(), section, index as int),
            final(self).file == old(self).file,
    {
        let tasks = self.section_tasks(section);
        if index > 0 && index < tasks.len() {
            let ghost before = tasks@;
            let t = tasks.remove(index);
            tasks.insert(index - 1, t);
            proof {
                assert(tasks@ =~= before.update(index - 1, before[index as int]).update(
                    index as int,
                    before[index - 1],
                ));
                lemma_texts_update(before, index - 1, before[index as int]);
                lemma_texts_update(
                    before.update(index - 1, before[index as int]),
                    index as int,
                    before[index - 1],
                );
            }
        }
    }

    /// Move the task at `index` between backlog and current.
    pub fn cycle_task_section(&mut self, section: TaskSection, index: usize)
        ensures
            final(self).store() == spec_cycle(old(self).store(), section, index as int),
            final(self).file == old(self).file,
    {
        match section {
            TaskSection::Backlog => {
                if index < self.backlog.len() {
                    let t = self.backlog.remove(index);
                    proof {
                        lemma_texts_remove(old(self).backlog@, index as int);
                        lemma_texts_push(self.current@, t);
                    }
                    self.current.push(t);
                }
            },
            TaskSection::Current => {
                if index < self.current.len() {
                    let t = self.current.remove(index);
                    proof {
                        lemma_texts_remove(old(self).current@, index as int);
                        lemma_texts_push(self.backlog@, t);
                    }
                    self.backlog.push(t);
                }
            },
            TaskSection::Completed => {},
        }
    }

    /// Complete the task at `index` of current, or send the task at `index`
    /// of completed back to the backlog.
    pub fn toggle_completion(&mut self, section: TaskSection, index: usize)
        ensures
            final(self).store() == spec_toggle_completion(old(self).store(), section, index as int),
            final(self).file == old(self).file,
    {
        match section {
            TaskSection::Current => {
                if index < self.current.len() {
                    let t = self.current.remove(index);
                    proof {
                        lemma_texts_remove(old(self).current@, index as int);
                        lemma_texts_push(self.completed@, t);
                    }
                    self.completed.push(t);
                }
            },
            TaskSection::Completed => {
                if index < self.completed.len() {
                    let t = self.completed.remove(index);
                    proof {
                        lemma_texts_remove(old(self).completed@, index as int);
                        lemma_texts_push(self.backlog@, t);
                    }
                    self.backlog.push(t);
                }
            },
            TaskSection::Backlog => {},
        }
    }

    /// Complete the head of the current section, if any.
    pub fn complete_current_task(&mut self)
        ensures
            final(self).store() == spec_complete_current(old(self).store()),
            final(self).file == old(self).file,
    {
        if self.current.len() > 0 {
            let t = self.current.remove(0);
            proof {
                lemma_texts_remove(old(self).current@, 0);
                lemma_texts_push(self.completed@, t);
            }
            self.completed.push(t);
        }
    }
}

/// Texts of `src` that pass `keep`, each as an item with resolution `res`,
/// in source order.
pub open spec fn emit(
    src: Seq<Seq<char>>,
    keep: spec_fn(Seq<char>) -> bool,
    res: SyncResolution,
) -> Seq<SyncItemModel>
    decreases src.len(),
{
    if src.len() == 0 {
        Seq::empty()
    } else {
        let rest = emit(src.drop_last(), keep, res);
        if keep(src.last()) {
            rest.push(SyncItemModel { text: src.last(), resolution: res })
        } else {
            rest
        }
    }
}

pub open spec fn keep_not_in_both(a: Seq<Seq<char>>, b: Seq<Seq<char>>) -> spec_fn(
    Seq<char>,
) -> bool {
    |t: Seq<char>| !a.contains(t) && !b.contains(t)
}

pub open spec fn keep_in(a: Seq<Seq<char>>) -> spec_fn(Seq<char>) -> bool {
    |t: Seq<char>| a.contains(t)
}

/// The diff between file state (`fi`, `fc`: incomplete and complete texts in
/// the file) and app state (`ai`: backlog and current texts, `ac`: completed
/// texts).  The six rules fire in this order: tasks new in the file enter as
/// they are marked there; a completion on either side wins over an open task
/// on the other; tasks only the app knows are pushed into the file with the
/// app's state.
pub open spec fn spec_sync_items(
    fi: Seq<Seq<char>>,
    fc: Seq<Seq<char>>,
    ai: Seq<Seq<char>>,
    ac: Seq<Seq<char>>,
) -> Seq<SyncItemModel> {
    emit(fi, keep_not_in_both(ai, ac), SyncResolution::Incomplete) + emit(
        fc,
        keep_not_in_both(ai, ac),
        SyncResolution::Complete,
    ) + emit(ai, keep_in(fc), SyncResolution::Complete) + emit(
        ac,
        keep_in(fi),
        SyncResolution::Complete,
    ) + emit(ai, keep_not_in_both(fi, fc), SyncResolution::Incomplete) + emit(
        ac,
        keep_not_in_both(fi, fc),
        SyncResolution::Complete,
    )
}

/// `s` without every occurrence of `t`, order kept.
pub open spec fn keep_other(s: Seq<Seq<char>>, t: Seq<char>) -> Seq<Seq<char>>
    decreases s.len(),
{
    if s.len() == 0 {
        Seq::empty()
    } else {
        let rest = keep_other(s.drop_last(), t);
        if s.last() == t {
            rest
        } else {
            rest.push(s.last())
        }
    }
}

/// How one resolved item changes the store.  An `Incomplete` item leaves
/// completed, and enters the backlog only if neither backlog nor current
/// already has the text; a `Complete` item leaves backlog and current and
/// enters completed once; a `Remove` item leaves every section.
pub open spec fn apply_item_store(m: StoreModel, it: SyncItemModel) -> StoreModel {
    match it.resolution {
        SyncResolution::Incomplete => StoreModel {
            backlog: if m.backlog.contains(it.text) || m.current.contains(it.text) {
                m.backlog
            } else {
                m.backlog.push(it.text)
            },
            current: m.current,
            completed: keep_other(m.completed, it.text),
        },
        SyncResolution::Complete => StoreModel {
            backlog: keep_other(m.backlog, it.text),
            current: keep_other(m.current, it.text),
            completed: if m.completed.contains(it.text) {
                m.completed
            } else {
                m.completed.push(it.text)
            },
        },
        SyncResolution::Remove => StoreModel {
            backlog: keep_other(m.backlog, it.text),
            current: keep_other(m.current, it.text),
            completed: keep_other(m.completed, it.text),
        },
    }
}

pub open spec fn apply_items_store(m: StoreModel, items: Seq<SyncItemModel>) -> StoreModel
    decreases items.len(),
{
    if items.len() == 0 {
        m
    } else {
        apply_item_store(apply_items_store(m, items.drop_last()), items.last())
    }
}

/// Backlog after merging file texts in: each text enters once unless the
/// backlog so far or the current section already has it.
pub open spec fn merge_into_backlog(
    backlog: Seq<Seq<char>>,
    current: Seq<Seq<char>>,
    src: Seq<Seq<char>>,
) -> Seq<Seq<char>>
    decreases src.len(),
{
    if src.len() == 0 {
        backlog
    } else {
        let b = merge_into_backlog(backlog, current, src.drop_last());
        if !b.contains(src.last()) && !current.contains(src.last()) {
            b.push(src.last())
        } else {
            b
        }
    }
}

/// Completed section after merging file texts in, each at most once.
pub open spec fn merge_into_completed(completed: Seq<Seq<char>>, src: Seq<Seq<char>>) -> Seq<
    Seq<char>,
>
    decreases src.len(),
{
    if src.len() == 0 {
        completed
    } else {
        let c = merge_into_completed(completed, src.drop_last());
        if !c.contains(src.last()) {
            c.push(src.last())
        } else {
            c
        }
    }
}

fn contains_string(v: &Vec<String>, s: &String) -> (b: bool)
    ensures
        b == char_lines(v@).contains(s@),
{
    let mut k: usize = 0;
    while k < v.len()
        invariant
            k <= v@.len(),
            forall|j: int| 0 <= j < k ==> v@[j]@ != s@,
        decreases v@.len() - k,
    {
        if v[k].eq(s) {
            proof {
                assert(char_lines(v@)[k as int] == s@);
            }
            return true;
        }
        k = k + 1;
    }
    proof {
        assert forall|j: int| 0 <= j < char_lines(v@).len() implies char_lines(v@)[j] != s@ by {
            assert(char_lines(v@)[j] == v@[j]@);
        }
    }
    false
}

fn contains_task_text(v: &Vec<Task>, s: &String) -> (b: bool)
    ensures
        b == texts_of(v@).contains(s@),
{
    let mut k: usize = 0;
    while k < v.len()
        invariant
            k <= v@.len(),
            forall|j: int| 0 <= j < k ==> v@[j].text@ != s@,
        decreases v@.len() - k,
    {
        if v[k].text.eq(s) {
            proof {
                assert(texts_of(v@)[k as int] == s@);
            }
            return true;
        }
        k = k + 1;
    }
    proof {
        assert forall|j: int| 0 <= j < texts_of(v@).len() implies texts_of(v@)[j] != s@ by {
            assert(texts_of(v@)[j] == v@[j].text@);
        }
    }
    false
}

/// Drop every task whose text is `s`, keeping the order of the rest.
fn retain_other(v: &mut Vec<Task>, s: &String)
    ensures
        texts_of(final(v)@) == keep_other(texts_of(old(v)@), s@),
{
    let mut kept: Vec<Task> = Vec::new();
    proof {
        assert(texts_of(kept@) =~= keep_other(texts_of(v@).take(0), s@));
    }
    let mut k: usize = 0;
    while k < v.len()
        invariant
            k <= v@.len(),
            texts_of(kept@) == keep_other(texts_of(v@).take(k as int), s@),
        decreases v@.len() - k,
    {
        proof {
            assert(texts_of(v@).take(k + 1).drop_last() =~= texts_of(v@).take(k as int));
            assert(texts_of(v@).take(k + 1).last() == v@[k as int].text@);
        }
        if !v[k].text.eq(s) {
            let t = Task::new(v[k].text.clone());
            proof {
                lemma_texts_push(kept@, t);
            }
            kept.push(t);
        }
        k = k + 1;
    }
    proof {
        assert(texts_of(v@).take(v@.len() as int) =~= texts_of(v@));
    }
    *v = kept;
}

/// One task per text, in order.
fn tasks_from(texts: &Vec<String>) -> (ts: Vec<Task>)
    ensures
        texts_of(ts@) == char_lines(texts@),
{
    let mut ts: Vec<Task> = Vec::new();
    let mut k: usize = 0;
    while k < texts.len()
        invariant
            k <= texts@.len(),
            texts_of(ts@) == char_lines(texts@).take(k as int),
        decreases texts@.len() - k,
    {
        let t = Task::new(texts[k].clone());
        proof {
            lemma_texts_push(ts@, t);
            assert(texts_of(ts@.push(t)) =~= char_lines(texts@).take(k + 1));
        }
        ts.push(t);
        k = k + 1;
    }
    proof {
        assert(char_lines(texts@).take(texts@.len() as int) =~= char_lines(texts@));
    }
    ts
}

/// Append one diff pass over `src` to `items`: with `in_first` set, texts
/// present in `a`; otherwise texts absent from both `a` and `b`.
fn emit_pass(
    items: &mut Vec<SyncItem>,
    src: &Vec<String>,
    a: &Vec<String>,
    b: &Vec<String>,
    in_first: bool,
    res: SyncResolution,
)
    ensures
        models(final(items)@) == models(old(items)@) + emit(
            char_lines(src@),
            if in_first {
                keep_in(char_lines(a@))
            } else {
                keep_not_in_both(char_lines(a@), char_lines(b@))
            },
            res,
        ),
{
    let ghost base = models(items@);
    let ghost keep = if in_first {
        keep_in(char_lines(a@))
    } else {
        keep_not_in_both(char_lines(a@), char_lines(b@))
    };
    proof {
        assert(emit(char_lines(src@).take(0), keep, res) =~= Seq::<SyncItemModel>::empty());
        assert(base + Seq::<SyncItemModel>::empty() =~= base);
    }
    let mut k: usize = 0;
    while k < src.len()
        invariant
            k <= src@.len(),
            base == models(old(items)@),
            keep == (if in_first {
                keep_in(char_lines(a@))
            } else {
                keep_not_in_both(char_lines(a@), char_lines(b@))
            }),
            models(items@) == base + emit(char_lines(src@).take(k as int), keep, res),
        decreases src@.len() - k,
    {
        proof {
            assert(char_lines(src@).take(k + 1).drop_last() =~= char_lines(src@).take(k as int));
            assert(char_lines(src@).take(k + 1).last() == src@[k as int]@);
        }
        let text = &src[k];
        let hit = if in_first {
            contains_string(a, text)
        } else {
            !contains_string(a, text) && !contains_string(b, text)
        };
        if hit {
            let it = SyncItem { text: text.clone(), resolution: res };
            proof {
                lemma_models_push(items@, it);
                assert(models(items@).push(it@) =~= base + emit(
                    char_lines(src@).take(k + 1),
                    keep,
                    res,
                ));
            }
            items.push(it);
        }
        k = k + 1;
    }
    proof {
        assert(char_lines(src@).take(src@.len() as int) =~= char_lines(src@));
    }
}

impl TaskManager {
    /// The diff this manager computes between its store and its file image;
    /// empty when no file is attached.
    pub open spec fn spec_compute_sync(self) -> Seq<SyncItemModel> {
        match self.file {
            None => Seq::empty(),
            Some(f) => spec_sync_items(
                parse_incomplete(char_lines(f.lines@)),
                parse_complete(char_lines(f.lines@)),
                texts_of(self.backlog@) + texts_of(self.current@),
                texts_of(self.completed@),
            ),
        }
    }

    /// Build a manager from the lines of a checklist file: incomplete tasks
    /// enter the backlog, complete tasks the completed section.
    pub fn load(lines: Vec<String>) -> (tm: TaskManager)
        ensures
            tm.store().backlog == parse_incomplete(char_lines(lines@)),
            tm.store().current.len() == 0,
            tm.store().completed == parse_complete(char_lines(lines@)),
            match tm.file {
                Some(f) => f.lines@ == lines@,
                None => false,
            },
    {
        let (file, parsed) = TaskFile::load(lines);
        let backlog = tasks_from(&parsed.incomplete);
        let completed = tasks_from(&parsed.complete);
        TaskManager { file: Some(file), backlog, current: Vec::new(), completed }
    }

    /// Replace the file image with freshly read lines; the store is
    /// untouched.  Sync always works against the latest read.
    pub fn refresh_file(&mut self, lines: Vec<String>)
        ensures
            final(self).store() == old(self).store(),
            match final(self).file {
                Some(f) => f.lines == lines,
                None => false,
            },
    {
        self.file = Some(TaskFile::new(lines));
    }

    /// Attach a file and merge its tasks into the store, adding only texts
    /// the store does not already have.
    pub fn adopt_file(&mut self, lines: Vec<String>)
        ensures
            final(self).store().backlog == merge_into_backlog(
                old(self).store().backlog,
                old(self).store().current,
                parse_incomplete(char_lines(lines@)),
            ),
            final(self).store().current == old(self).store().current,
            final(self).store().completed == merge_into_completed(
                old(self).store().completed,
                parse_complete(char_lines(lines@)),
            ),
            match final(self).file {
                Some(f) => f.lines == lines,
                None => false,
            },
    {
        let parsed = parse_task_lines(&lines);
        let ghost src_b = char_lines(parsed.incomplete@);
        let mut k: usize = 0;
        while k < parsed.incomplete.len()
            invariant
                k <= src_b.len(),
                src_b == char_lines(parsed.incomplete@),
                texts_of(self.backlog@) == merge_into_backlog(
                    texts_of(old(self).backlog@),
                    texts_of(old(self).current@),
                    src_b.take(k as int),
                ),
                self.current == old(self).current,
                self.completed == old(self).completed,
                self.file == old(self).file,
            decreases src_b.len() - k,
        {
            proof {
                assert(src_b.take(k + 1).drop_last() =~= src_b.take(k as int));
                assert(src_b.take(k + 1).last() == parsed.incomplete@[k as int]@);
            }
            let text = &parsed.incomplete[k];
            if !contains_task_text(&self.backlog, text) && !contains_task_text(
                &self.current,
                text,
            ) {
                let t = Task::new(text.clone());
                proof {
                    lemma_texts_push(self.backlog@, t);
                }
                self.backlog.push(t);
            }
            k = k + 1;
        }
        proof {
            assert(src_b.take(src_b.len() as int) =~= src_b);
        }
        let ghost src_c = char_lines(parsed.complete@);
        let mut j: usize = 0;
        while j < parsed.complete.len()
            invariant
                j <= src_c.len(),
                src_c == char_lines(parsed.complete@),
                texts_of(self.backlog@) == merge_into_backlog(
                    texts_of(old(self).backlog@),
                    texts_of(old(self).current@),
                    char_lines(parsed.incomplete@),
                ),
                texts_of(self.completed@) == merge_into_completed(
                    texts_of(old(self).completed@),
                    src_c.take(j as int),
                ),
                self.current == old(self).current,
                self.file == old(self).file,
            decreases src_c.len() - j,
        {
            proof {
                assert(src_c.take(j + 1).drop_last() =~= src_c.take(j as int));
                assert(src_c.take(j + 1).last() == parsed.complete@[j as int]@);
            }
            let text = &parsed.complete[j];
            if !contains_task_text(&self.completed, text) {
                let t = Task::new(text.clone());
                proof {
                    lemma_texts_push(self.completed@, t);
                }
                self.completed.push(t);
            }
            j = j + 1;
        }
        proof {
            assert(src_c.take(src_c.len() as int) =~= src_c);
        }
        self.file = Some(TaskFile::new(lines));
    }

    /// Diff the store against the file image.  The resulting items carry the
    /// computed default resolutions, ready for review.
    pub fn compute_sync_items(&self) -> (items: Vec<SyncItem>)
        ensures
            models(items@) == self.spec_compute_sync(),
    {
        let file = match &self.file {
            Some(f) => f,
            None => {
                let empty: Vec<SyncItem> = Vec::new();
                proof {
                    assert(models(empty@) =~= Seq::<SyncItemModel>::empty());
                }
                return empty;
            },
        };
        let parsed = file.read_tasks();

        let mut app_incomplete: Vec<String> = Vec::new();
        let mut k: usize = 0;
        while k < self.backlog.len()
            invariant
                k <= self.backlog@.len(),
                char_lines(app_incomplete@) == texts_of(self.backlog@).take(k as int),
            decreases self.backlog@.len() - k,
        {
            proof {
                assert(texts_of(self.backlog@).take(k + 1).drop_last() =~= texts_of(
                    self.backlog@,
                ).take(k as int));
                assert(texts_of(self.backlog@).take(k + 1).last() == self.backlog@[k as int].text@);
            }
            let s = self.backlog[k].text.clone();
            proof {
                lemma_char_lines_push(app_incomplete@, s);
            }
            app_incomplete.push(s);
            k = k + 1;
        }
        proof {
            assert(texts_of(self.backlog@).take(self.backlog@.len() as int) =~= texts_of(
                self.backlog@,
            ));
        }
        let mut k2: usize = 0;
        while k2 < self.current.len()
            invariant
                k2 <= self.current@.len(),
                char_lines(app_incomplete@) == texts_of(self.backlog@) + texts_of(
                    self.current@,
                ).take(k2 as int),
            decreases self.current@.len() - k2,
        {
            proof {
                assert(texts_of(self.current@).take(k2 + 1).drop_last() =~= texts_of(
                    self.current@,
                ).take(k2 as int));
                assert(texts_of(self.current@).take(k2 + 1).last() == self.current@[k2 as int].text@);
            }
            let s = self.current[k2].text.clone();
            proof {
                lemma_char_lines_push(app_incomplete@, s);
                assert((texts_of(self.backlog@) + texts_of(self.current@).take(k2 as int)).push(s@)
                    =~= texts_of(self.backlog@) + texts_of(self.current@).take(k2 + 1));
            }
            app_incomplete.push(s);
            k2 = k2 + 1;
        }
        proof {
            assert(texts_of(self.current@).take(self.current@.len() as int) =~= texts_of(
                self.current@,
            ));
        }

        let mut app_complete: Vec<String> = Vec::new();
        let mut k3: usize = 0;
        while k3 < self.completed.len()
            invariant
                k3 <= self.completed@.len(),
                char_lines(app_complete@) == texts_of(self.completed@).take(k3 as int),
            decreases self.completed@.len() - k3,
        {
            proof {
                assert(texts_of(self.completed@).take(k3 + 1).drop_last() =~= texts_of(
                    self.completed@,
                ).take(k3 as int));
                assert(texts_of(self.completed@).take(k3 + 1).last()
                    == self.completed@[k3 as int].text@);
            }
            let s = self.completed[k3].text.clone();
            proof {
                lemma_char_lines_push(app_complete@, s);
            }
            app_complete.push(s);
            k3 = k3 + 1;
        }
        proof {
            assert(texts_of(self.completed@).take(self.completed@.len() as int) =~= texts_of(
                self.completed@,
            ));
        }

        let mut items: Vec<SyncItem> = Vec::new();
        emit_pass(
            &mut items,
            &parsed.incomplete,
            &app_incomplete,
            &app_complete,
            false,
            SyncResolution::Incomplete,
        );
        emit_pass(
            &mut items,
            &parsed.complete,
            &app_incomplete,
            &app_complete,
            false,
            SyncResolution::Complete,
        );
        emit_pass(
            &mut items,
            &app_incomplete,
            &parsed.complete,
            &parsed.complete,
            true,
            SyncResolution::Complete,
        );
        emit_pass(
            &mut items,
            &app_complete,
            &parsed.incomplete,
            &parsed.incomplete,
            true,
            SyncResolution::Complete,
        );
        emit_pass(
            &mut items,
            &app_incomplete,
            &parsed.incomplete,
            &parsed.complete,
            false,
            SyncResolution::Incomplete,
        );
        emit_pass(
            &mut items,
            &app_complete,
            &parsed.incomplete,
            &parsed.complete,
            false,
            SyncResolution::Complete,
        );
        proof {
            assert(models(items@) =~= self.spec_compute_sync());
        }
        items
    }

    /// Apply reviewed items to the store and to the file image.  The caller
    /// writes the new file lines back to disk.
    pub fn apply_sync(&mut self, items: &Vec<SyncItem>)
        ensures
            final(self).store() == apply_items_store(old(self).store(), models(items@)),
            match old(self).file {
                None => final(self).file is None,
                Some(f) => match final(self).file {
                    Some(f2) => char_lines(f2.lines@) == spec_write_sync(
                        char_lines(f.lines@),
                        models(items@),
                    ),
                    None => false,
                },
            },
    {
        proof {
            assert(models(items@).take(0) =~= Seq::<SyncItemModel>::empty());
        }
        let mut i: usize = 0;
        while i < items.len()
            invariant
                i <= items@.len(),
                self.store() == apply_items_store(old(self).store(), models(items@).take(i as int)),
                self.file == old(self).file,
            decreases items@.len() - i,
        {
            proof {
                assert(models(items@).take(i + 1).drop_last() =~= models(items@).take(i as int));
                assert(models(items@).take(i + 1).last() == items@[i as int]@);
            }
            let item = &items[i];
            match item.resolution {
                SyncResolution::Incomplete => {
                    let in_backlog = contains_task_text(&self.backlog, &item.text);
                    let in_current = contains_task_text(&self.current, &item.text);
                    retain_other(&mut self.completed, &item.text);
                    if !in_backlog && !in_current {
                        let t = Task::new(item.text.clone());
                        proof {
                            lemma_texts_push(self.backlog@, t);
                        }
                        self.backlog.push(t);
                    }
                },
                SyncResolution::Complete => {
                    let in_completed = contains_task_text(&self.completed, &item.text);
                    retain_other(&mut self.backlog, &item.text);
                    retain_other(&mut self.current, &item.text);
                    if !in_completed {
                        let t = Task::new(item.text.clone());
                        proof {
                            lemma_texts_push(self.completed@, t);
                        }
                        self.completed.push(t);
                    }
                },
                SyncResolution::Remove => {
                    retain_other(&mut self.backlog, &item.text);
                    retain_other(&mut self.current, &item.text);
                    retain_other(&mut self.completed, &item.text);
                },
            }
            i = i + 1;
        }
        proof {
            assert(models(items@).take(items@.len() as int) =~= models(items@));
        }
        match &mut self.file {
            Some(f) => f.write_sync(items),
            None => {},
        }
    }
}

/// Computing the diff is idempotent: with no intervening change to the store
/// or the file image, two computations return the same item list.
pub proof fn lemma_compute_sync_idempotent(
    tm: TaskManager,
    first: Seq<SyncItem>,
    second: Seq<SyncItem>,
)
    requires
        models(first) == tm.spec_compute_sync(),
        models(second) == tm.spec_compute_sync(),
    ensures
        models(first) == models(second),
{
}

/// Applying an item never duplicates a task: a text already present in the
/// destination section leaves that section unchanged, and a text absent from
/// it enters exactly once.
pub proof fn lemma_apply_item_no_duplication(m: StoreModel, it: SyncItemModel)
    ensures
        it.resolution == SyncResolution::Incomplete && (m.backlog.contains(it.text)
            || m.current.contains(it.text)) ==> apply_item_store(m, it).backlog == m.backlog,
        it.resolution == SyncResolution::Incomplete && !m.backlog.contains(it.text)
            && !m.current.contains(it.text) ==> apply_item_store(m, it).backlog == m.backlog.push(
            it.text,
        ),
        it.resolution == SyncResolution::Complete && m.completed.contains(it.text)
            ==> apply_item_store(m, it).completed == m.completed,
        it.resolution == SyncResolution::Complete && !m.completed.contains(it.text)
            ==> apply_item_store(m, it).completed == m.completed.push(it.text),
{
}

} // verus!
