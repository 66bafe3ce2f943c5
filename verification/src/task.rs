use vstd::prelude::*;

verus! {

/// The three buckets a task can live in.
#[derive(Debug, Clone, Copy, PartialEq, Eq, Structural)]
pub enum TaskSection {
    Backlog,
    Current,
    Completed,
}

/// A single task; the text is its identity.
#[derive(Debug, Clone)]
pub struct Task {
    pub text: String,
}

impl View for Task {
    type V = Seq<char>;

    open spec fn view(&self) -> Seq<char> {
        self.text@
    }
}

impl Task {
    pub fn new(text: String) -> (t: Task)
        ensures
            t@ == text@,
    {
        Task { text }
    }
}

/// The texts of a sequence of tasks, in order.
pub open spec fn texts_of(ts: Seq<Task>) -> Seq<Seq<char>> {
    ts.map_values(|t: Task| t.text@)
}

} // verus!
