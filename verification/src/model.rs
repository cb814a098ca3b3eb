//! The data model: tasks, projects and the project store, with their
//! mathematical views.
//!
//! Timestamps are carried as plain RFC 3339 text: the store never computes
//! with them, it only records them, so a string preserves them exactly
//! through the persistence round trip.

use vstd::prelude::*;

verus! {

/// A node in a task forest. A task owns its subtasks exclusively, so the
/// structure is a tree of arbitrary depth with no sharing.
pub struct Task {
    pub text: String,
    pub completed: bool,
    pub created_at: String,
    pub completed_at: Option<String>,
    pub subtasks: Vec<Task>,
}

/// A named container of root-level tasks.
pub struct Project {
    pub name: String,
    pub tasks: Vec<Task>,
    pub created_at: String,
}

/// The persisted aggregate: every project plus the name of the active one.
pub struct ProjectStore {
    pub current_project: String,
    pub projects: Vec<Project>,
}

/// Mathematical value of a task: strings become character sequences.
#[verifier::ext_equal]
pub ghost struct TaskV {
    pub text: Seq<char>,
    pub completed: bool,
    pub created_at: Seq<char>,
    pub completed_at: Option<Seq<char>>,
    pub subtasks: Seq<TaskV>,
}

/// Mathematical value of a project.
#[verifier::ext_equal]
pub ghost struct ProjectV {
    pub name: Seq<char>,
    pub tasks: Seq<TaskV>,
    pub created_at: Seq<char>,
}

/// Mathematical value of the whole store.
#[verifier::ext_equal]
pub ghost struct StoreV {
    pub current_project: Seq<char>,
    pub projects: Seq<ProjectV>,
}

pub open spec fn opt_string_view(o: Option<String>) -> Option<Seq<char>> {
    match o {
        Some(s) => Some(s@),
        None => None,
    }
}

pub open spec fn task_view(t: Task) -> TaskV
    decreases t,
{
    TaskV {
        text: t.text@,
        completed: t.completed,
        created_at: t.created_at@,
        completed_at: opt_string_view(t.completed_at),
        subtasks: tasks_view(t.subtasks@),
    }
}

pub open spec fn tasks_view(ts: Seq<Task>) -> Seq<TaskV>
    decreases ts,
{
    if ts.len() == 0 {
        Seq::empty()
    } else {
        seq![task_view(ts[0])] + tasks_view(ts.drop_first())
    }
}

impl View for Task {
    type V = TaskV;

    open spec fn view(&self) -> TaskV {
        task_view(*self)
    }
}

impl View for Project {
    type V = ProjectV;

    open spec fn view(&self) -> ProjectV {
        ProjectV { name: self.name@, tasks: tasks_view(self.tasks@), created_at: self.created_at@ }
    }
}

pub open spec fn projects_view(ps: Seq<Project>) -> Seq<ProjectV> {
    Seq::new(ps.len(), |i: int| ps[i]@)
}

impl View for ProjectStore {
    type V = StoreV;

    open spec fn view(&self) -> StoreV {
        StoreV { current_project: self.current_project@, projects: projects_view(self.projects@) }
    }
}

/// `tasks_view` is the element-wise view of the sequence.
pub proof fn lemma_tasks_view(ts: Seq<Task>)
    ensures
        tasks_view(ts).len() == ts.len(),
        forall|i: int| 0 <= i < ts.len() ==> tasks_view(ts)[i] == task_view(ts[i]),
    decreases ts,
{
    if ts.len() > 0 {
        lemma_tasks_view(ts.drop_first());
    }
}

/// Views distribute over pushing one task at the end.
pub proof fn lemma_tasks_view_push(ts: Seq<Task>, t: Task)
    ensures
        tasks_view(ts.push(t)) =~= tasks_view(ts).push(task_view(t)),
    decreases ts,
{
    lemma_tasks_view(ts);
    lemma_tasks_view(ts.push(t));
    if ts.len() > 0 {
        lemma_tasks_view_push(ts.drop_first(), t);
        assert(ts.push(t).drop_first() =~= ts.drop_first().push(t));
    }
}

} // verus!
