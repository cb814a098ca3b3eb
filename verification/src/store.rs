//! The project store: the aggregate of all projects plus the active one,
//! with its self-healing current-project lookup and the path-addressed
//! operations scoped to the current project's task list.

use vstd::prelude::*;

use crate::clock::now_rfc3339;
use crate::errors::TmError;
use crate::model::{
    projects_view, task_view, tasks_view, Project, ProjectStore, ProjectV, StoreV, Task, TaskV,
};
use crate::tasks::{
    add_in, clear_done, clear_done_tasks, complete_f, complete_in, delete_in, entry_ok,
    list_at_rel, list_path_ok, move_in, move_post, new_task_v, push_rel, remove_rel, task_at_rel,
    task_exists, uncomplete_f, uncomplete_in, MoveDir,
};
use crate::util::{chars_of_str, parse_usize, parse_usize_v};

verus! {

/// The name of the protected project every store falls back to.
pub open spec fn default_name() -> Seq<char> {
    "default"@
}

/// A fresh, empty project under the default name.
pub open spec fn default_proj(stamp: Seq<char>) -> ProjectV {
    ProjectV { name: default_name(), tasks: Seq::empty(), created_at: stamp }
}

/// Some project in `ps` carries the name `n`.
pub open spec fn has_proj(ps: Seq<ProjectV>, n: Seq<char>) -> bool {
    exists|i: int| 0 <= i < ps.len() && ps[i].name == n
}

/// The first index whose project carries the name `n`, or `-1`.
pub open spec fn proj_idx(ps: Seq<ProjectV>, n: Seq<char>) -> int
    decreases ps.len(),
{
    if ps.len() == 0 {
        -1
    } else if ps[0].name == n {
        0
    } else {
        let r = proj_idx(ps.drop_first(), n);
        if r < 0 {
            -1
        } else {
            1 + r
        }
    }
}

/// The store's current-project pointer refers to an existing project.
pub open spec fn healed(s: StoreV) -> bool {
    has_proj(s.projects, s.current_project)
}

/// The tasks of the current project (the first project of that name).
pub open spec fn cur_tasks(s: StoreV) -> Seq<TaskV> {
    s.projects[proj_idx(s.projects, s.current_project)].tasks
}

/// How the defensive normalization relates a store to its healed form:
/// a healthy store is untouched; a dangling current-project pointer falls
/// back to `"default"`, which is created empty if even it is missing.
pub open spec fn heal_rel(s: StoreV, h: StoreV) -> bool {
    if has_proj(s.projects, s.current_project) {
        h == s
    } else if has_proj(s.projects, default_name()) {
        h == StoreV { current_project: default_name(), projects: s.projects }
    } else {
        exists|stamp: Seq<char>|
            h == StoreV {
                current_project: default_name(),
                projects: s.projects.push(default_proj(stamp)),
            }
    }
}

/// Healing a healthy store is the identity.
pub proof fn lemma_heal_healthy(s: StoreV, h: StoreV)
    requires
        heal_rel(s, h),
        healed(s),
    ensures
        h == s,
{
}

/// `s1` differs from `h` at most in the task list of `h`'s current project.
pub open spec fn only_cur_tasks_changed(h: StoreV, s1: StoreV) -> bool {
    let idx = proj_idx(h.projects, h.current_project);
    &&& s1.current_project == h.current_project
    &&& s1.projects.len() == h.projects.len()
    &&& (forall|j: int|
        0 <= j < h.projects.len() && j != idx ==> #[trigger] s1.projects[j] == h.projects[j])
    &&& s1.projects[idx].name == h.projects[idx].name
    &&& s1.projects[idx].created_at == h.projects[idx].created_at
}

/// The task list that stands in `s1` where `h`'s current project stands.
pub open spec fn cur_tasks_in(h: StoreV, s1: StoreV) -> Seq<TaskV> {
    s1.projects[proj_idx(h.projects, h.current_project)].tasks
}

/// `proj_idx` finds the first occurrence of `n`, and only then.
pub proof fn lemma_proj_idx(ps: Seq<ProjectV>, n: Seq<char>)
    ensures
        proj_idx(ps, n) >= 0 <==> has_proj(ps, n),
        proj_idx(ps, n) >= 0 ==> {
            &&& proj_idx(ps, n) < ps.len()
            &&& ps[proj_idx(ps, n)].name == n
            &&& (forall|j: int| 0 <= j < proj_idx(ps, n) ==> (#[trigger] ps[j]).name != n)
        },
    decreases ps.len(),
{
    if ps.len() > 0 && ps[0].name != n {
        lemma_proj_idx(ps.drop_first(), n);
        let r = proj_idx(ps.drop_first(), n);
        if r >= 0 {
            assert(ps[1 + r].name == n);
            assert forall|j: int| 0 <= j < proj_idx(ps, n) implies (#[trigger] ps[j]).name != n by {
                if j > 0 {
                    assert(ps.drop_first()[j - 1] == ps[j]);
                }
            }
        }
        if has_proj(ps, n) {
            let w = choose|i: int| 0 <= i < ps.len() && ps[i].name == n;
            assert(ps.drop_first()[w - 1].name == n);
        }
    }
}

/// An index that holds `n` after indices that do not is the one
/// `proj_idx` returns.
pub proof fn lemma_proj_idx_first(ps: Seq<ProjectV>, n: Seq<char>, i: int)
    requires
        0 <= i < ps.len(),
        ps[i].name == n,
        forall|j: int| 0 <= j < i ==> (#[trigger] ps[j]).name != n,
    ensures
        proj_idx(ps, n) == i,
    decreases i,
{
    if i > 0 {
        assert(ps.drop_first()[i - 1] == ps[i]);
        assert(forall|j: int| 0 <= j < i - 1 ==> ps.drop_first()[j] == ps[j + 1]);
        lemma_proj_idx_first(ps.drop_first(), n, i - 1);
    }
}

/// Appending the first project of name `n` puts its index at the end.
pub proof fn lemma_proj_idx_push(ps: Seq<ProjectV>, n: Seq<char>, p: ProjectV)
    requires
        !has_proj(ps, n),
        p.name == n,
    ensures
        proj_idx(ps.push(p), n) == ps.len(),
{
    assert(ps.push(p)[ps.len() as int].name == n);
    assert(forall|j: int| 0 <= j < ps.len() ==> ps.push(p)[j] == ps[j]);
    lemma_proj_idx_first(ps.push(p), n, ps.len() as int);
}

impl ProjectStore {
    /// A fresh store: one empty `"default"` project, selected.
    pub fn new() -> (r: ProjectStore)
        ensures
            r@.current_project == default_name(),
            r@.projects.len() == 1,
            r@.projects[0].name == default_name(),
            r@.projects[0].tasks == Seq::<TaskV>::empty(),
            healed(r@),
    {
        let stamp = now_rfc3339();
        let mut projects: Vec<Project> = Vec::new();
        projects.push(Project { name: "default".to_owned(), tasks: Vec::new(), created_at: stamp });
        let r = ProjectStore { current_project: "default".to_owned(), projects };
        proof {
            assert(r@.projects[0].tasks =~= Seq::<TaskV>::empty());
            assert(r@.projects[0].name == default_name());
        }
        r
    }

    /// The index of the first project named `name`, if any.
    fn find_project(&self, name: &String) -> (r: Option<usize>)
        ensures
            match r {
                Some(i) => {
                    &&& 0 <= i < self@.projects.len()
                    &&& i as int == proj_idx(self@.projects, name@)
                    &&& self@.projects[i as int].name == name@
                },
                None => !has_proj(self@.projects, name@),
            },
    {
        let mut i: usize = 0;
        while i < self.projects.len()
            invariant
                0 <= i <= self@.projects.len(),
                forall|j: int| 0 <= j < i ==> (#[trigger] self@.projects[j]).name != name@,
            decreases self@.projects.len() - i,
        {
            if self.projects[i].name == *name {
                proof {
                    lemma_proj_idx_first(self@.projects, name@, i as int);
                }
                return Some(i);
            }
            i = i + 1;
        }
        None
    }

    /// Makes the current-project pointer valid, exactly as the tasks
    /// accessors do: falls back to `"default"`, creating it if missing,
    /// and returns the index of the current project.
    fn heal(&mut self) -> (idx: usize)
        ensures
            heal_rel(old(self)@, final(self)@),
            healed(final(self)@),
            idx as int == proj_idx(final(self)@.projects, final(self)@.current_project),
            0 <= idx < final(self)@.projects.len(),
    {
        match self.find_project(&self.current_project) {
            Some(i) => {
                proof {
                    assert(healed(self@));
                }
                i
            },
            None => {
                self.current_project = "default".to_owned();
                match self.find_project(&self.current_project) {
                    Some(i) => {
                        proof {
                            assert(self@ =~= StoreV {
                                current_project: default_name(),
                                projects: old(self)@.projects,
                            });
                            assert(healed(self@));
                        }
                        i
                    },
                    None => {
                        let stamp = now_rfc3339();
                        let ghost ps0 = self@.projects;
                        let ghost stampv = stamp@;
                        self.projects.push(
                            Project {
                                name: "default".to_owned(),
                                tasks: Vec::new(),
                                created_at: stamp,
                            },
                        );
                        let idx = self.projects.len() - 1;
                        proof {
                            assert(self@.projects.len() == ps0.len() + 1);
                            assert(forall|j: int|
                                0 <= j < ps0.len() ==> self@.projects[j] == #[trigger] ps0[j]);
                            assert(self@.projects[ps0.len() as int].tasks =~= Seq::<
                                TaskV,
                            >::empty());
                            assert(self@.projects[ps0.len() as int] =~= default_proj(stampv));
                            assert(self@.projects =~= ps0.push(default_proj(stampv)));
                            lemma_proj_idx_push(ps0, default_name(), default_proj(stampv));
                            assert(self@ =~= StoreV {
                                current_project: default_name(),
                                projects: ps0.push(default_proj(stampv)),
                            });
                            assert(healed(self@));
                        }
                        idx
                    },
                }
            },
        }
    }

    /// The name of the active project.
    pub fn get_current_project_name(&self) -> (r: &str)
        ensures
            r@ == self@.current_project,
    {
        self.current_project.as_str()
    }

    /// Resolves a path to the task it addresses within the current
    /// project, healing the pointer first; the empty path addresses no task.
    pub fn find_item(&mut self, path: &Vec<usize>) -> (r: Option<&Task>)
        ensures
            path@.len() > 0 ==> heal_rel(old(self)@, final(self)@),
            path@.len() == 0 ==> final(self)@ == old(self)@,
            match r {
                Some(t) => {
                    &&& task_exists(cur_tasks(final(self)@), path@)
                    &&& t@ == crate::tasks::task_at(cur_tasks(final(self)@), path@)
                },
                None => !task_exists(cur_tasks(final(self)@), path@),
            },
    {
        if path.len() == 0 {
            return None;
        }
        let idx = self.heal();
        proof {
            assert(path@.skip(0) =~= path@);
        }
        crate::tasks::find_in(&self.projects[idx].tasks, path, 0)
    }

    /// The current project's task list, healing the pointer first.
    pub fn get_current_tasks(&mut self) -> (r: &Vec<Task>)
        ensures
            heal_rel(old(self)@, final(self)@),
            healed(final(self)@),
            tasks_view(r@) == cur_tasks(final(self)@),
    {
        let idx = self.heal();
        &self.projects[idx].tasks
    }

    /// Appends a new incomplete task under the parent `path` addresses,
    /// or to the root list for the empty path.
    pub fn add_task(&mut self, path: &Vec<usize>, text: String) -> (r: Result<(), TmError>)
        ensures
            add_task_post(old(self)@, final(self)@, path@, text@, r),
            healed(old(self)@) ==> add_task_healed(old(self)@, final(self)@, path@, text@, r),
    {
        let ghost s0 = self@;
        let ghost textv = text@;
        let idx = self.heal();
        let ghost h = self@;
        let stamp = now_rfc3339();
        let ghost stampv = stamp@;
        let new_task = Task {
            text,
            completed: false,
            created_at: stamp,
            completed_at: None,
            subtasks: Vec::new(),
        };
        let ghost ntv = task_view(new_task);
        proof {
            assert(tasks_view(new_task.subtasks@) =~= Seq::<TaskV>::empty());
            assert(ntv =~= new_task_v(textv, stampv));
        }
        let ghost vec0 = self.projects@;
        let mut p = self.projects.remove(idx);
        let ghost p0 = p;
        proof {
            assert(p0@ == h.projects[idx as int]);
            assert(cur_tasks(h) == tasks_view(p0.tasks@));
        }
        let found = add_in(&mut p.tasks, path, 0, new_task);
        self.projects.insert(idx, p);
        proof {
            assert(path@.skip(0) =~= path@);
            assert(self.projects@ =~= vec0.update(idx as int, p));
            assert(forall|j: int|
                0 <= j < vec0.len() && j != idx ==> self@.projects[j] == #[trigger] h.projects[j]);
            assert(self@.projects[idx as int] == p@);
            if found {
                assert(only_cur_tasks_changed(h, self@));
                assert(cur_tasks_in(h, self@) == tasks_view(p.tasks@));
                assert(list_at_rel(
                    cur_tasks(h),
                    path@,
                    cur_tasks_in(h, self@),
                    push_rel(new_task_v(textv, stampv)),
                ));
                assert(add_task_healed(h, self@, path@, textv, Ok::<(), TmError>(())));
            } else {
                assert(tasks_view(p.tasks@) == tasks_view(p0.tasks@));
                assert(p@ =~= p0@);
                assert(self@ =~= h);
                assert(add_task_healed(h, self@, path@, textv, Err::<(), TmError>(
                    TmError::NotFound,
                )));
            }
            if healed(s0) {
                lemma_heal_healthy(s0, h);
            }
        }
        if found {
            Ok(())
        } else {
            Err(TmError::NotFound)
        }
    }

    /// Marks the task at `path` and its whole subtree completed.
    pub fn complete_task(&mut self, path: &Vec<usize>) -> (r: Result<(), TmError>)
        ensures
            complete_task_post(old(self)@, final(self)@, path@, r),
            healed(old(self)@) && path@.len() > 0 ==> complete_task_healed(
                old(self)@,
                final(self)@,
                path@,
                r,
            ),
    {
        let ghost s0 = self@;
        if path.len() == 0 {
            return Err(TmError::NotFound);
        }
        let idx = self.heal();
        let ghost h = self@;
        let ghost vec0 = self.projects@;
        let mut p = self.projects.remove(idx);
        let ghost p0 = p;
        proof {
            assert(p0@ == h.projects[idx as int]);
            assert(cur_tasks(h) == tasks_view(p0.tasks@));
        }
        let found = complete_in(&mut p.tasks, path, 0);
        self.projects.insert(idx, p);
        proof {
            assert(path@.skip(0) =~= path@);
            assert(self.projects@ =~= vec0.update(idx as int, p));
            assert(forall|j: int|
                0 <= j < vec0.len() && j != idx ==> self@.projects[j] == #[trigger] h.projects[j]);
            assert(self@.projects[idx as int] == p@);
            if found {
                assert(only_cur_tasks_changed(h, self@));
                assert(cur_tasks_in(h, self@) == tasks_view(p.tasks@));
                assert(complete_task_healed(h, self@, path@, Ok::<(), TmError>(())));
            } else {
                assert(tasks_view(p.tasks@) == tasks_view(p0.tasks@));
                assert(p@ =~= p0@);
                assert(self@ =~= h);
                assert(complete_task_healed(h, self@, path@, Err::<(), TmError>(
                    TmError::NotFound,
                )));
            }
            if healed(s0) {
                lemma_heal_healthy(s0, h);
            }
        }
        if found {
            Ok(())
        } else {
            Err(TmError::NotFound)
        }
    }

    /// Marks the task at `path` and its whole subtree incomplete.
    pub fn uncomplete_task(&mut self, path: &Vec<usize>) -> (r: Result<(), TmError>)
        ensures
            uncomplete_task_post(old(self)@, final(self)@, path@, r),
            healed(old(self)@) && path@.len() > 0 ==> uncomplete_task_healed(
                old(self)@,
                final(self)@,
                path@,
                r,
            ),
    {
        let ghost s0 = self@;
        if path.len() == 0 {
            return Err(TmError::NotFound);
        }
        let idx = self.heal();
        let ghost h = self@;
        let ghost vec0 = self.projects@;
        let mut p = self.projects.remove(idx);
        let ghost p0 = p;
        proof {
            assert(p0@ == h.projects[idx as int]);
            assert(cur_tasks(h) == tasks_view(p0.tasks@));
        }
        let found = uncomplete_in(&mut p.tasks, path, 0);
        self.projects.insert(idx, p);
        proof {
            assert(path@.skip(0) =~= path@);
            assert(self.projects@ =~= vec0.update(idx as int, p));
            assert(forall|j: int|
                0 <= j < vec0.len() && j != idx ==> self@.projects[j] == #[trigger] h.projects[j]);
            assert(self@.projects[idx as int] == p@);
            if found {
                assert(only_cur_tasks_changed(h, self@));
                assert(cur_tasks_in(h, self@) == tasks_view(p.tasks@));
                assert(uncomplete_task_healed(h, self@, path@, Ok::<(), TmError>(())));
            } else {
                assert(tasks_view(p.tasks@) == tasks_view(p0.tasks@));
                assert(p@ =~= p0@);
                assert(self@ =~= h);
                assert(uncomplete_task_healed(h, self@, path@, Err::<(), TmError>(
                    TmError::NotFound,
                )));
            }
            if healed(s0) {
                lemma_heal_healthy(s0, h);
            }
        }
        if found {
            Ok(())
        } else {
            Err(TmError::NotFound)
        }
    }

    /// Deletes the task at `path`, removing its whole subtree.
    pub fn delete_task(&mut self, path: &Vec<usize>) -> (r: Result<(), TmError>)
        ensures
            delete_task_post(old(self)@, final(self)@, path@, r),
            healed(old(self)@) && path@.len() > 0 ==> delete_task_healed(
                old(self)@,
                final(self)@,
                path@,
                r,
            ),
    {
        let ghost s0 = self@;
        if path.len() == 0 {
            return Err(TmError::NotFound);
        }
        let idx = self.heal();
        let ghost h = self@;
        let ghost vec0 = self.projects@;
        let mut p = self.projects.remove(idx);
        let ghost p0 = p;
        proof {
            assert(p0@ == h.projects[idx as int]);
            assert(cur_tasks(h) == tasks_view(p0.tasks@));
        }
        let found = delete_in(&mut p.tasks, path, 0);
        self.projects.insert(idx, p);
        proof {
            assert(path@.skip(0) =~= path@);
            assert(self.projects@ =~= vec0.update(idx as int, p));
            assert(forall|j: int|
                0 <= j < vec0.len() && j != idx ==> self@.projects[j] == #[trigger] h.projects[j]);
            assert(self@.projects[idx as int] == p@);
            if found {
                assert(only_cur_tasks_changed(h, self@));
                assert(cur_tasks_in(h, self@) == tasks_view(p.tasks@));
                assert(delete_task_healed(h, self@, path@, Ok::<(), TmError>(())));
            } else {
                assert(tasks_view(p.tasks@) == tasks_view(p0.tasks@));
                assert(p@ =~= p0@);
                assert(self@ =~= h);
                assert(delete_task_healed(h, self@, path@, Err::<(), TmError>(
                    TmError::NotFound,
                )));
            }
            if healed(s0) {
                lemma_heal_healthy(s0, h);
            }
        }
        if found {
            Ok(())
        } else {
            Err(TmError::NotFound)
        }
    }

    /// Moves the task at `path` in its sibling list, as `direction` says:
    /// `up`, `down`, `top`, `bottom` (in any ASCII case) or an absolute
    /// position. A move that lands on its own index succeeds unchanged.
    pub fn move_task(&mut self, path: &Vec<usize>, direction: &str) -> (r: Result<bool, TmError>)
        ensures
            move_task_post(old(self)@, final(self)@, path@, direction@, r),
            healed(old(self)@) && path@.len() > 0 ==> only_cur_tasks_changed(
                old(self)@,
                final(self)@,
            ) && move_post(
                cur_tasks(old(self)@),
                path@,
                crate::tasks::dir_of_text(direction@),
                cur_tasks_in(old(self)@, final(self)@),
                r,
            ),
    {
        let ghost s0 = self@;
        if path.len() == 0 {
            return Err(TmError::NotFound);
        }
        let idx = self.heal();
        let ghost h = self@;
        let cs = chars_of_str(direction);
        let dir = crate::tasks::parse_direction(&cs);
        let ghost vec0 = self.projects@;
        let mut p = self.projects.remove(idx);
        let ghost p0 = p;
        proof {
            assert(p0@ == h.projects[idx as int]);
            assert(cur_tasks(h) == tasks_view(p0.tasks@));
        }
        let r = move_in(&mut p.tasks, path, 0, dir);
        self.projects.insert(idx, p);
        proof {
            assert(path@.skip(0) =~= path@);
            assert(self.projects@ =~= vec0.update(idx as int, p));
            assert(forall|j: int|
                0 <= j < vec0.len() && j != idx ==> self@.projects[j] == #[trigger] h.projects[j]);
            assert(self@.projects[idx as int] == p@);
            assert(only_cur_tasks_changed(h, self@));
            assert(cur_tasks_in(h, self@) == tasks_view(p.tasks@));
            assert(move_post(
                cur_tasks(h),
                path@,
                crate::tasks::dir_of_text(direction@),
                cur_tasks_in(h, self@),
                r,
            ));
            if healed(s0) {
                lemma_heal_healthy(s0, h);
            }
        }
        r
    }

    /// Removes every completed task of the current project, at every depth.
    pub fn clear_completed(&mut self)
        ensures
            clear_completed_post(old(self)@, final(self)@),
            healed(old(self)@) ==> only_cur_tasks_changed(old(self)@, final(self)@)
                && cur_tasks_in(old(self)@, final(self)@) == clear_done(cur_tasks(old(self)@)),
    {
        let ghost s0 = self@;
        let idx = self.heal();
        let ghost h = self@;
        let ghost vec0 = self.projects@;
        let p = self.projects.remove(idx);
        let ghost p0 = p;
        proof {
            assert(p0@ == h.projects[idx as int]);
            assert(cur_tasks(h) == tasks_view(p0.tasks@));
        }
        let Project { name, tasks, created_at } = p;
        let cleared = clear_done_tasks(tasks);
        let p2 = Project { name, tasks: cleared, created_at };
        self.projects.insert(idx, p2);
        proof {
            assert(self.projects@ =~= vec0.update(idx as int, p2));
            assert(forall|j: int|
                0 <= j < vec0.len() && j != idx ==> self@.projects[j] == #[trigger] h.projects[j]);
            assert(self@.projects[idx as int] == p2@);
            assert(only_cur_tasks_changed(h, self@));
            assert(cur_tasks_in(h, self@) == clear_done(cur_tasks(h)));
            if healed(s0) {
                lemma_heal_healthy(s0, h);
            }
        }
    }

    /// Empties the current project's task list unconditionally.
    pub fn clear_all(&mut self)
        ensures
            clear_all_post(old(self)@, final(self)@),
            healed(old(self)@) ==> only_cur_tasks_changed(old(self)@, final(self)@)
                && cur_tasks_in(old(self)@, final(self)@) == Seq::<TaskV>::empty(),
    {
        let ghost s0 = self@;
        let idx = self.heal();
        let ghost h = self@;
        let ghost vec0 = self.projects@;
        let p = self.projects.remove(idx);
        let ghost p0 = p;
        proof {
            assert(p0@ == h.projects[idx as int]);
        }
        let Project { name, tasks: _, created_at } = p;
        let p2 = Project { name, tasks: Vec::new(), created_at };
        self.projects.insert(idx, p2);
        proof {
            assert(self.projects@ =~= vec0.update(idx as int, p2));
            assert(forall|j: int|
                0 <= j < vec0.len() && j != idx ==> self@.projects[j] == #[trigger] h.projects[j]);
            assert(self@.projects[idx as int] == p2@);
            assert(only_cur_tasks_changed(h, self@));
            assert(cur_tasks_in(h, self@) =~= Seq::<TaskV>::empty());
            if healed(s0) {
                lemma_heal_healthy(s0, h);
            }
        }
    }

    /// Creates an empty project under a new name; the current project
    /// does not switch.
    pub fn create_project(&mut self, name: String) -> (r: Result<(), TmError>)
        ensures
            create_project_post(old(self)@, final(self)@, name@, r),
    {
        let ghost namev = name@;
        match self.find_project(&name) {
            Some(_) => Err(TmError::AlreadyExists),
            None => {
                let stamp = now_rfc3339();
                let ghost stampv = stamp@;
                let ghost pv0 = self@.projects;
                self.projects.push(Project { name, tasks: Vec::new(), created_at: stamp });
                proof {
                    let np = ProjectV { name: namev, tasks: Seq::empty(), created_at: stampv };
                    assert(self@.projects.len() == pv0.len() + 1);
                    assert(forall|j: int|
                        0 <= j < pv0.len() ==> self@.projects[j] == #[trigger] pv0[j]);
                    assert(self@.projects[pv0.len() as int].tasks =~= Seq::<TaskV>::empty());
                    assert(self@.projects[pv0.len() as int] =~= np);
                    assert(self@.projects =~= pv0.push(np));
                }
                Ok(())
            },
        }
    }

    /// Makes an existing project the current one.
    pub fn switch_project(&mut self, name: String) -> (r: Result<(), TmError>)
        ensures
            switch_project_post(old(self)@, final(self)@, name@, r),
    {
        let ghost s0 = self@;
        let ghost namev = name@;
        match self.find_project(&name) {
            Some(_) => {
                self.current_project = name;
                proof {
                    assert(self@ =~= StoreV { current_project: namev, projects: s0.projects });
                }
                Ok(())
            },
            None => Err(TmError::NotFound),
        }
    }

    /// Deletes a project by name. The `"default"` project is protected;
    /// deleting the current project makes `"default"` current.
    pub fn delete_project(&mut self, name: String) -> (r: Result<(), TmError>)
        ensures
            delete_project_post(old(self)@, final(self)@, name@, r),
    {
        let ghost s0 = self@;
        let ghost namev = name@;
        let def = "default".to_owned();
        if name == def {
            return Err(TmError::Protected);
        }
        match self.find_project(&name) {
            None => Err(TmError::NotFound),
            Some(i) => {
                let ghost pv0 = self@.projects;
                self.projects.remove(i);
                proof {
                    assert(self@.projects =~= pv0.remove(i as int));
                }
                if self.current_project == name {
                    self.current_project = "default".to_owned();
                }
                Ok(())
            },
        }
    }
}



/// Outcome of adding a task under a healed store `h`.
pub open spec fn add_task_healed(
    h: StoreV,
    s1: StoreV,
    path: Seq<usize>,
    text: Seq<char>,
    r: Result<(), TmError>,
) -> bool {
    let ts = cur_tasks(h);
    if list_path_ok(ts, path) {
        &&& r == Ok::<(), TmError>(())
        &&& only_cur_tasks_changed(h, s1)
        &&& (exists|stamp: Seq<char>|
            list_at_rel(ts, path, cur_tasks_in(h, s1), push_rel(new_task_v(text, stamp))))
    } else {
        r == Err::<(), TmError>(TmError::NotFound) && s1 == h
    }
}

/// Outcome of adding a task: the store heals first, then a fresh incomplete
/// task is appended to the list `path` addresses — the roots for the empty
/// path — exactly when the path resolves.
pub open spec fn add_task_post(
    s0: StoreV,
    s1: StoreV,
    path: Seq<usize>,
    text: Seq<char>,
    r: Result<(), TmError>,
) -> bool {
    exists|h: StoreV| #[trigger] heal_rel(s0, h) && add_task_healed(h, s1, path, text, r)
}

/// Outcome of the completion cascade under a healed store.
pub open spec fn complete_task_healed(
    h: StoreV,
    s1: StoreV,
    path: Seq<usize>,
    r: Result<(), TmError>,
) -> bool {
    let ts = cur_tasks(h);
    if list_path_ok(ts, path) {
        &&& r == Ok::<(), TmError>(())
        &&& only_cur_tasks_changed(h, s1)
        &&& task_at_rel(ts, path, cur_tasks_in(h, s1), complete_f())
    } else {
        r == Err::<(), TmError>(TmError::NotFound) && s1 == h
    }
}

/// Outcome of completing the task at `path`: every node of its subtree is
/// marked completed and stamped; an empty path never resolves.
pub open spec fn complete_task_post(
    s0: StoreV,
    s1: StoreV,
    path: Seq<usize>,
    r: Result<(), TmError>,
) -> bool {
    if path.len() == 0 {
        r == Err::<(), TmError>(TmError::NotFound) && s1 == s0
    } else {
        exists|h: StoreV| #[trigger] heal_rel(s0, h) && complete_task_healed(h, s1, path, r)
    }
}

/// Outcome of the un-completion cascade under a healed store.
pub open spec fn uncomplete_task_healed(
    h: StoreV,
    s1: StoreV,
    path: Seq<usize>,
    r: Result<(), TmError>,
) -> bool {
    let ts = cur_tasks(h);
    if list_path_ok(ts, path) {
        &&& r == Ok::<(), TmError>(())
        &&& only_cur_tasks_changed(h, s1)
        &&& task_at_rel(ts, path, cur_tasks_in(h, s1), uncomplete_f())
    } else {
        r == Err::<(), TmError>(TmError::NotFound) && s1 == h
    }
}

/// Outcome of un-completing the task at `path`.
pub open spec fn uncomplete_task_post(
    s0: StoreV,
    s1: StoreV,
    path: Seq<usize>,
    r: Result<(), TmError>,
) -> bool {
    if path.len() == 0 {
        r == Err::<(), TmError>(TmError::NotFound) && s1 == s0
    } else {
        exists|h: StoreV| #[trigger] heal_rel(s0, h) && uncomplete_task_healed(h, s1, path, r)
    }
}

/// Outcome of a deletion under a healed store.
pub open spec fn delete_task_healed(
    h: StoreV,
    s1: StoreV,
    path: Seq<usize>,
    r: Result<(), TmError>,
) -> bool {
    let ts = cur_tasks(h);
    if entry_ok(ts, path) {
        &&& r == Ok::<(), TmError>(())
        &&& only_cur_tasks_changed(h, s1)
        &&& list_at_rel(ts, path.drop_last(), cur_tasks_in(h, s1), remove_rel(path.last() as int))
    } else {
        r == Err::<(), TmError>(TmError::NotFound) && s1 == h
    }
}

/// Outcome of deleting the task at `path`, with its whole subtree.
pub open spec fn delete_task_post(
    s0: StoreV,
    s1: StoreV,
    path: Seq<usize>,
    r: Result<(), TmError>,
) -> bool {
    if path.len() == 0 {
        r == Err::<(), TmError>(TmError::NotFound) && s1 == s0
    } else {
        exists|h: StoreV| #[trigger] heal_rel(s0, h) && delete_task_healed(h, s1, path, r)
    }
}

/// Outcome of clearing completed tasks: the current project's forest is
/// filtered at every depth.
pub open spec fn clear_completed_post(s0: StoreV, s1: StoreV) -> bool {
    exists|h: StoreV|
        {
            &&& #[trigger] heal_rel(s0, h)
            &&& only_cur_tasks_changed(h, s1)
            &&& cur_tasks_in(h, s1) == clear_done(cur_tasks(h))
        }
}

/// Outcome of clearing everything: the current project's root list empties.
pub open spec fn clear_all_post(s0: StoreV, s1: StoreV) -> bool {
    exists|h: StoreV|
        {
            &&& #[trigger] heal_rel(s0, h)
            &&& only_cur_tasks_changed(h, s1)
            &&& cur_tasks_in(h, s1) == Seq::<TaskV>::empty()
        }
}

/// Outcome of a move along `path` with the direction text `dtext`.
pub open spec fn move_task_post(
    s0: StoreV,
    s1: StoreV,
    path: Seq<usize>,
    dtext: Seq<char>,
    r: Result<bool, TmError>,
) -> bool {
    if path.len() == 0 {
        r == Err::<bool, TmError>(TmError::NotFound) && s1 == s0
    } else {
        exists|h: StoreV|
            {
                &&& #[trigger] heal_rel(s0, h)
                &&& only_cur_tasks_changed(h, s1)
                &&& move_post(
                    cur_tasks(h),
                    path,
                    crate::tasks::dir_of_text(dtext),
                    cur_tasks_in(h, s1),
                    r,
                )
            }
    }
}

/// Outcome of creating a project: a name collision fails, else an empty
/// project is appended; the current project never switches.
pub open spec fn create_project_post(
    s0: StoreV,
    s1: StoreV,
    name: Seq<char>,
    r: Result<(), TmError>,
) -> bool {
    if has_proj(s0.projects, name) {
        r == Err::<(), TmError>(TmError::AlreadyExists) && s1 == s0
    } else {
        &&& r == Ok::<(), TmError>(())
        &&& s1.current_project == s0.current_project
        &&& (exists|stamp: Seq<char>|
            s1.projects == s0.projects.push(
                ProjectV { name: name, tasks: Seq::empty(), created_at: stamp },
            ))
    }
}

/// Outcome of switching projects: only an existing name is accepted.
pub open spec fn switch_project_post(
    s0: StoreV,
    s1: StoreV,
    name: Seq<char>,
    r: Result<(), TmError>,
) -> bool {
    if has_proj(s0.projects, name) {
        r == Ok::<(), TmError>(()) && s1 == StoreV { current_project: name, projects: s0.projects }
    } else {
        r == Err::<(), TmError>(TmError::NotFound) && s1 == s0
    }
}

/// Outcome of deleting a project: `"default"` is protected, a missing name
/// fails, otherwise the first project of that name goes, and the pointer
/// falls back to `"default"` when the deleted project was current.
pub open spec fn delete_project_post(
    s0: StoreV,
    s1: StoreV,
    name: Seq<char>,
    r: Result<(), TmError>,
) -> bool {
    if name == default_name() {
        r == Err::<(), TmError>(TmError::Protected) && s1 == s0
    } else if !has_proj(s0.projects, name) {
        r == Err::<(), TmError>(TmError::NotFound) && s1 == s0
    } else {
        &&& r == Ok::<(), TmError>(())
        &&& s1.projects == s0.projects.remove(proj_idx(s0.projects, name))
        &&& s1.current_project == if s0.current_project == name {
            default_name()
        } else {
            s0.current_project
        }
    }
}


/// The task list of the project named `n` (the first of that name).
pub open spec fn tasks_of_name(s: StoreV, n: Seq<char>) -> Seq<TaskV> {
    s.projects[proj_idx(s.projects, n)].tasks
}

/// `proj_idx` looks only at names: two lists that agree on every name
/// agree on every lookup.
pub proof fn lemma_proj_idx_names(ps1: Seq<ProjectV>, ps2: Seq<ProjectV>, n: Seq<char>)
    requires
        ps1.len() == ps2.len(),
        forall|j: int| 0 <= j < ps1.len() ==> (#[trigger] ps1[j]).name == ps2[j].name,
    ensures
        proj_idx(ps1, n) == proj_idx(ps2, n),
    decreases ps1.len(),
{
    if ps1.len() > 0 && ps1[0].name != n {
        assert(forall|j: int|
            0 <= j < ps1.drop_first().len() ==> (#[trigger] ps1.drop_first()[j]).name
                == ps2.drop_first()[j].name) by {
            assert(forall|j: int|
                0 <= j < ps1.drop_first().len() ==> ps1.drop_first()[j] == ps1[j + 1]
                    && ps2.drop_first()[j] == ps2[j + 1]);
        }
        lemma_proj_idx_names(ps1.drop_first(), ps2.drop_first(), n);
    }
}

/// Project isolation: a task added under the current project is invisible
/// from every other project — the task list seen under any other name is
/// exactly what it was before the addition.
pub proof fn lemma_project_isolation(
    h: StoreV,
    s1: StoreV,
    path: Seq<usize>,
    text: Seq<char>,
    other: Seq<char>,
)
    requires
        healed(h),
        add_task_healed(h, s1, path, text, Ok::<(), TmError>(())),
        other != h.current_project,
        has_proj(h.projects, other),
    ensures
        tasks_of_name(s1, other) == tasks_of_name(h, other),
{
    let cur = proj_idx(h.projects, h.current_project);
    lemma_proj_idx(h.projects, h.current_project);
    lemma_proj_idx(h.projects, other);
    let k = proj_idx(h.projects, other);
    assert(h.projects[k].name == other);
    assert(h.projects[cur].name == h.current_project);
    assert(k != cur);
    assert(forall|j: int|
        0 <= j < h.projects.len() ==> (#[trigger] h.projects[j]).name == s1.projects[j].name);
    lemma_proj_idx_names(h.projects, s1.projects, other);
    assert(s1.projects[k] == h.projects[k]);
}

} // verus!
