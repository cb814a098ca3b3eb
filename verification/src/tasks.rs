//! Recursive operations on task forests: path resolution, the completion
//! cascade and its inverse, subtree deletion, sibling swaps and the
//! clear-completed filter, each with an exact mathematical description.

use vstd::prelude::*;

use crate::clock::now_rfc3339;
use crate::errors::TmError;
use crate::model::{lemma_tasks_view, task_view, tasks_view, Task, TaskV};

verus! {

/// The value of a freshly added task: incomplete, no subtasks.
pub open spec fn new_task_v(text: Seq<char>, stamp: Seq<char>) -> TaskV {
    TaskV {
        text: text,
        completed: false,
        created_at: stamp,
        completed_at: None,
        subtasks: Seq::empty(),
    }
}

/// `b` is `a` with the whole subtree marked completed; every node keeps its
/// text, creation time and shape, turns `completed` on and carries some
/// completion stamp.
pub open spec fn complete_rel(a: TaskV, b: TaskV) -> bool
    decreases a,
{
    &&& b.text == a.text
    &&& b.completed == true
    &&& b.created_at == a.created_at
    &&& b.completed_at is Some
    &&& b.subtasks.len() == a.subtasks.len()
    &&& (forall|i: int|
        0 <= i < a.subtasks.len() ==> complete_rel(#[trigger] a.subtasks[i], b.subtasks[i]))
}

/// `b` is `a` with the whole subtree marked incomplete: the structural
/// inverse of the completion cascade.
pub open spec fn uncomplete_rel(a: TaskV, b: TaskV) -> bool
    decreases a,
{
    &&& b.text == a.text
    &&& b.completed == false
    &&& b.created_at == a.created_at
    &&& b.completed_at is None
    &&& b.subtasks.len() == a.subtasks.len()
    &&& (forall|i: int|
        0 <= i < a.subtasks.len() ==> uncomplete_rel(#[trigger] a.subtasks[i], b.subtasks[i]))
}

/// Every index of `path` is in bounds when descending through `ts`;
/// the empty path trivially resolves (to the list `ts` itself).
pub open spec fn list_path_ok(ts: Seq<TaskV>, path: Seq<usize>) -> bool
    decreases path.len(),
{
    path.len() == 0 || {
        &&& (path[0] as int) < ts.len()
        &&& list_path_ok(ts[path[0] as int].subtasks, path.drop_first())
    }
}

/// The task list reached by descending `path`; meaningful when
/// `list_path_ok(ts, path)` holds.
pub open spec fn list_at(ts: Seq<TaskV>, path: Seq<usize>) -> Seq<TaskV>
    decreases path.len(),
{
    if path.len() == 0 {
        ts
    } else {
        list_at(ts[path[0] as int].subtasks, path.drop_first())
    }
}

/// A task exists at `path`: the path is nonempty and every index in bounds.
pub open spec fn task_exists(ts: Seq<TaskV>, path: Seq<usize>) -> bool {
    path.len() > 0 && list_path_ok(ts, path)
}

/// The task at a nonempty, resolvable `path`.
pub open spec fn task_at(ts: Seq<TaskV>, path: Seq<usize>) -> TaskV
    decreases path.len(),
{
    if path.len() <= 1 {
        ts[if path.len() == 1 {
            path[0] as int
        } else {
            0
        }]
    } else {
        task_at(ts[path[0] as int].subtasks, path.drop_first())
    }
}

/// `ys` is `xs` with the list reached by `path` rewritten as `r` allows,
/// and everything else — every sibling on the way down and every field of
/// the nodes descended through — unchanged.
pub open spec fn list_at_rel(
    xs: Seq<TaskV>,
    path: Seq<usize>,
    ys: Seq<TaskV>,
    r: spec_fn(Seq<TaskV>, Seq<TaskV>) -> bool,
) -> bool
    decreases path.len(),
{
    if path.len() == 0 {
        r(xs, ys)
    } else {
        let i = path[0] as int;
        &&& i < xs.len()
        &&& ys.len() == xs.len()
        &&& (forall|j: int| 0 <= j < xs.len() && j != i ==> #[trigger] ys[j] == xs[j])
        &&& ys[i].text == xs[i].text
        &&& ys[i].completed == xs[i].completed
        &&& ys[i].created_at == xs[i].created_at
        &&& ys[i].completed_at == xs[i].completed_at
        &&& list_at_rel(xs[i].subtasks, path.drop_first(), ys[i].subtasks, r)
    }
}

/// `ys` is `xs` with the task at the nonempty `path` rewritten as `r`
/// allows, and everything else unchanged.
pub open spec fn task_at_rel(
    xs: Seq<TaskV>,
    path: Seq<usize>,
    ys: Seq<TaskV>,
    r: spec_fn(TaskV, TaskV) -> bool,
) -> bool
    decreases path.len(),
{
    if path.len() == 0 {
        false
    } else {
        let i = path[0] as int;
        &&& i < xs.len()
        &&& ys.len() == xs.len()
        &&& (forall|j: int| 0 <= j < xs.len() && j != i ==> #[trigger] ys[j] == xs[j])
        &&& if path.len() == 1 {
            r(xs[i], ys[i])
        } else {
            &&& ys[i].text == xs[i].text
            &&& ys[i].completed == xs[i].completed
            &&& ys[i].created_at == xs[i].created_at
            &&& ys[i].completed_at == xs[i].completed_at
            &&& task_at_rel(xs[i].subtasks, path.drop_first(), ys[i].subtasks, r)
        }
    }
}

/// The clear-completed filter: completed tasks vanish with their whole
/// subtree; an incomplete task stays, filtered recursively.
pub open spec fn clear_done(ts: Seq<TaskV>) -> Seq<TaskV>
    decreases ts,
{
    if ts.len() == 0 {
        Seq::empty()
    } else {
        let rest = clear_done(ts.drop_first());
        if ts[0].completed {
            rest
        } else {
            seq![clear_done_task(ts[0])] + rest
        }
    }
}

/// An incomplete task kept by the filter: same node, filtered subtasks.
pub open spec fn clear_done_task(t: TaskV) -> TaskV
    decreases t,
{
    TaskV { subtasks: clear_done(t.subtasks), ..t }
}

/// The rewrite a task addition performs on the list it lands in.
pub open spec fn push_rel(t: TaskV) -> spec_fn(Seq<TaskV>, Seq<TaskV>) -> bool {
    |l: Seq<TaskV>, l2: Seq<TaskV>| l2 == l.push(t)
}

/// The rewrite a deletion performs: the entry at `i` goes, with its subtree.
pub open spec fn remove_rel(i: int) -> spec_fn(Seq<TaskV>, Seq<TaskV>) -> bool {
    |l: Seq<TaskV>, l2: Seq<TaskV>| l2 == l.remove(i)
}

/// The rewrite a move performs: the entries at `i` and `j` trade places.
pub open spec fn swap_rel(i: int, j: int) -> spec_fn(Seq<TaskV>, Seq<TaskV>) -> bool {
    |l: Seq<TaskV>, l2: Seq<TaskV>| l2 == l.update(i, l[j]).update(j, l[i])
}

/// The completion cascade as a node rewrite.
pub open spec fn complete_f() -> spec_fn(TaskV, TaskV) -> bool {
    |a: TaskV, b: TaskV| complete_rel(a, b)
}

/// The un-completion cascade as a node rewrite.
pub open spec fn uncomplete_f() -> spec_fn(TaskV, TaskV) -> bool {
    |a: TaskV, b: TaskV| uncomplete_rel(a, b)
}

/// A nonempty `path` addresses an entry of the list reached by its prefix:
/// every prefix index resolves and the last index is in bounds there.
pub open spec fn entry_ok(ts: Seq<TaskV>, path: Seq<usize>) -> bool {
    &&& path.len() > 0
    &&& list_path_ok(ts, path.drop_last())
    &&& (path.last() as int) < list_at(ts, path.drop_last()).len()
}

/// Both views of an updated task list, element by element.
proof fn lemma_update_views(s: Seq<Task>, i: int, x: Task)
    requires
        0 <= i < s.len(),
    ensures
        tasks_view(s).len() == s.len(),
        tasks_view(s.update(i, x)).len() == s.len(),
        forall|j: int|
            0 <= j < s.len() && j != i ==> tasks_view(s.update(i, x))[j] == #[trigger] tasks_view(
                s,
            )[j],
        tasks_view(s.update(i, x))[i] == task_view(x),
        forall|j: int| 0 <= j < s.len() ==> tasks_view(s)[j] == task_view(#[trigger] s[j]),
{
    lemma_tasks_view(s);
    lemma_tasks_view(s.update(i, x));
}

/// Marks `t` and every descendant completed, stamping each node with its own
/// completion time.
pub fn complete_tree(t: Task) -> (r: Task)
    ensures
        complete_rel(t@, r@),
    decreases t,
{
    let ghost t0 = t;
    let Task { text, completed: _, created_at, completed_at: _, subtasks } = t;
    let ghost subs0 = subtasks@;
    let mut rest = subtasks;
    let mut done: Vec<Task> = Vec::new();
    #[verifier::loop_isolation(false)]
    while rest.len() > 0
        invariant
            subs0 == t0.subtasks@,
            done@.len() + rest@.len() == subs0.len(),
            rest@ =~= subs0.skip(done@.len() as int),
            forall|k: int|
                0 <= k < done@.len() ==> complete_rel(
                    task_view(#[trigger] subs0[k]),
                    task_view(done@[k]),
                ),
        decreases rest@.len(),
    {
        let ghost k = done@.len() as int;
        let s = rest.remove(0);
        proof {
            assert(s == subs0[k]);
            assert(rest@ =~= subs0.skip(k + 1));
            assert(decreases_to!(t0 => t0.subtasks));
            assert(decreases_to!(t0 => s));
        }
        let s2 = complete_tree(s);
        done.push(s2);
    }
    let stamp = now_rfc3339();
    let r = Task {
        text,
        completed: true,
        created_at,
        completed_at: Some(stamp),
        subtasks: done,
    };
    proof {
        lemma_tasks_view(subs0);
        lemma_tasks_view(r.subtasks@);
        assert(complete_rel(task_view(t0), task_view(r)));
    }
    r
}

/// Marks `t` and every descendant incomplete and clears their stamps.
pub fn uncomplete_tree(t: Task) -> (r: Task)
    ensures
        uncomplete_rel(t@, r@),
    decreases t,
{
    let ghost t0 = t;
    let Task { text, completed: _, created_at, completed_at: _, subtasks } = t;
    let ghost subs0 = subtasks@;
    let mut rest = subtasks;
    let mut done: Vec<Task> = Vec::new();
    #[verifier::loop_isolation(false)]
    while rest.len() > 0
        invariant
            subs0 == t0.subtasks@,
            done@.len() + rest@.len() == subs0.len(),
            rest@ =~= subs0.skip(done@.len() as int),
            forall|k: int|
                0 <= k < done@.len() ==> uncomplete_rel(
                    task_view(#[trigger] subs0[k]),
                    task_view(done@[k]),
                ),
        decreases rest@.len(),
    {
        let ghost k = done@.len() as int;
        let s = rest.remove(0);
        proof {
            assert(s == subs0[k]);
            assert(rest@ =~= subs0.skip(k + 1));
            assert(decreases_to!(t0 => t0.subtasks));
            assert(decreases_to!(t0 => s));
        }
        let s2 = uncomplete_tree(s);
        done.push(s2);
    }
    let r = Task { text, completed: false, created_at, completed_at: None, subtasks: done };
    proof {
        lemma_tasks_view(subs0);
        lemma_tasks_view(r.subtasks@);
        assert(uncomplete_rel(task_view(t0), task_view(r)));
    }
    r
}

/// Appends `new_task` to the list addressed by the whole of `path[pos..]`:
/// the root list when that suffix is empty, else the subtasks of the task
/// the suffix resolves to. Reports whether the suffix resolved; nothing
/// changes when it does not.
pub fn add_in(tasks: &mut Vec<Task>, path: &Vec<usize>, pos: usize, new_task: Task) -> (found:
    bool)
    requires
        pos <= path@.len(),
    ensures
        found == list_path_ok(tasks_view(old(tasks)@), path@.skip(pos as int)),
        found ==> list_at_rel(
            tasks_view(old(tasks)@),
            path@.skip(pos as int),
            tasks_view(final(tasks)@),
            push_rel(task_view(new_task)),
        ),
        !found ==> tasks_view(final(tasks)@) == tasks_view(old(tasks)@),
    decreases path@.len() - pos,
{
    let ghost sp = path@.skip(pos as int);
    if pos == path.len() {
        let ghost v0 = tasks@;
        tasks.push(new_task);
        proof {
            lemma_tasks_view(v0);
            lemma_tasks_view(tasks@);
            assert(tasks_view(tasks@) =~= tasks_view(v0).push(task_view(new_task))) by {
                assert(forall|j: int| 0 <= j < v0.len() ==> tasks@[j] == v0[j]);
            }
            assert(sp.len() == 0);
        }
        return true;
    }
    let i = path[pos];
    proof {
        assert(sp[0] == path@[pos as int]);
        lemma_tasks_view(tasks@);
    }
    if i >= tasks.len() {
        return false;
    }
    let ghost v0 = tasks@;
    let mut t = tasks.remove(i);
    let ghost t0 = t;
    let found = add_in(&mut t.subtasks, path, pos + 1, new_task);
    tasks.insert(i, t);
    proof {
        assert(tasks@ =~= v0.update(i as int, t));
        assert(sp.drop_first() =~= path@.skip(pos + 1));
        lemma_update_views(v0, i as int, t);
        assert(tasks_view(v0)[i as int].subtasks == tasks_view(t0.subtasks@)) by {
            assert(t0 == v0[i as int]);
        }
        if !found {
            assert(tasks_view(t.subtasks@) == tasks_view(t0.subtasks@));
            assert(task_view(t) =~= task_view(t0));
            assert(tasks_view(tasks@) =~= tasks_view(v0));
        }
    }
    found
}

/// Applies the completion cascade to the task addressed by `path[pos..]`.
/// Reports whether the path resolved; nothing changes when it does not.
pub fn complete_in(tasks: &mut Vec<Task>, path: &Vec<usize>, pos: usize) -> (found: bool)
    requires
        pos < path@.len(),
    ensures
        found == list_path_ok(tasks_view(old(tasks)@), path@.skip(pos as int)),
        found ==> task_at_rel(
            tasks_view(old(tasks)@),
            path@.skip(pos as int),
            tasks_view(final(tasks)@),
            complete_f(),
        ),
        !found ==> tasks_view(final(tasks)@) == tasks_view(old(tasks)@),
    decreases path@.len() - pos,
{
    let ghost sp = path@.skip(pos as int);
    let n = path.len();
    let i = path[pos];
    proof {
        assert(sp[0] == path@[pos as int]);
        lemma_tasks_view(tasks@);
    }
    if i >= tasks.len() {
        return false;
    }
    let ghost v0 = tasks@;
    let mut t = tasks.remove(i);
    let ghost t0 = t;
    let found: bool;
    if pos + 1 == n {
        t = complete_tree(t);
        found = true;
        proof {
            assert(sp.len() == 1);
            assert(list_path_ok(tasks_view(t0.subtasks@), sp.drop_first()));
        }
    } else {
        found = complete_in(&mut t.subtasks, path, pos + 1);
    }
    tasks.insert(i, t);
    proof {
        assert(tasks@ =~= v0.update(i as int, t));
        assert(sp.drop_first() =~= path@.skip(pos + 1));
        lemma_update_views(v0, i as int, t);
        assert(tasks_view(v0)[i as int].subtasks == tasks_view(t0.subtasks@)) by {
            assert(t0 == v0[i as int]);
        }
        if !found {
            assert(tasks_view(t.subtasks@) == tasks_view(t0.subtasks@));
            assert(task_view(t) =~= task_view(t0));
            assert(tasks_view(tasks@) =~= tasks_view(v0));
        }
    }
    found
}

/// Applies the un-completion cascade to the task addressed by `path[pos..]`.
pub fn uncomplete_in(tasks: &mut Vec<Task>, path: &Vec<usize>, pos: usize) -> (found: bool)
    requires
        pos < path@.len(),
    ensures
        found == list_path_ok(tasks_view(old(tasks)@), path@.skip(pos as int)),
        found ==> task_at_rel(
            tasks_view(old(tasks)@),
            path@.skip(pos as int),
            tasks_view(final(tasks)@),
            uncomplete_f(),
        ),
        !found ==> tasks_view(final(tasks)@) == tasks_view(old(tasks)@),
    decreases path@.len() - pos,
{
    let ghost sp = path@.skip(pos as int);
    let n = path.len();
    let i = path[pos];
    proof {
        assert(sp[0] == path@[pos as int]);
        lemma_tasks_view(tasks@);
    }
    if i >= tasks.len() {
        return false;
    }
    let ghost v0 = tasks@;
    let mut t = tasks.remove(i);
    let ghost t0 = t;
    let found: bool;
    if pos + 1 == n {
        t = uncomplete_tree(t);
        found = true;
        proof {
            assert(sp.len() == 1);
            assert(list_path_ok(tasks_view(t0.subtasks@), sp.drop_first()));
        }
    } else {
        found = uncomplete_in(&mut t.subtasks, path, pos + 1);
    }
    tasks.insert(i, t);
    proof {
        assert(tasks@ =~= v0.update(i as int, t));
        assert(sp.drop_first() =~= path@.skip(pos + 1));
        lemma_update_views(v0, i as int, t);
        assert(tasks_view(v0)[i as int].subtasks == tasks_view(t0.subtasks@)) by {
            assert(t0 == v0[i as int]);
        }
        if !found {
            assert(tasks_view(t.subtasks@) == tasks_view(t0.subtasks@));
            assert(task_view(t) =~= task_view(t0));
            assert(tasks_view(tasks@) =~= tasks_view(v0));
        }
    }
    found
}

/// Removes the task addressed by `path[pos..]`, together with its whole
/// subtree. Reports whether that entry existed; nothing changes otherwise.
pub fn delete_in(tasks: &mut Vec<Task>, path: &Vec<usize>, pos: usize) -> (found: bool)
    requires
        pos < path@.len(),
    ensures
        found == entry_ok(tasks_view(old(tasks)@), path@.skip(pos as int)),
        found ==> list_at_rel(
            tasks_view(old(tasks)@),
            path@.skip(pos as int).drop_last(),
            tasks_view(final(tasks)@),
            remove_rel(path@.last() as int),
        ),
        !found ==> tasks_view(final(tasks)@) == tasks_view(old(tasks)@),
    decreases path@.len() - pos,
{
    let ghost sp = path@.skip(pos as int);
    let n = path.len();
    let i = path[pos];
    proof {
        assert(sp[0] == path@[pos as int]);
        lemma_tasks_view(tasks@);
    }
    if pos + 1 == n {
        proof {
            assert(sp.len() == 1);
            assert(sp.drop_last() =~= Seq::<usize>::empty());
            assert(sp.last() == path@.last());
        }
        if i < tasks.len() {
            let ghost v0 = tasks@;
            tasks.remove(i);
            proof {
                lemma_tasks_view(v0);
                lemma_tasks_view(tasks@);
                assert(tasks_view(tasks@) =~= tasks_view(v0).remove(i as int)) by {
                    assert(tasks@ =~= v0.remove(i as int));
                    assert(forall|j: int|
                        0 <= j < tasks@.len() ==> tasks@[j] == v0.remove(i as int)[j]);
                }
            }
            return true;
        } else {
            return false;
        }
    }
    if i >= tasks.len() {
        proof {
            assert(sp.drop_last()[0] == sp[0]);
        }
        return false;
    }
    let ghost v0 = tasks@;
    let mut t = tasks.remove(i);
    let ghost t0 = t;
    let found = delete_in(&mut t.subtasks, path, pos + 1);
    tasks.insert(i, t);
    proof {
        assert(tasks@ =~= v0.update(i as int, t));
        lemma_update_views(v0, i as int, t);
        assert(tasks_view(v0)[i as int].subtasks == tasks_view(t0.subtasks@)) by {
            assert(t0 == v0[i as int]);
        }
        assert(sp.drop_last()[0] == sp[0]);
        assert(sp.drop_last().drop_first() =~= path@.skip(pos + 1).drop_last());
        assert(sp.drop_first() =~= path@.skip(pos + 1));
        assert(sp.last() == path@.skip(pos + 1).last());
        if !found {
            assert(tasks_view(t.subtasks@) == tasks_view(t0.subtasks@));
            assert(task_view(t) =~= task_view(t0));
            assert(tasks_view(tasks@) =~= tasks_view(v0));
        }
    }
    found
}


/// A move direction: the four keywords, or an absolute position.
#[derive(Clone, Copy, Debug, PartialEq, Eq, Structural)]
pub enum MoveDir {
    Up,
    Down,
    Top,
    Bottom,
    To(usize),
}

/// Where a move sends the entry at `i` of a list of length `len`:
/// `None` when the direction does not yield a position inside the list
/// (already at the boundary, or an out-of-range absolute position).
pub open spec fn move_target(d: MoveDir, i: int, len: int) -> Option<int> {
    match d {
        MoveDir::Up => if i == 0 {
            None
        } else {
            Some(i - 1)
        },
        MoveDir::Down => if i >= len - 1 {
            None
        } else {
            Some(i + 1)
        },
        MoveDir::Top => if i == 0 {
            None
        } else {
            Some(0)
        },
        MoveDir::Bottom => if i >= len - 1 {
            None
        } else {
            Some(len - 1)
        },
        MoveDir::To(p) => if p as int >= len {
            None
        } else {
            Some(p as int)
        },
    }
}

/// Where a move sends the entry, with `None` standing for a direction
/// that was not recognised at all.
pub open spec fn move_target_opt(d: Option<MoveDir>, i: int, len: int) -> Option<int> {
    match d {
        Option::None => None,
        Option::Some(d) => move_target(d, i, len),
    }
}

/// The complete outcome of a move along the nonempty path `p`: which error
/// comes back on which input, when the store is left untouched, and the
/// exact two-entry swap performed on success. A direction of `None` (one
/// that did not parse) is reported only after the path has resolved, as
/// `InvalidDirection`.
pub open spec fn move_post(
    xs: Seq<TaskV>,
    p: Seq<usize>,
    d: Option<MoveDir>,
    ys: Seq<TaskV>,
    r: Result<bool, TmError>,
) -> bool {
    let parent = p.drop_last();
    let i = p.last() as int;
    if !list_path_ok(xs, parent) || i >= list_at(xs, parent).len() {
        r == Err::<bool, TmError>(TmError::NotFound) && ys == xs
    } else {
        let len = list_at(xs, parent).len() as int;
        match move_target_opt(d, i, len) {
            Option::None => r == Err::<bool, TmError>(TmError::InvalidDirection) && ys == xs,
            Option::Some(t) => if t == i {
                r == Ok::<bool, TmError>(false) && ys == xs
            } else {
                r == Ok::<bool, TmError>(true) && list_at_rel(xs, parent, ys, swap_rel(i, t))
            },
        }
    }
}

/// Exchanges the entries at `a` and `b`.
fn swap_tasks(tasks: &mut Vec<Task>, a: usize, b: usize)
    requires
        a < b < old(tasks)@.len(),
    ensures
        final(tasks)@ == old(tasks)@.update(a as int, old(tasks)@[b as int]).update(
            b as int,
            old(tasks)@[a as int],
        ),
{
    let ghost v0 = tasks@;
    let x = tasks.remove(a);
    let y = tasks.remove(b - 1);
    tasks.insert(b - 1, x);
    tasks.insert(a, y);
    proof {
        assert(tasks@ =~= v0.update(a as int, v0[b as int]).update(b as int, v0[a as int]));
    }
}

/// Moves the entry addressed by `path[pos..]` as `dir` demands, by swapping
/// it with the entry at the target position.
pub fn move_in(tasks: &mut Vec<Task>, path: &Vec<usize>, pos: usize, dir: Option<MoveDir>) -> (r:
    Result<bool, TmError>)
    requires
        pos < path@.len(),
    ensures
        move_post(
            tasks_view(old(tasks)@),
            path@.skip(pos as int),
            dir,
            tasks_view(final(tasks)@),
            r,
        ),
    decreases path@.len() - pos,
{
    let ghost sp = path@.skip(pos as int);
    let n = path.len();
    let i = path[pos];
    proof {
        assert(sp[0] == path@[pos as int]);
        lemma_tasks_view(tasks@);
    }
    if pos + 1 == n {
        proof {
            assert(sp.len() == 1);
            assert(sp.drop_last() =~= Seq::<usize>::empty());
            assert(sp.last() == sp[0]);
        }
        let len = tasks.len();
        if i >= len {
            return Err(TmError::NotFound);
        }
        let d = match dir {
            Some(d) => d,
            None => {
                return Err(TmError::InvalidDirection);
            },
        };
        let tgt: usize = match d {
            MoveDir::Up => {
                if i == 0 {
                    return Err(TmError::InvalidDirection);
                }
                i - 1
            },
            MoveDir::Down => {
                if i >= len - 1 {
                    return Err(TmError::InvalidDirection);
                }
                i + 1
            },
            MoveDir::Top => {
                if i == 0 {
                    return Err(TmError::InvalidDirection);
                }
                0
            },
            MoveDir::Bottom => {
                if i >= len - 1 {
                    return Err(TmError::InvalidDirection);
                }
                len - 1
            },
            MoveDir::To(p) => {
                if p >= len {
                    return Err(TmError::InvalidDirection);
                }
                p
            },
        };
        if tgt == i {
            return Ok(false);
        }
        let a = if i < tgt {
            i
        } else {
            tgt
        };
        let b = if i < tgt {
            tgt
        } else {
            i
        };
        let ghost v0 = tasks@;
        swap_tasks(tasks, a, b);
        proof {
            lemma_tasks_view(v0);
            lemma_tasks_view(tasks@);
            let xsv = tasks_view(v0);
            let ysv = tasks_view(tasks@);
            assert(ysv =~= xsv.update(i as int, xsv[tgt as int]).update(
                tgt as int,
                xsv[i as int],
            ));
        }
        return Ok(true);
    }
    proof {
        assert(sp.len() >= 2);
        assert(sp.drop_last()[0] == sp[0]);
        assert(sp.drop_last().drop_first() =~= path@.skip(pos + 1).drop_last());
        assert(sp.last() == path@.skip(pos + 1).last());
    }
    if i >= tasks.len() {
        return Err(TmError::NotFound);
    }
    let ghost v0 = tasks@;
    let mut t = tasks.remove(i);
    let ghost t0 = t;
    let r = move_in(&mut t.subtasks, path, pos + 1, dir);
    tasks.insert(i, t);
    proof {
        assert(tasks@ =~= v0.update(i as int, t));
        lemma_update_views(v0, i as int, t);
        assert(tasks_view(v0)[i as int].subtasks == tasks_view(t0.subtasks@)) by {
            assert(t0 == v0[i as int]);
        }
        if !(r is Ok && r->Ok_0 == true) {
            assert(tasks_view(t.subtasks@) == tasks_view(t0.subtasks@));
            assert(task_view(t) =~= task_view(t0));
            assert(tasks_view(tasks@) =~= tasks_view(v0));
        }
    }
    r
}

/// Removes every completed task, at every depth, keeping the order of what
/// stays; a removed task takes its whole subtree with it.
pub fn clear_done_tasks(tasks: Vec<Task>) -> (r: Vec<Task>)
    ensures
        tasks_view(r@) == clear_done(tasks_view(tasks@)),
    decreases tasks,
{
    let ghost v0 = tasks;
    let mut rest = tasks;
    let mut out: Vec<Task> = Vec::new();
    let ghost mut k: int = 0;
    #[verifier::loop_isolation(false)]
    while rest.len() > 0
        invariant
            0 <= k <= v0@.len(),
            rest@ =~= v0@.skip(k),
            tasks_view(out@) + clear_done(tasks_view(rest@)) =~= clear_done(tasks_view(v0@)),
        decreases rest@.len(),
    {
        let ghost rpre = rest@;
        let t = rest.remove(0);
        proof {
            assert(t == rpre[0]);
            assert(rpre.drop_first() =~= rest@);
            lemma_tasks_view(rpre);
            assert(tasks_view(rpre) =~= seq![task_view(t)] + tasks_view(rest@)) by {
                lemma_tasks_view(rest@);
            }
        }
        proof {
            let ts = tasks_view(rpre);
            assert(ts[0] == task_view(t));
            assert(ts.drop_first() =~= tasks_view(rest@));
            assert(clear_done(ts) == (if task_view(t).completed {
                clear_done(tasks_view(rest@))
            } else {
                seq![clear_done_task(task_view(t))] + clear_done(tasks_view(rest@))
            }));
        }
        if !t.completed {
            let ghost tv = task_view(t);
            proof {
                assert(decreases_to!(v0 => t.subtasks));
            }
            let Task { text, completed, created_at, completed_at, subtasks } = t;
            let cleaned = clear_done_tasks(subtasks);
            let nt = Task { text, completed, created_at, completed_at, subtasks: cleaned };
            proof {
                assert(task_view(nt) =~= clear_done_task(tv));
            }
            let ghost outpre = out@;
            out.push(nt);
            proof {
                crate::model::lemma_tasks_view_push(outpre, nt);
                assert(tasks_view(out@) =~= tasks_view(outpre).push(clear_done_task(tv)));
                assert(tasks_view(out@) + clear_done(tasks_view(rest@)) =~= tasks_view(outpre)
                    + clear_done(tasks_view(rpre)));
                assert(tasks_view(out@) + clear_done(tasks_view(rest@)) =~= clear_done(
                    tasks_view(v0@),
                ));
            }
        } else {
            proof {
                assert(clear_done(tasks_view(rest@)) == clear_done(tasks_view(rpre)));
                assert(tasks_view(out@) + clear_done(tasks_view(rest@)) =~= clear_done(
                    tasks_view(v0@),
                ));
            }
        }
        proof {
            k = k + 1;
        }
    }
    proof {
        assert(tasks_view(rest@) =~= Seq::<TaskV>::empty());
        assert(tasks_view(out@) =~= clear_done(tasks_view(v0@)));
    }
    out
}


/// ASCII lower-casing of one character; everything else is untouched.
pub open spec fn lower_char(c: char) -> char {
    if 65 <= c as u32 && c as u32 <= 90 {
        ((c as u32 + 32) as u8) as char
    } else {
        c
    }
}

/// ASCII lower-casing of a string, character by character.
pub open spec fn ascii_lower(s: Seq<char>) -> Seq<char> {
    Seq::new(s.len(), |i: int| lower_char(s[i]))
}

/// Which move a direction string denotes: one of the four keywords, read
/// without regard to ASCII case, else an absolute position read the way
/// `str::parse::<usize>` reads it.
pub open spec fn dir_of_text(s: Seq<char>) -> Option<MoveDir> {
    let l = ascii_lower(s);
    if l == "up"@ {
        Some(MoveDir::Up)
    } else if l == "down"@ {
        Some(MoveDir::Down)
    } else if l == "top"@ {
        Some(MoveDir::Top)
    } else if l == "bottom"@ {
        Some(MoveDir::Bottom)
    } else {
        match crate::util::parse_usize_v(s) {
            Some(p) => Some(MoveDir::To(p)),
            None => None,
        }
    }
}

/// Reads a direction string into a move, or `None` when it is neither a
/// keyword nor a position.
pub fn parse_direction(cs: &Vec<char>) -> (r: Option<MoveDir>)
    ensures
        r == dir_of_text(cs@),
{
    let mut lc: Vec<char> = Vec::new();
    let mut i: usize = 0;
    while i < cs.len()
        invariant
            0 <= i <= cs@.len(),
            lc@.len() == i,
            forall|j: int| 0 <= j < i ==> lc@[j] == lower_char(cs@[j]),
        decreases cs@.len() - i,
    {
        let c = cs[i];
        let cu = c as u32;
        if 65 <= cu && cu <= 90 {
            let cu8: u8 = (cu + 32) as u8;
            let lowered = cu8 as char;
            proof {
                assert(lowered == lower_char(cs@[i as int]));
            }
            lc.push(lowered);
        } else {
            lc.push(c);
        }
        i = i + 1;
    }
    proof {
        assert(lc@ =~= ascii_lower(cs@));
    }
    let up = crate::util::chars_of_str("up");
    if crate::util::chars_eq(&lc, &up) {
        return Some(MoveDir::Up);
    }
    let down = crate::util::chars_of_str("down");
    if crate::util::chars_eq(&lc, &down) {
        return Some(MoveDir::Down);
    }
    let top = crate::util::chars_of_str("top");
    if crate::util::chars_eq(&lc, &top) {
        return Some(MoveDir::Top);
    }
    let bottom = crate::util::chars_of_str("bottom");
    if crate::util::chars_eq(&lc, &bottom) {
        return Some(MoveDir::Bottom);
    }
    match crate::util::parse_usize(cs) {
        Some(p) => Some(MoveDir::To(p)),
        None => None,
    }
}


/// Resolves `path[pos..]` to the task it addresses, or `None` when some
/// index is out of bounds.
pub fn find_in<'a>(tasks: &'a Vec<Task>, path: &Vec<usize>, pos: usize) -> (r: Option<&'a Task>)
    requires
        pos < path@.len(),
    ensures
        match r {
            Some(t) => {
                &&& list_path_ok(tasks_view(tasks@), path@.skip(pos as int))
                &&& t@ == task_at(tasks_view(tasks@), path@.skip(pos as int))
            },
            None => !list_path_ok(tasks_view(tasks@), path@.skip(pos as int)),
        },
    decreases path@.len() - pos,
{
    let ghost sp = path@.skip(pos as int);
    let n = path.len();
    let i = path[pos];
    proof {
        assert(sp[0] == path@[pos as int]);
        lemma_tasks_view(tasks@);
    }
    if i >= tasks.len() {
        return None;
    }
    let t = &tasks[i];
    if pos + 1 == n {
        proof {
            assert(sp.len() == 1);
            assert(list_path_ok(tasks_view(t.subtasks@), sp.drop_first()));
            assert(tasks_view(tasks@)[i as int] == task_view(tasks@[i as int]));
        }
        Some(t)
    } else {
        proof {
            assert(sp.drop_first() =~= path@.skip(pos + 1));
            assert(tasks_view(tasks@)[i as int].subtasks == tasks_view(t.subtasks@));
        }
        find_in(&t.subtasks, path, pos + 1)
    }
}


/// A subtree in which nothing is completed and no stamp is set.
pub open spec fn all_incomplete(t: TaskV) -> bool
    decreases t,
{
    &&& t.completed == false
    &&& t.completed_at is None
    &&& (forall|i: int| 0 <= i < t.subtasks.len() ==> all_incomplete(#[trigger] t.subtasks[i]))
}

/// The un-completion cascade is the structural inverse of the completion
/// cascade: completing an incomplete subtree and then un-completing it
/// restores every node exactly.
pub proof fn lemma_uncomplete_reverses_complete(a: TaskV, b: TaskV, c: TaskV)
    requires
        all_incomplete(a),
        complete_rel(a, b),
        uncomplete_rel(b, c),
    ensures
        c == a,
    decreases a,
{
    assert forall|i: int| 0 <= i < a.subtasks.len() implies #[trigger] c.subtasks[i]
        == a.subtasks[i] by {
        lemma_uncomplete_reverses_complete(a.subtasks[i], b.subtasks[i], c.subtasks[i]);
    }
    assert(c.subtasks =~= a.subtasks);
    assert(c =~= a);
}

} // verus!
