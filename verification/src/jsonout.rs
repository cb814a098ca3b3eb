//! Rendering the store as pretty-printed JSON: an exact character-level
//! description of the persisted text, and the writer that produces it.

use vstd::prelude::*;

use crate::model::{Project, ProjectStore, ProjectV, StoreV, Task, TaskV};
use crate::util::{chars_of_str, string_from_chars};

verus! {

/// `n` spaces.
pub open spec fn spaces(n: int) -> Seq<char> {
    Seq::new(
        if n < 0 {
            0
        } else {
            n as nat
        },
        |i: int| ' ',
    )
}

/// A line break followed by the indentation of depth `d`.
pub open spec fn nl_ind(d: int) -> Seq<char> {
    seq!['\n'] + spaces(2 * d)
}

/// Lower-case hexadecimal digit.
pub open spec fn hex_digit(d: int) -> char {
    if d < 10 {
        ((48 + d) as u8) as char
    } else {
        ((87 + d) as u8) as char
    }
}

/// How one character appears inside a JSON string: quote and backslash get
/// a backslash, the named control characters their short escapes, any other
/// control character a `\u00..` escape, and everything else stands as is.
pub open spec fn esc_char(c: char) -> Seq<char> {
    if c == '"' {
        seq!['\\', '"']
    } else if c == '\\' {
        seq!['\\', '\\']
    } else if c == '\u{8}' {
        seq!['\\', 'b']
    } else if c == '\t' {
        seq!['\\', 't']
    } else if c == '\n' {
        seq!['\\', 'n']
    } else if c == '\u{c}' {
        seq!['\\', 'f']
    } else if c == '\r' {
        seq!['\\', 'r']
    } else if (c as u32) < 32 {
        seq!['\\', 'u', '0', '0', hex_digit((c as u32) as int / 16), hex_digit((c as u32) as int % 16)]
    } else {
        seq![c]
    }
}

/// A whole string body, escaped.
pub open spec fn esc(s: Seq<char>) -> Seq<char>
    decreases s.len(),
{
    if s.len() == 0 {
        Seq::empty()
    } else {
        esc_char(s[0]) + esc(s.drop_first())
    }
}

/// A JSON string literal.
pub open spec fn ser_str(s: Seq<char>) -> Seq<char> {
    seq!['"'] + esc(s) + seq!['"']
}

pub open spec fn lit_true() -> Seq<char> {
    seq!['t', 'r', 'u', 'e']
}

pub open spec fn lit_false() -> Seq<char> {
    seq!['f', 'a', 'l', 's', 'e']
}

pub open spec fn lit_null() -> Seq<char> {
    seq!['n', 'u', 'l', 'l']
}

pub open spec fn ser_bool(b: bool) -> Seq<char> {
    if b {
        lit_true()
    } else {
        lit_false()
    }
}

pub open spec fn ser_opt_str(o: Option<Seq<char>>) -> Seq<char> {
    match o {
        Some(s) => ser_str(s),
        None => lit_null(),
    }
}

/// A quoted object key followed by `: `.
pub open spec fn ser_key(k: Seq<char>) -> Seq<char> {
    ser_str(k) + seq![':', ' ']
}

pub open spec fn key_text() -> Seq<char> {
    seq!['t', 'e', 'x', 't']
}

pub open spec fn key_completed() -> Seq<char> {
    seq!['c', 'o', 'm', 'p', 'l', 'e', 't', 'e', 'd']
}

pub open spec fn key_created_at() -> Seq<char> {
    seq!['c', 'r', 'e', 'a', 't', 'e', 'd', '_', 'a', 't']
}

pub open spec fn key_completed_at() -> Seq<char> {
    seq!['c', 'o', 'm', 'p', 'l', 'e', 't', 'e', 'd', '_', 'a', 't']
}

pub open spec fn key_subtasks() -> Seq<char> {
    seq!['s', 'u', 'b', 't', 'a', 's', 'k', 's']
}

pub open spec fn key_name() -> Seq<char> {
    seq!['n', 'a', 'm', 'e']
}

pub open spec fn key_tasks() -> Seq<char> {
    seq!['t', 'a', 's', 'k', 's']
}

pub open spec fn key_current_project() -> Seq<char> {
    seq!['c', 'u', 'r', 'r', 'e', 'n', 't', '_', 'p', 'r', 'o', 'j', 'e', 'c', 't']
}

pub open spec fn key_projects() -> Seq<char> {
    seq!['p', 'r', 'o', 'j', 'e', 'c', 't', 's']
}

/// One task as a pretty-printed object whose opening brace sits at depth `d`.
pub open spec fn ser_task(t: TaskV, d: int) -> Seq<char>
    decreases t, 0int, 0int,
{
    seq!['{'] + nl_ind(d + 1) + ser_key(key_text()) + ser_str(t.text) + seq![','] + nl_ind(d + 1)
        + ser_key(key_completed()) + ser_bool(t.completed) + seq![','] + nl_ind(d + 1) + ser_key(
        key_created_at(),
    ) + ser_str(t.created_at) + seq![','] + nl_ind(d + 1) + ser_key(key_completed_at())
        + ser_opt_str(t.completed_at) + seq![','] + nl_ind(d + 1) + ser_key(key_subtasks())
        + ser_tasks(t.subtasks, d + 1) + nl_ind(d) + seq!['}']
}

/// A task list: `[]` when empty, else each task on its own indented lines.
pub open spec fn ser_tasks(ts: Seq<TaskV>, d: int) -> Seq<char>
    decreases ts, 1int, 0int,
{
    if ts.len() == 0 {
        seq!['[', ']']
    } else {
        seq!['['] + ser_task_items(ts, d) + nl_ind(d) + seq![']']
    }
}

/// The comma-separated items of a nonempty task list at bracket depth `d`.
pub open spec fn ser_task_items(ts: Seq<TaskV>, d: int) -> Seq<char>
    decreases ts, 0int, 1int,
{
    if ts.len() == 0 {
        Seq::empty()
    } else if ts.len() == 1 {
        nl_ind(d + 1) + ser_task(ts[0], d + 1)
    } else {
        nl_ind(d + 1) + ser_task(ts[0], d + 1) + seq![','] + ser_task_items(ts.drop_first(), d)
    }
}

/// One project as a pretty-printed object at depth `d`.
pub open spec fn ser_project(p: ProjectV, d: int) -> Seq<char> {
    seq!['{'] + nl_ind(d + 1) + ser_key(key_name()) + ser_str(p.name) + seq![','] + nl_ind(d + 1)
        + ser_key(key_tasks()) + ser_tasks(p.tasks, d + 1) + seq![','] + nl_ind(d + 1) + ser_key(
        key_created_at(),
    ) + ser_str(p.created_at) + nl_ind(d) + seq!['}']
}

/// The comma-separated items of a nonempty project list.
pub open spec fn ser_project_items(ps: Seq<ProjectV>, d: int) -> Seq<char>
    decreases ps.len(),
{
    if ps.len() == 0 {
        Seq::empty()
    } else if ps.len() == 1 {
        nl_ind(d + 1) + ser_project(ps[0], d + 1)
    } else {
        nl_ind(d + 1) + ser_project(ps[0], d + 1) + seq![','] + ser_project_items(
            ps.drop_first(),
            d,
        )
    }
}

/// A project list.
pub open spec fn ser_projects(ps: Seq<ProjectV>, d: int) -> Seq<char> {
    if ps.len() == 0 {
        seq!['[', ']']
    } else {
        seq!['['] + ser_project_items(ps, d) + nl_ind(d) + seq![']']
    }
}

/// The whole store, exactly as it is written to disk.
pub open spec fn ser_store(s: StoreV) -> Seq<char> {
    seq!['{'] + nl_ind(1) + ser_key(key_current_project()) + ser_str(s.current_project)
        + seq![','] + nl_ind(1) + ser_key(key_projects()) + ser_projects(s.projects, 1) + nl_ind(0)
        + seq!['}']
}


/// Characters that stand for themselves inside a JSON string.
pub open spec fn plain_char(c: char) -> bool {
    c != '"' && c != '\\' && c as u32 >= 32
}

/// Escaping text made of plain characters changes nothing.
pub proof fn lemma_esc_plain(s: Seq<char>)
    requires
        forall|i: int| 0 <= i < s.len() ==> plain_char(#[trigger] s[i]),
    ensures
        esc(s) == s,
    decreases s.len(),
{
    if s.len() > 0 {
        assert(forall|i: int|
            0 <= i < s.drop_first().len() ==> plain_char(#[trigger] s.drop_first()[i]));
        lemma_esc_plain(s.drop_first());
        assert(esc_char(s[0]) =~= seq![s[0]]);
        assert(esc(s) =~= s);
    }
}

/// Escaping distributes over appending one character.
pub proof fn lemma_esc_snoc(s: Seq<char>, c: char)
    ensures
        esc(s.push(c)) == esc(s) + esc_char(c),
    decreases s.len(),
{
    reveal_with_fuel(esc, 3);
    if s.len() == 0 {
        assert(s.push(c)[0] == c);
        assert(s.push(c).drop_first() =~= Seq::<char>::empty());
        assert(esc(s.push(c)) =~= esc(s) + esc_char(c));
    } else {
        assert(s.push(c)[0] == s[0]);
        assert(s.push(c).drop_first() =~= s.drop_first().push(c));
        lemma_esc_snoc(s.drop_first(), c);
        assert(esc(s.push(c)) =~= esc(s) + esc_char(c));
    }
}

/// Appends the characters of `s` unchanged.
fn w_lit(out: &mut Vec<char>, s: &str)
    ensures
        final(out)@ == old(out)@ + s@,
{
    let cs = chars_of_str(s);
    let mut i: usize = 0;
    while i < cs.len()
        invariant
            0 <= i <= cs@.len(),
            out@ =~= old(out)@ + cs@.take(i as int),
        decreases cs@.len() - i,
    {
        out.push(cs[i]);
        proof {
            assert(cs@.take(i + 1) =~= cs@.take(i as int).push(cs@[i as int]));
            assert(out@ =~= old(out)@ + cs@.take(i + 1));
        }
        i = i + 1;
    }
    proof {
        assert(cs@.take(cs@.len() as int) =~= cs@);
        assert(out@ =~= old(out)@ + s@);
    }
}

/// Appends a line break and the given indentation.
fn w_nl_ind(out: &mut Vec<char>, ind: &Vec<char>)
    ensures
        final(out)@ == old(out)@ + seq!['\n'] + ind@,
{
    out.push('\n');
    let mut i: usize = 0;
    while i < ind.len()
        invariant
            0 <= i <= ind@.len(),
            out@ =~= old(out)@ + seq!['\n'] + ind@.take(i as int),
        decreases ind@.len() - i,
    {
        out.push(ind[i]);
        proof {
            assert(ind@.take(i + 1) =~= ind@.take(i as int).push(ind@[i as int]));
            assert(out@ =~= old(out)@ + seq!['\n'] + ind@.take(i + 1));
        }
        i = i + 1;
    }
    proof {
        assert(ind@.take(ind@.len() as int) =~= ind@);
    }
}

/// Two more spaces of indentation.
fn extend_ind(ind: &Vec<char>) -> (r: Vec<char>)
    ensures
        r@ == ind@ + seq![' ', ' '],
{
    let mut r: Vec<char> = Vec::new();
    let mut i: usize = 0;
    while i < ind.len()
        invariant
            0 <= i <= ind@.len(),
            r@ =~= ind@.take(i as int),
        decreases ind@.len() - i,
    {
        r.push(ind[i]);
        proof {
            assert(ind@.take(i + 1) =~= ind@.take(i as int).push(ind@[i as int]));
        }
        i = i + 1;
    }
    r.push(' ');
    r.push(' ');
    proof {
        assert(ind@.take(ind@.len() as int) =~= ind@);
        assert(r@ =~= ind@ + seq![' ', ' ']);
    }
    r
}

fn hex_char(d: u32) -> (r: char)
    requires
        d < 16,
    ensures
        r == hex_digit(d as int),
{
    if d < 10 {
        (48 + d as u8) as char
    } else {
        (87 + d as u8) as char
    }
}

/// Appends the escaped form of one character.
fn w_esc_char(out: &mut Vec<char>, c: char)
    ensures
        final(out)@ == old(out)@ + esc_char(c),
{
    if c == '"' {
        out.push('\\');
        out.push('"');
        proof {
            assert(out@ =~= old(out)@ + esc_char(c));
        }
    } else if c == '\\' {
        out.push('\\');
        out.push('\\');
        proof {
            assert(out@ =~= old(out)@ + esc_char(c));
        }
    } else if c == '\u{8}' {
        out.push('\\');
        out.push('b');
        proof {
            assert(out@ =~= old(out)@ + esc_char(c));
        }
    } else if c == '\t' {
        out.push('\\');
        out.push('t');
        proof {
            assert(out@ =~= old(out)@ + esc_char(c));
        }
    } else if c == '\n' {
        out.push('\\');
        out.push('n');
        proof {
            assert(out@ =~= old(out)@ + esc_char(c));
        }
    } else if c == '\u{c}' {
        out.push('\\');
        out.push('f');
        proof {
            assert(out@ =~= old(out)@ + esc_char(c));
        }
    } else if c == '\r' {
        out.push('\\');
        out.push('r');
        proof {
            assert(out@ =~= old(out)@ + esc_char(c));
        }
    } else {
        let cu = c as u32;
        if cu < 32 {
            out.push('\\');
            out.push('u');
            out.push('0');
            out.push('0');
            let h1 = hex_char(cu / 16);
            out.push(h1);
            let h2 = hex_char(cu % 16);
            out.push(h2);
            proof {
                assert(out@ =~= old(out)@ + esc_char(c));
            }
        } else {
            out.push(c);
            proof {
                assert(out@ =~= old(out)@ + esc_char(c));
            }
        }
    }
}

/// Appends `s` as a JSON string literal.
fn w_str(out: &mut Vec<char>, s: &str)
    ensures
        final(out)@ == old(out)@ + ser_str(s@),
{
    out.push('"');
    let cs = chars_of_str(s);
    let mut i: usize = 0;
    while i < cs.len()
        invariant
            0 <= i <= cs@.len(),
            out@ =~= old(out)@ + seq!['"'] + esc(cs@.take(i as int)),
        decreases cs@.len() - i,
    {
        proof {
            lemma_esc_snoc(cs@.take(i as int), cs@[i as int]);
            assert(cs@.take(i + 1) =~= cs@.take(i as int).push(cs@[i as int]));
        }
        w_esc_char(out, cs[i]);
        proof {
            assert(out@ =~= old(out)@ + seq!['"'] + esc(cs@.take(i + 1)));
        }
        i = i + 1;
    }
    out.push('"');
    proof {
        assert(cs@.take(cs@.len() as int) =~= cs@);
        assert(out@ =~= old(out)@ + ser_str(s@));
    }
}

fn w_bool(out: &mut Vec<char>, b: bool)
    ensures
        final(out)@ == old(out)@ + ser_bool(b),
{
    if b {
        out.push('t');
        out.push('r');
        out.push('u');
        out.push('e');
        proof {
            assert(out@ =~= old(out)@ + ser_bool(b));
        }
    } else {
        out.push('f');
        out.push('a');
        out.push('l');
        out.push('s');
        out.push('e');
        proof {
            assert(out@ =~= old(out)@ + ser_bool(b));
        }
    }
}

fn w_opt_str(out: &mut Vec<char>, o: &Option<String>)
    ensures
        final(out)@ == old(out)@ + ser_opt_str(crate::model::opt_string_view(*o)),
{
    match o {
        Some(s) => {
            w_str(out, s.as_str());
        },
        None => {
            out.push('n');
            out.push('u');
            out.push('l');
            out.push('l');
            proof {
                assert(out@ =~= old(out)@ + lit_null());
            }
        },
    }
}

/// Appends one task object at depth `d`, whose indentation text is `ind`.
#[verifier::rlimit(100)]
fn w_task(out: &mut Vec<char>, t: &Task, ind: &Vec<char>, Ghost(d): Ghost<int>)
    requires
        d >= 0,
        ind@ == spaces(2 * d),
    ensures
        final(out)@ == old(out)@ + ser_task(t@, d),
    decreases *t,
{
    let ind2 = extend_ind(ind);
    proof {
        assert(ind2@ =~= spaces(2 * (d + 1)));
        reveal_strlit("\"text\": ");
        reveal_strlit("\"completed\": ");
        reveal_strlit("\"created_at\": ");
        reveal_strlit("\"completed_at\": ");
        reveal_strlit("\"subtasks\": ");
        lemma_esc_plain(key_text());
        lemma_esc_plain(key_completed());
        lemma_esc_plain(key_created_at());
        lemma_esc_plain(key_completed_at());
        lemma_esc_plain(key_subtasks());
        assert("\"text\": "@ =~= ser_key(key_text()));
        assert("\"completed\": "@ =~= ser_key(key_completed()));
        assert("\"created_at\": "@ =~= ser_key(key_created_at()));
        assert("\"completed_at\": "@ =~= ser_key(key_completed_at()));
        assert("\"subtasks\": "@ =~= ser_key(key_subtasks()));
    }
    let ghost x0 = old(out)@;
    out.push('{');
    w_nl_ind(out, &ind2);
    let ghost a1 = seq!['{'] + nl_ind(d + 1);
    proof {
        assert(out@ =~= x0 + a1);
    }
    w_lit(out, "\"text\": ");
    w_str(out, t.text.as_str());
    out.push(',');
    w_nl_ind(out, &ind2);
    let ghost a2 = a1 + ser_key(key_text()) + ser_str(t@.text) + seq![','] + nl_ind(d + 1);
    proof {
        assert(out@ =~= x0 + a2);
    }
    w_lit(out, "\"completed\": ");
    w_bool(out, t.completed);
    out.push(',');
    w_nl_ind(out, &ind2);
    let ghost a3 = a2 + ser_key(key_completed()) + ser_bool(t@.completed) + seq![','] + nl_ind(
        d + 1,
    );
    proof {
        assert(out@ =~= x0 + a3);
    }
    w_lit(out, "\"created_at\": ");
    w_str(out, t.created_at.as_str());
    out.push(',');
    w_nl_ind(out, &ind2);
    let ghost a4 = a3 + ser_key(key_created_at()) + ser_str(t@.created_at) + seq![','] + nl_ind(
        d + 1,
    );
    proof {
        assert(out@ =~= x0 + a4);
    }
    w_lit(out, "\"completed_at\": ");
    w_opt_str(out, &t.completed_at);
    out.push(',');
    w_nl_ind(out, &ind2);
    let ghost a5 = a4 + ser_key(key_completed_at()) + ser_opt_str(t@.completed_at) + seq![',']
        + nl_ind(d + 1);
    proof {
        assert(out@ =~= x0 + a5);
    }
    w_lit(out, "\"subtasks\": ");
    w_tasks(out, &t.subtasks, &ind2, Ghost(d + 1));
    w_nl_ind(out, ind);
    out.push('}');
    let ghost a6 = a5 + ser_key(key_subtasks()) + ser_tasks(t@.subtasks, d + 1) + nl_ind(d)
        + seq!['}'];
    proof {
        assert(out@ =~= x0 + a6);
        assert(a6 =~= ser_task(t@, d));
    }
}

/// Appends a task list at bracket depth `d`.
#[verifier::rlimit(60)]
fn w_tasks(out: &mut Vec<char>, ts: &Vec<Task>, ind: &Vec<char>, Ghost(d): Ghost<int>)
    requires
        d >= 0,
        ind@ == spaces(2 * d),
    ensures
        final(out)@ == old(out)@ + ser_tasks(crate::model::tasks_view(ts@), d),
    decreases *ts,
{
    let ghost tv = crate::model::tasks_view(ts@);
    proof {
        crate::model::lemma_tasks_view(ts@);
    }
    if ts.len() == 0 {
        out.push('[');
        out.push(']');
        proof {
            assert(out@ =~= old(out)@ + ser_tasks(tv, d));
        }
        return ;
    }
    let ind2 = extend_ind(ind);
    proof {
        assert(ind2@ =~= spaces(2 * (d + 1)));
    }
    out.push('[');
    let mut i: usize = 0;
    proof {
        assert(tv.skip(0) =~= tv);
    }
    #[verifier::loop_isolation(false)]
    while i < ts.len()
        invariant
            0 <= i <= ts@.len(),
            out@ + ser_task_items(tv.skip(i as int), d) =~= old(out)@ + seq!['[']
                + ser_task_items(tv, d),
        decreases ts@.len() - i,
    {
        proof {
            assert(tv.skip(i as int)[0] == tv[i as int]);
            assert(tv.skip(i as int).drop_first() =~= tv.skip(i + 1));
            assert(tv.skip(i as int).len() == tv.len() - i);
            assert(decreases_to!(*ts => ts@[i as int].subtasks));
        }
        w_nl_ind(out, &ind2);
        w_task(out, &ts[i], &ind2, Ghost(d + 1));
        if i + 1 < ts.len() {
            out.push(',');
            proof {
                assert(out@ + ser_task_items(tv.skip(i + 1), d) =~= old(out)@ + seq!['[']
                    + ser_task_items(tv, d));
            }
        } else {
            proof {
                assert(tv.skip(i + 1) =~= Seq::<TaskV>::empty());
                assert(out@ + ser_task_items(tv.skip(i + 1), d) =~= old(out)@ + seq!['[']
                    + ser_task_items(tv, d));
            }
        }
        i = i + 1;
    }
    proof {
        assert(tv.skip(i as int) =~= Seq::<TaskV>::empty());
    }
    w_nl_ind(out, ind);
    out.push(']');
    proof {
        assert(out@ =~= old(out)@ + ser_tasks(tv, d));
    }
}

/// Appends one project object at depth `d`.
#[verifier::rlimit(60)]
fn w_project(out: &mut Vec<char>, p: &Project, ind: &Vec<char>, Ghost(d): Ghost<int>)
    requires
        d >= 0,
        ind@ == spaces(2 * d),
    ensures
        final(out)@ == old(out)@ + ser_project(p@, d),
{
    let ind2 = extend_ind(ind);
    proof {
        assert(ind2@ =~= spaces(2 * (d + 1)));
        reveal_strlit("\"name\": ");
        reveal_strlit("\"tasks\": ");
        reveal_strlit("\"created_at\": ");
        lemma_esc_plain(key_name());
        lemma_esc_plain(key_tasks());
        lemma_esc_plain(key_created_at());
        assert("\"name\": "@ =~= ser_key(key_name()));
        assert("\"tasks\": "@ =~= ser_key(key_tasks()));
        assert("\"created_at\": "@ =~= ser_key(key_created_at()));
    }
    out.push('{');
    w_nl_ind(out, &ind2);
    w_lit(out, "\"name\": ");
    w_str(out, p.name.as_str());
    out.push(',');
    w_nl_ind(out, &ind2);
    w_lit(out, "\"tasks\": ");
    w_tasks(out, &p.tasks, &ind2, Ghost(d + 1));
    out.push(',');
    w_nl_ind(out, &ind2);
    w_lit(out, "\"created_at\": ");
    w_str(out, p.created_at.as_str());
    w_nl_ind(out, ind);
    out.push('}');
    proof {
        assert(out@ =~= old(out)@ + ser_project(p@, d));
    }
}

/// Appends a project list at bracket depth `d`.
#[verifier::rlimit(100)]
fn w_projects(out: &mut Vec<char>, ps: &Vec<Project>, ind: &Vec<char>, Ghost(d): Ghost<int>)
    requires
        d >= 0,
        ind@ == spaces(2 * d),
    ensures
        final(out)@ == old(out)@ + ser_projects(crate::model::projects_view(ps@), d),
{
    let ghost pv = crate::model::projects_view(ps@);
    if ps.len() == 0 {
        out.push('[');
        out.push(']');
        proof {
            assert(out@ =~= old(out)@ + ser_projects(pv, d));
        }
        return ;
    }
    let ind2 = extend_ind(ind);
    proof {
        assert(ind2@ =~= spaces(2 * (d + 1)));
    }
    out.push('[');
    let mut i: usize = 0;
    proof {
        assert(pv.skip(0) =~= pv);
    }
    #[verifier::loop_isolation(false)]
    while i < ps.len()
        invariant
            0 <= i <= ps@.len(),
            out@ + ser_project_items(pv.skip(i as int), d) =~= old(out)@ + seq!['[']
                + ser_project_items(pv, d),
        decreases ps@.len() - i,
    {
        proof {
            assert(pv.skip(i as int)[0] == pv[i as int]);
            assert(pv.skip(i as int).drop_first() =~= pv.skip(i + 1));
            assert(pv.skip(i as int).len() == pv.len() - i);
        }
        w_nl_ind(out, &ind2);
        w_project(out, &ps[i], &ind2, Ghost(d + 1));
        if i + 1 < ps.len() {
            out.push(',');
            proof {
                assert(out@ + ser_project_items(pv.skip(i + 1), d) =~= old(out)@ + seq!['[']
                    + ser_project_items(pv, d));
            }
        } else {
            proof {
                assert(pv.skip(i + 1) =~= Seq::<ProjectV>::empty());
                assert(out@ + ser_project_items(pv.skip(i + 1), d) =~= old(out)@ + seq!['[']
                    + ser_project_items(pv, d));
            }
        }
        i = i + 1;
    }
    proof {
        assert(pv.skip(i as int) =~= Seq::<ProjectV>::empty());
    }
    w_nl_ind(out, ind);
    out.push(']');
    proof {
        assert(out@ =~= old(out)@ + ser_projects(pv, d));
    }
}

impl ProjectStore {
    /// The persisted text of the store: the exact pretty-printed JSON that
    /// `ser_store` describes.
    #[verifier::rlimit(60)]
    pub fn to_json(&self) -> (r: String)
        ensures
            r@ == ser_store(self@),
    {
        let mut out: Vec<char> = Vec::new();
        let ind0: Vec<char> = Vec::new();
        let ind1 = extend_ind(&ind0);
        proof {
            assert(ind0@ =~= spaces(0));
            assert(ind1@ =~= spaces(2));
            reveal_strlit("\"current_project\": ");
            reveal_strlit("\"projects\": ");
            lemma_esc_plain(key_current_project());
            lemma_esc_plain(key_projects());
            assert("\"current_project\": "@ =~= ser_key(key_current_project()));
            assert("\"projects\": "@ =~= ser_key(key_projects()));
        }
        out.push('{');
        w_nl_ind(&mut out, &ind1);
        w_lit(&mut out, "\"current_project\": ");
        w_str(&mut out, self.current_project.as_str());
        out.push(',');
        w_nl_ind(&mut out, &ind1);
        w_lit(&mut out, "\"projects\": ");
        w_projects(&mut out, &self.projects, &ind1, Ghost(1));
        w_nl_ind(&mut out, &ind0);
        out.push('}');
        proof {
            assert(out@ =~= ser_store(self@));
        }
        string_from_chars(&out)
    }
}

} // verus!
