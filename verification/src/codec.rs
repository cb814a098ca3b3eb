//! The persistence round trip: loading with legacy migration, and the proof
//! that reading back what the writer produced restores the store exactly.

use vstd::prelude::*;

use crate::errors::TmError;
use crate::clock::now_rfc3339;
use crate::jsonin::{
    hex_val, is_ws, legacy_from_text, p_bool, p_ch, p_key, p_lit, p_opt_str, p_project,
    p_project_items, p_projects, p_str, p_str_body, p_task, p_task_items, p_task_list,
    parse_legacy_text, parse_store_text, store_from_text, sw,
};
use crate::jsonout::{
    esc, esc_char, hex_digit, key_completed, key_completed_at, key_created_at,
    key_current_project, key_name, key_projects, key_subtasks, key_tasks, key_text, lit_false,
    lit_null, lit_true, nl_ind, plain_char, ser_bool, ser_key, ser_opt_str, ser_project,
    ser_project_items, ser_projects, ser_store, ser_str, ser_task, ser_task_items, ser_tasks,
    spaces, lemma_esc_plain,
};
use crate::model::{Project, ProjectStore, ProjectV, StoreV, TaskV};
use crate::store::default_name;

verus! {

/// The store a legacy bare-array file becomes: its tasks under a fresh
/// `"default"` project, which is also made current.
pub open spec fn migrated_store(ts: Seq<TaskV>, stamp: Seq<char>) -> StoreV {
    StoreV {
        current_project: default_name(),
        projects: seq![ProjectV { name: default_name(), tasks: ts, created_at: stamp }],
    }
}

/// The complete outcome of loading a data file's text: the current layout
/// wins; otherwise a legacy array is migrated (and must be written back);
/// otherwise the text is corrupt.
pub open spec fn load_post(text: Seq<char>, r: Result<(StoreV, bool), TmError>) -> bool {
    match parse_store_text(text) {
        Some(v) => r == Ok::<(StoreV, bool), TmError>((v, false)),
        None => match parse_legacy_text(text) {
            Some(ts) => match r {
                Ok((s1, migrated)) => migrated && (exists|stamp: Seq<char>|
                    s1 == migrated_store(ts, stamp)),
                Err(_) => false,
            },
            None => r == Err::<(StoreV, bool), TmError>(TmError::DataCorruption),
        },
    }
}

impl ProjectStore {
    /// Reads a store from the data file's text. A current-format text
    /// loads as it stands; a legacy bare task array is wrapped into a
    /// fresh `"default"` project, and the `true` flag asks the caller to
    /// write the migrated store back; anything else is corruption.
    pub fn load_from_json(text: &str) -> (r: Result<(ProjectStore, bool), TmError>)
        ensures
            match r {
                Ok((st, migrated)) => load_post(text@, Ok::<(StoreV, bool), TmError>(
                    (st@, migrated),
                )),
                Err(e) => load_post(text@, Err::<(StoreV, bool), TmError>(e)),
            },
    {
        match store_from_text(text) {
            Some(st) => {
                proof {
                    assert(load_post(text@, Ok::<(StoreV, bool), TmError>((st@, false))));
                }
                Ok((st, false))
            },
            None => match legacy_from_text(text) {
                Some(tasks) => {
                    let stamp = now_rfc3339();
                    let ghost stampv = stamp@;
                    let ghost tasksv = crate::model::tasks_view(tasks@);
                    let mut projects: Vec<Project> = Vec::new();
                    projects.push(
                        Project { name: "default".to_owned(), tasks, created_at: stamp },
                    );
                    let st = ProjectStore { current_project: "default".to_owned(), projects };
                    proof {
                        assert(st@.projects =~= seq![
                            ProjectV {
                                name: default_name(),
                                tasks: tasksv,
                                created_at: stampv,
                            },
                        ]);
                        assert(st@ =~= migrated_store(tasksv, stampv));
                        assert(exists|stamp: Seq<char>| st@ == migrated_store(tasksv, stamp)) by {
                            assert(st@ == migrated_store(tasksv, stampv));
                        }
                    }
                    proof {
                        assert(parse_store_text(text@) is None);
                        assert(parse_legacy_text(text@) == Some(tasksv));
                        match parse_legacy_text(text@) {
                            Some(ts0) => {
                                assert(st@ == migrated_store(ts0, stampv));
                                assert(exists|stamp: Seq<char>|
                                    st@ == migrated_store(ts0, stamp));
                            },
                            None => {},
                        }
                        assert(load_post(text@, Ok::<(StoreV, bool), TmError>((st@, true))));
                    }
                    Ok((st, true))
                },
                None => Err(TmError::DataCorruption),
            },
        }
    }
}

/// Every character of `s` is whitespace.
pub open spec fn all_ws(s: Seq<char>) -> bool {
    forall|i: int| 0 <= i < s.len() ==> is_ws(#[trigger] s[i])
}

proof fn lemma_ws_nl_ind(d: int)
    ensures
        all_ws(nl_ind(d)),
{
    assert forall|i: int| 0 <= i < nl_ind(d).len() implies is_ws(#[trigger] nl_ind(d)[i]) by {
        if i == 0 {
            assert(nl_ind(d)[0] == '\n');
        } else {
            assert(nl_ind(d)[i] == ' ');
        }
    }
}

proof fn lemma_sw_ws_prefix(p: Seq<char>, rest: Seq<char>)
    requires
        all_ws(p),
    ensures
        sw(p + rest) == sw(rest),
    decreases p.len(),
{
    if p.len() == 0 {
        assert(p + rest =~= rest);
    } else {
        assert((p + rest)[0] == p[0]);
        assert((p + rest).drop_first() =~= p.drop_first() + rest);
        assert(all_ws(p.drop_first()));
        lemma_sw_ws_prefix(p.drop_first(), rest);
    }
}

/// A parser for one expected character eats a whitespace prefix and the
/// character itself.
proof fn lemma_p_ch(p: Seq<char>, c: char, rest: Seq<char>)
    requires
        all_ws(p),
        !is_ws(c),
    ensures
        p_ch(p + (seq![c] + rest), c) == Some(rest),
{
    lemma_sw_ws_prefix(p, seq![c] + rest);
    assert((seq![c] + rest)[0] == c);
    assert(sw(seq![c] + rest) == seq![c] + rest);
    assert((seq![c] + rest).drop_first() =~= rest);
}

proof fn lemma_p_lit(lit: Seq<char>, rest: Seq<char>)
    ensures
        p_lit(lit + rest, lit) == Some(rest),
{
    assert((lit + rest).len() >= lit.len());
    assert((lit + rest).take(lit.len() as int) =~= lit);
    assert((lit + rest).skip(lit.len() as int) =~= rest);
}

proof fn lemma_hex_rt(v: int)
    requires
        0 <= v < 16,
    ensures
        hex_val(hex_digit(v)) == v,
{
}

/// Parsing the escaped form of one character restores that character.
proof fn lemma_esc_char_rt(c: char, tail: Seq<char>)
    ensures
        p_str_body(esc_char(c) + tail) == (match p_str_body(tail) {
            Some((t, r)) => Some((seq![c] + t, r)),
            None => None::<(Seq<char>, Seq<char>)>,
        }),
{
    let s = esc_char(c) + tail;
    if c == '"' || c == '\\' || c == '\u{8}' || c == '\t' || c == '\n' || c == '\u{c}' || c
        == '\r' {
        assert(s[0] == '\\');
        assert(s.len() >= 2);
        assert(s[1] == esc_char(c)[1]);
        assert(s.skip(2) =~= tail);
    } else if (c as u32) < 32 {
        assert(s[0] == '\\');
        assert(s[1] == 'u');
        assert(s.len() >= 6);
        assert(s[2] == '0' && s[3] == '0');
        assert(s[4] == hex_digit((c as u32) as int / 16));
        assert(s[5] == hex_digit((c as u32) as int % 16));
        lemma_hex_rt((c as u32) as int / 16);
        lemma_hex_rt((c as u32) as int % 16);
        assert(hex_val(s[2]) == 0 && hex_val(s[3]) == 0);
        let v = hex_val(s[2]) * 4096 + hex_val(s[3]) * 256 + hex_val(s[4]) * 16 + hex_val(s[5]);
        assert(v == c as u32);
        assert(((v as u8) as char) == c);
        assert(s.skip(6) =~= tail);
    } else {
        assert(s[0] == c);
        assert(s.drop_first() =~= tail);
    }
}

/// Parsing an escaped string body up to its closing quote restores the text.
proof fn lemma_str_body_rt(s: Seq<char>, rest: Seq<char>)
    ensures
        p_str_body(esc(s) + (seq!['"'] + rest)) == Some((s, rest)),
    decreases s.len(),
{
    if s.len() == 0 {
        assert(esc(s) + (seq!['"'] + rest) =~= seq!['"'] + rest);
        assert((seq!['"'] + rest)[0] == '"');
        assert((seq!['"'] + rest).drop_first() =~= rest);
    } else {
        let tail = esc(s.drop_first()) + (seq!['"'] + rest);
        assert(esc(s) + (seq!['"'] + rest) =~= esc_char(s[0]) + tail);
        lemma_str_body_rt(s.drop_first(), rest);
        lemma_esc_char_rt(s[0], tail);
        assert(seq![s[0]] + s.drop_first() =~= s);
    }
}

/// Parsing a written string literal restores the string.
proof fn lemma_str_rt(p: Seq<char>, s: Seq<char>, rest: Seq<char>)
    requires
        all_ws(p),
    ensures
        p_str(p + (ser_str(s) + rest)) == Some((s, rest)),
{
    lemma_sw_ws_prefix(p, ser_str(s) + rest);
    let s0 = ser_str(s) + rest;
    assert(s0[0] == '"');
    assert(sw(s0) == s0);
    assert(s0.drop_first() =~= esc(s) + (seq!['"'] + rest));
    lemma_str_body_rt(s, rest);
}

#[verifier::rlimit(100)]
proof fn lemma_bool_rt(p: Seq<char>, b: bool, rest: Seq<char>)
    requires
        all_ws(p),
    ensures
        p_bool(p + (ser_bool(b) + rest)) == Some((b, rest)),
{
    lemma_sw_ws_prefix(p, ser_bool(b) + rest);
    let s0 = ser_bool(b) + rest;
    assert(s0[0] == ser_bool(b)[0]);
    assert(!is_ws(s0[0]));
    assert(sw(s0) == s0);
    if b {
        assert(s0 =~= lit_true() + rest);
        lemma_p_lit(lit_true(), rest);
    } else {
        assert(s0 =~= lit_false() + rest);
        lemma_p_lit(lit_false(), rest);
        if p_lit(s0, lit_true()) is Some {
            assert(s0.take(4)[0] == lit_true()[0]);
            assert(false);
        }
    }
}

#[verifier::rlimit(100)]
proof fn lemma_opt_str_rt(p: Seq<char>, o: Option<Seq<char>>, rest: Seq<char>)
    requires
        all_ws(p),
    ensures
        p_opt_str(p + (ser_opt_str(o) + rest)) == Some((o, rest)),
{
    lemma_sw_ws_prefix(p, ser_opt_str(o) + rest);
    let s0 = ser_opt_str(o) + rest;
    assert(s0[0] == ser_opt_str(o)[0]);
    assert(!is_ws(s0[0]));
    assert(sw(s0) == s0);
    match o {
        None => {
            assert(s0 =~= lit_null() + rest);
            lemma_p_lit(lit_null(), rest);
        },
        Some(t) => {
            assert(s0[0] == '"');
            if p_lit(s0, lit_null()) is Some {
                assert(s0.take(4)[0] == lit_null()[0]);
                assert(false);
            }
            assert(Seq::<char>::empty() + s0 =~= s0);
            lemma_str_rt(Seq::<char>::empty(), t, rest);
            assert(s0 =~= Seq::<char>::empty() + (ser_str(t) + rest));
        },
    }
}

/// Parsing a written key eats the key and its colon, leaving the one space
/// the writer puts after it.
#[verifier::rlimit(100)]
proof fn lemma_key_rt(p: Seq<char>, k: Seq<char>, rest: Seq<char>)
    requires
        all_ws(p),
        forall|i: int| 0 <= i < k.len() ==> plain_char(#[trigger] k[i]),
    ensures
        p_key(p + (ser_key(k) + rest), k) == Some(seq![' '] + rest),
{
    lemma_esc_plain(k);
    let quoted = seq!['"'] + k + seq!['"'];
    assert(ser_key(k) =~= quoted + seq![':', ' ']);
    lemma_sw_ws_prefix(p, ser_key(k) + rest);
    let s0 = ser_key(k) + rest;
    assert(s0[0] == '"');
    assert(!is_ws(s0[0]));
    assert(sw(s0) == s0);
    assert(s0 =~= quoted + (seq![':', ' '] + rest));
    lemma_p_lit(quoted, seq![':', ' '] + rest);
    let r1 = seq![':', ' '] + rest;
    assert(r1[0] == ':');
    assert(!is_ws(':'));
    assert(sw(r1) == r1);
    assert(r1.drop_first() =~= seq![' '] + rest);
}

/// The footprint of a task tree: one unit per node.
pub open spec fn size_t(t: TaskV) -> nat
    decreases t,
{
    1 + size_ts(t.subtasks)
}

/// The footprint of a task forest.
pub open spec fn size_ts(ts: Seq<TaskV>) -> nat
    decreases ts,
{
    if ts.len() == 0 {
        0nat
    } else {
        size_t(ts[0]) + size_ts(ts.drop_first())
    }
}

proof fn lemma_size_facts(ts: Seq<TaskV>)
    ensures
        size_ts(ts) >= ts.len(),
        forall|i: int| 0 <= i < ts.len() ==> size_t(#[trigger] ts[i]) <= size_ts(ts),
        ts.len() > 0 ==> size_ts(ts.drop_first()) <= size_ts(ts),
    decreases ts.len(),
{
    if ts.len() > 0 {
        lemma_size_facts(ts.drop_first());
        assert forall|i: int| 0 <= i < ts.len() implies size_t(#[trigger] ts[i]) <= size_ts(
            ts,
        ) by {
            if i > 0 {
                assert(ts.drop_first()[i - 1] == ts[i]);
            }
        }
    }
}

/// Serialized tasks take at least one character per node.
proof fn lemma_ser_len(t: TaskV, d: int)
    ensures
        ser_task(t, d).len() >= size_t(t),
    decreases t, 0nat, 0nat,
{
    lemma_ser_tasks_len(t.subtasks, d + 1);
}

proof fn lemma_ser_tasks_len(ts: Seq<TaskV>, d: int)
    ensures
        ser_tasks(ts, d).len() >= size_ts(ts),
    decreases ts, 1nat, 0nat,
{
    if ts.len() > 0 {
        lemma_ser_items_len(ts, d);
    }
}

proof fn lemma_ser_items_len(ts: Seq<TaskV>, d: int)
    ensures
        ser_task_items(ts, d).len() >= size_ts(ts),
    decreases ts, 0nat, 1nat,
{
    if ts.len() == 0 {
    } else if ts.len() == 1 {
        lemma_ser_len(ts[0], d + 1);
        assert(size_ts(ts.drop_first()) == 0);
    } else {
        lemma_ser_len(ts[0], d + 1);
        lemma_ser_items_len(ts.drop_first(), d);
    }
}

/// The remainder of a written task after its opening brace, regrouped to
/// the right so each parsing step peels one layer.
pub open spec fn task_tail(t: TaskV, d: int, rest: Seq<char>) -> Seq<char> {
    let t15 = seq!['}'] + rest;
    let t14 = nl_ind(d) + t15;
    let t13 = ser_tasks(t.subtasks, d + 1) + t14;
    let t12 = nl_ind(d + 1) + (ser_key(key_subtasks()) + t13);
    let t11 = seq![','] + t12;
    let t10 = ser_opt_str(t.completed_at) + t11;
    let t9 = nl_ind(d + 1) + (ser_key(key_completed_at()) + t10);
    let t8 = seq![','] + t9;
    let t7 = ser_str(t.created_at) + t8;
    let t6 = nl_ind(d + 1) + (ser_key(key_created_at()) + t7);
    let t5 = seq![','] + t6;
    let t4 = ser_bool(t.completed) + t5;
    let t3 = nl_ind(d + 1) + (ser_key(key_completed()) + t4);
    let t2a = seq![','] + t3;
    let t2 = ser_str(t.text) + t2a;
    nl_ind(d + 1) + (ser_key(key_text()) + t2)
}

proof fn lemma_rot(x: Seq<char>, y: Seq<char>, r: Seq<char>)
    ensures
        (x + y) + r == x + (y + r),
{
    assert((x + y) + r =~= x + (y + r));
}

proof fn lemma_ser_task_shape(t: TaskV, d: int, rest: Seq<char>)
    ensures
        ser_task(t, d) + rest == seq!['{'] + task_tail(t, d, rest),
{
    let p0 = seq!['{'];
    let p1 = nl_ind(d + 1);
    let p2 = ser_key(key_text());
    let p3 = ser_str(t.text);
    let p4 = seq![','];
    let p5 = nl_ind(d + 1);
    let p6 = ser_key(key_completed());
    let p7 = ser_bool(t.completed);
    let p8 = seq![','];
    let p9 = nl_ind(d + 1);
    let p10 = ser_key(key_created_at());
    let p11 = ser_str(t.created_at);
    let p12 = seq![','];
    let p13 = nl_ind(d + 1);
    let p14 = ser_key(key_completed_at());
    let p15 = ser_opt_str(t.completed_at);
    let p16 = seq![','];
    let p17 = nl_ind(d + 1);
    let p18 = ser_key(key_subtasks());
    let p19 = ser_tasks(t.subtasks, d + 1);
    let p20 = nl_ind(d);
    let p21 = seq!['}'];
    let l1 = p0 + p1;
    let l2 = l1 + p2;
    let l3 = l2 + p3;
    let l4 = l3 + p4;
    let l5 = l4 + p5;
    let l6 = l5 + p6;
    let l7 = l6 + p7;
    let l8 = l7 + p8;
    let l9 = l8 + p9;
    let l10 = l9 + p10;
    let l11 = l10 + p11;
    let l12 = l11 + p12;
    let l13 = l12 + p13;
    let l14 = l13 + p14;
    let l15 = l14 + p15;
    let l16 = l15 + p16;
    let l17 = l16 + p17;
    let l18 = l17 + p18;
    let l19 = l18 + p19;
    let l20 = l19 + p20;
    let l21 = l20 + p21;
    assert(ser_task(t, d) == l21);
    lemma_rot(l20, p21, rest);
    let r21 = p21 + rest;
    lemma_rot(l19, p20, r21);
    let r20 = p20 + r21;
    lemma_rot(l18, p19, r20);
    let r19 = p19 + r20;
    lemma_rot(l17, p18, r19);
    let r18 = p18 + r19;
    lemma_rot(l16, p17, r18);
    let r17 = p17 + r18;
    lemma_rot(l15, p16, r17);
    let r16 = p16 + r17;
    lemma_rot(l14, p15, r16);
    let r15 = p15 + r16;
    lemma_rot(l13, p14, r15);
    let r14 = p14 + r15;
    lemma_rot(l12, p13, r14);
    let r13 = p13 + r14;
    lemma_rot(l11, p12, r13);
    let r12 = p12 + r13;
    lemma_rot(l10, p11, r12);
    let r11 = p11 + r12;
    lemma_rot(l9, p10, r11);
    let r10 = p10 + r11;
    lemma_rot(l8, p9, r10);
    let r9 = p9 + r10;
    lemma_rot(l7, p8, r9);
    let r8 = p8 + r9;
    lemma_rot(l6, p7, r8);
    let r7 = p7 + r8;
    lemma_rot(l5, p6, r7);
    let r6 = p6 + r7;
    lemma_rot(l4, p5, r6);
    let r5 = p5 + r6;
    lemma_rot(l3, p4, r5);
    let r4 = p4 + r5;
    lemma_rot(l2, p3, r4);
    let r3 = p3 + r4;
    lemma_rot(l1, p2, r3);
    let r2 = p2 + r3;
    lemma_rot(p0, p1, r2);
    let r1 = p1 + r2;
    assert(ser_task(t, d) + rest == p0 + r1);
    assert(r1 == task_tail(t, d, rest));
}

/// Reading back one written task restores it, given enough nesting fuel.
#[verifier::rlimit(100)]
proof fn lemma_task_rt(p: Seq<char>, t: TaskV, d: int, rest: Seq<char>, f: nat)
    requires
        all_ws(p),
        f >= size_t(t),
    ensures
        p_task(p + (ser_task(t, d) + rest), f) == Some((t, rest)),
    decreases t, 0nat, 0nat,
{
    let input = p + (ser_task(t, d) + rest);
    lemma_ws_nl_ind(d + 1);
    lemma_ws_nl_ind(d);
    assert(forall|i: int| 0 <= i < key_text().len() ==> plain_char(#[trigger] key_text()[i]));
    assert(forall|i: int|
        0 <= i < key_completed().len() ==> plain_char(#[trigger] key_completed()[i]));
    assert(forall|i: int|
        0 <= i < key_created_at().len() ==> plain_char(#[trigger] key_created_at()[i]));
    assert(forall|i: int|
        0 <= i < key_completed_at().len() ==> plain_char(#[trigger] key_completed_at()[i]));
    assert(forall|i: int|
        0 <= i < key_subtasks().len() ==> plain_char(#[trigger] key_subtasks()[i]));
    let t15 = seq!['}'] + rest;
    let t14 = nl_ind(d) + t15;
    let t13 = ser_tasks(t.subtasks, d + 1) + t14;
    let t12b = ser_key(key_subtasks()) + t13;
    let t12 = nl_ind(d + 1) + t12b;
    let t11 = seq![','] + t12;
    let t10 = ser_opt_str(t.completed_at) + t11;
    let t9b = ser_key(key_completed_at()) + t10;
    let t9 = nl_ind(d + 1) + t9b;
    let t8 = seq![','] + t9;
    let t7 = ser_str(t.created_at) + t8;
    let t6b = ser_key(key_created_at()) + t7;
    let t6 = nl_ind(d + 1) + t6b;
    let t5 = seq![','] + t6;
    let t4 = ser_bool(t.completed) + t5;
    let t3b = ser_key(key_completed()) + t4;
    let t3 = nl_ind(d + 1) + t3b;
    let t2a = seq![','] + t3;
    let t2 = ser_str(t.text) + t2a;
    let t1b = ser_key(key_text()) + t2;
    let t1 = nl_ind(d + 1) + t1b;
    lemma_ser_task_shape(t, d, rest);
    assert(t1 == task_tail(t, d, rest));
    assert(input == p + (seq!['{'] + t1));
    lemma_p_ch(p, '{', t1);
    lemma_key_rt(nl_ind(d + 1), key_text(), t2);
    lemma_str_rt(seq![' '], t.text, t2a);
    assert(Seq::<char>::empty() + t2a =~= t2a);
    lemma_p_ch(Seq::<char>::empty(), ',', t3);
    lemma_key_rt(nl_ind(d + 1), key_completed(), t4);
    lemma_bool_rt(seq![' '], t.completed, t5);
    assert(Seq::<char>::empty() + t5 =~= t5);
    lemma_p_ch(Seq::<char>::empty(), ',', t6);
    lemma_key_rt(nl_ind(d + 1), key_created_at(), t7);
    lemma_str_rt(seq![' '], t.created_at, t8);
    assert(Seq::<char>::empty() + t8 =~= t8);
    lemma_p_ch(Seq::<char>::empty(), ',', t9);
    lemma_key_rt(nl_ind(d + 1), key_completed_at(), t10);
    lemma_opt_str_rt(seq![' '], t.completed_at, t11);
    assert(Seq::<char>::empty() + t11 =~= t11);
    lemma_p_ch(Seq::<char>::empty(), ',', t12);
    lemma_key_rt(nl_ind(d + 1), key_subtasks(), t13);
    lemma_tasks_rt(seq![' '], t.subtasks, d + 1, t14, (f - 1) as nat);
    lemma_p_ch(nl_ind(d), '}', rest);
    assert(TaskV {
        text: t.text,
        completed: t.completed,
        created_at: t.created_at,
        completed_at: t.completed_at,
        subtasks: t.subtasks,
    } =~= t);
}

/// Reading back a written task list restores it.
#[verifier::rlimit(100)]
proof fn lemma_tasks_rt(p: Seq<char>, ts: Seq<TaskV>, d: int, rest: Seq<char>, f: nat)
    requires
        all_ws(p),
        f >= size_ts(ts),
    ensures
        p_task_list(p + (ser_tasks(ts, d) + rest), f) == Some((ts, rest)),
    decreases ts, 1nat, 0nat,
{
    let input = p + (ser_tasks(ts, d) + rest);
    if ts.len() == 0 {
        assert(input =~= p + (seq!['['] + (seq![']'] + rest)));
        lemma_p_ch(p, '[', seq![']'] + rest);
        assert((seq![']'] + rest)[0] == ']');
        assert(sw(seq![']'] + rest) == seq![']'] + rest);
        assert((seq![']'] + rest).drop_first() =~= rest);
        assert(Seq::<TaskV>::empty() =~= ts);
    } else {
        let tail = ser_task_items(ts, d) + (nl_ind(d) + (seq![']'] + rest));
        assert(input =~= p + (seq!['['] + tail));
        lemma_p_ch(p, '[', tail);
        lemma_ws_nl_ind(d + 1);
        let items_tail = ser_task(ts[0], d + 1) + (if ts.len() == 1 {
            nl_ind(d) + (seq![']'] + rest)
        } else {
            seq![','] + (ser_task_items(ts.drop_first(), d) + (nl_ind(d) + (seq![']'] + rest)))
        });
        assert(tail =~= nl_ind(d + 1) + items_tail);
        lemma_sw_ws_prefix(nl_ind(d + 1), items_tail);
        assert(items_tail[0] == ser_task(ts[0], d + 1)[0]);
        assert(ser_task(ts[0], d + 1)[0] == '{');
        assert(sw(items_tail) == items_tail);
        assert(sw(tail) == items_tail);
        assert(items_tail[0] != ']');
        lemma_size_facts(ts);
        assert(input.len() >= ts.len()) by {
            lemma_ser_items_len(ts, d);
        }
        lemma_items_rt(ts, d, rest, f, input.len() as nat);
    }
}

/// Reading back the written items of a nonempty task list restores them and
/// eats the closing bracket.
#[verifier::rlimit(100)]
proof fn lemma_items_rt(ts: Seq<TaskV>, d: int, rest: Seq<char>, f: nat, k: nat)
    requires
        ts.len() > 0,
        f >= size_ts(ts),
        k >= ts.len(),
    ensures
        p_task_items(
            ser_task_items(ts, d) + (nl_ind(d) + (seq![']'] + rest)),
            f,
            k,
        ) == Some((ts, rest)),
    decreases ts, 0nat, 1nat,
{
    let input = ser_task_items(ts, d) + (nl_ind(d) + (seq![']'] + rest));
    lemma_size_facts(ts);
    if ts.len() == 1 {
        let tail = nl_ind(d) + (seq![']'] + rest);
        assert(input =~= nl_ind(d + 1) + (ser_task(ts[0], d + 1) + tail));
        lemma_ws_nl_ind(d + 1);
        lemma_ws_nl_ind(d);
        lemma_task_rt(nl_ind(d + 1), ts[0], d + 1, tail, f);
        lemma_sw_ws_prefix(nl_ind(d), seq![']'] + rest);
        assert((seq![']'] + rest)[0] == ']');
        assert(sw(seq![']'] + rest) == seq![']'] + rest);
        assert((seq![']'] + rest).drop_first() =~= rest);
        assert(seq![ts[0]] =~= ts);
    } else {
        let tail = seq![','] + (ser_task_items(ts.drop_first(), d) + (nl_ind(d) + (seq![']']
            + rest)));
        assert(input =~= nl_ind(d + 1) + (ser_task(ts[0], d + 1) + tail));
        lemma_ws_nl_ind(d + 1);
        lemma_task_rt(nl_ind(d + 1), ts[0], d + 1, tail, f);
        assert(tail[0] == ',');
        assert(sw(tail) == tail);
        assert(tail.drop_first() =~= ser_task_items(ts.drop_first(), d) + (nl_ind(d) + (seq![']']
            + rest)));
        lemma_items_rt(ts.drop_first(), d, rest, f, (k - 1) as nat);
        assert(seq![ts[0]] + ts.drop_first() =~= ts);
    }
}


/// The footprint of one project.
pub open spec fn size_p(p: ProjectV) -> nat {
    1 + size_ts(p.tasks)
}

/// The footprint of a project list.
pub open spec fn size_ps(ps: Seq<ProjectV>) -> nat
    decreases ps.len(),
{
    if ps.len() == 0 {
        0nat
    } else {
        size_p(ps[0]) + size_ps(ps.drop_first())
    }
}

proof fn lemma_size_ps_facts(ps: Seq<ProjectV>)
    ensures
        size_ps(ps) >= ps.len(),
        forall|i: int| 0 <= i < ps.len() ==> size_p(#[trigger] ps[i]) <= size_ps(ps),
        ps.len() > 0 ==> size_ps(ps.drop_first()) <= size_ps(ps),
    decreases ps.len(),
{
    if ps.len() > 0 {
        lemma_size_ps_facts(ps.drop_first());
        assert forall|i: int| 0 <= i < ps.len() implies size_p(#[trigger] ps[i]) <= size_ps(
            ps,
        ) by {
            if i > 0 {
                assert(ps.drop_first()[i - 1] == ps[i]);
            }
        }
    }
}

proof fn lemma_ser_project_len(p: ProjectV, d: int)
    ensures
        ser_project(p, d).len() >= size_p(p),
{
    lemma_ser_tasks_len(p.tasks, d + 1);
}

proof fn lemma_ser_proj_items_len(ps: Seq<ProjectV>, d: int)
    ensures
        ser_project_items(ps, d).len() >= size_ps(ps),
    decreases ps.len(),
{
    if ps.len() == 0 {
    } else if ps.len() == 1 {
        lemma_ser_project_len(ps[0], d + 1);
        assert(size_ps(ps.drop_first()) == 0);
    } else {
        lemma_ser_project_len(ps[0], d + 1);
        lemma_ser_proj_items_len(ps.drop_first(), d);
    }
}

proof fn lemma_ser_projects_len(ps: Seq<ProjectV>, d: int)
    ensures
        ser_projects(ps, d).len() >= size_ps(ps),
{
    if ps.len() > 0 {
        lemma_ser_proj_items_len(ps, d);
    }
}

/// The remainder of a written project after its opening brace.
pub open spec fn project_tail(p: ProjectV, d: int, rest: Seq<char>) -> Seq<char> {
    let t10 = nl_ind(d) + (seq!['}'] + rest);
    let t9 = ser_str(p.created_at) + t10;
    let t8 = nl_ind(d + 1) + (ser_key(key_created_at()) + t9);
    let t7 = seq![','] + t8;
    let t6 = ser_tasks(p.tasks, d + 1) + t7;
    let t5 = nl_ind(d + 1) + (ser_key(key_tasks()) + t6);
    let t4 = seq![','] + t5;
    let t3 = ser_str(p.name) + t4;
    nl_ind(d + 1) + (ser_key(key_name()) + t3)
}

proof fn lemma_ser_project_shape(p: ProjectV, d: int, rest: Seq<char>)
    ensures
        ser_project(p, d) + rest == seq!['{'] + project_tail(p, d, rest),
{
    let p0 = seq!['{'];
    let p1 = nl_ind(d + 1);
    let p2 = ser_key(key_name());
    let p3 = ser_str(p.name);
    let p4 = seq![','];
    let p5 = nl_ind(d + 1);
    let p6 = ser_key(key_tasks());
    let p7 = ser_tasks(p.tasks, d + 1);
    let p8 = seq![','];
    let p9 = nl_ind(d + 1);
    let p10 = ser_key(key_created_at());
    let p11 = ser_str(p.created_at);
    let p12 = nl_ind(d);
    let p13 = seq!['}'];
    let l1 = p0 + p1;
    let l2 = l1 + p2;
    let l3 = l2 + p3;
    let l4 = l3 + p4;
    let l5 = l4 + p5;
    let l6 = l5 + p6;
    let l7 = l6 + p7;
    let l8 = l7 + p8;
    let l9 = l8 + p9;
    let l10 = l9 + p10;
    let l11 = l10 + p11;
    let l12 = l11 + p12;
    let l13 = l12 + p13;
    assert(ser_project(p, d) == l13);
    lemma_rot(l12, p13, rest);
    let r13 = p13 + rest;
    lemma_rot(l11, p12, r13);
    let r12 = p12 + r13;
    lemma_rot(l10, p11, r12);
    let r11 = p11 + r12;
    lemma_rot(l9, p10, r11);
    let r10 = p10 + r11;
    lemma_rot(l8, p9, r10);
    let r9 = p9 + r10;
    lemma_rot(l7, p8, r9);
    let r8 = p8 + r9;
    lemma_rot(l6, p7, r8);
    let r7 = p7 + r8;
    lemma_rot(l5, p6, r7);
    let r6 = p6 + r7;
    lemma_rot(l4, p5, r6);
    let r5 = p5 + r6;
    lemma_rot(l3, p4, r5);
    let r4 = p4 + r5;
    lemma_rot(l2, p3, r4);
    let r3 = p3 + r4;
    lemma_rot(l1, p2, r3);
    let r2 = p2 + r3;
    lemma_rot(p0, p1, r2);
    let r1 = p1 + r2;
    assert(ser_project(p, d) + rest == p0 + r1);
    assert(r1 == project_tail(p, d, rest));
}

/// Reading back one written project restores it.
#[verifier::rlimit(100)]
proof fn lemma_project_rt(p: Seq<char>, pv: ProjectV, d: int, rest: Seq<char>, f: nat)
    requires
        all_ws(p),
        f >= size_ts(pv.tasks),
    ensures
        p_project(p + (ser_project(pv, d) + rest), f) == Some((pv, rest)),
{
    let input = p + (ser_project(pv, d) + rest);
    lemma_ws_nl_ind(d + 1);
    lemma_ws_nl_ind(d);
    assert(forall|i: int| 0 <= i < key_name().len() ==> plain_char(#[trigger] key_name()[i]));
    assert(forall|i: int| 0 <= i < key_tasks().len() ==> plain_char(#[trigger] key_tasks()[i]));
    assert(forall|i: int|
        0 <= i < key_created_at().len() ==> plain_char(#[trigger] key_created_at()[i]));
    let t10 = nl_ind(d) + (seq!['}'] + rest);
    let t9 = ser_str(pv.created_at) + t10;
    let t8 = nl_ind(d + 1) + (ser_key(key_created_at()) + t9);
    let t7 = seq![','] + t8;
    let t6 = ser_tasks(pv.tasks, d + 1) + t7;
    let t5 = nl_ind(d + 1) + (ser_key(key_tasks()) + t6);
    let t4 = seq![','] + t5;
    let t3 = ser_str(pv.name) + t4;
    let t1 = nl_ind(d + 1) + (ser_key(key_name()) + t3);
    lemma_ser_project_shape(pv, d, rest);
    assert(t1 == project_tail(pv, d, rest));
    assert(input == p + (seq!['{'] + t1));
    lemma_p_ch(p, '{', t1);
    lemma_key_rt(nl_ind(d + 1), key_name(), t3);
    lemma_str_rt(seq![' '], pv.name, t4);
    assert(Seq::<char>::empty() + t4 =~= t4);
    lemma_p_ch(Seq::<char>::empty(), ',', t5);
    lemma_key_rt(nl_ind(d + 1), key_tasks(), t6);
    lemma_tasks_rt(seq![' '], pv.tasks, d + 1, t7, f);
    assert(Seq::<char>::empty() + t7 =~= t7);
    lemma_p_ch(Seq::<char>::empty(), ',', t8);
    lemma_key_rt(nl_ind(d + 1), key_created_at(), t9);
    lemma_str_rt(seq![' '], pv.created_at, t10);
    lemma_p_ch(nl_ind(d), '}', rest);
    assert(ProjectV { name: pv.name, tasks: pv.tasks, created_at: pv.created_at } =~= pv);
}

/// Reading back the written items of a nonempty project list restores them.
#[verifier::rlimit(100)]
proof fn lemma_proj_items_rt(ps: Seq<ProjectV>, d: int, rest: Seq<char>, f: nat, k: nat)
    requires
        ps.len() > 0,
        f >= size_ps(ps),
        k >= ps.len(),
    ensures
        p_project_items(
            ser_project_items(ps, d) + (nl_ind(d) + (seq![']'] + rest)),
            f,
            k,
        ) == Some((ps, rest)),
    decreases ps.len(),
{
    let input = ser_project_items(ps, d) + (nl_ind(d) + (seq![']'] + rest));
    lemma_size_ps_facts(ps);
    if ps.len() == 1 {
        let tail = nl_ind(d) + (seq![']'] + rest);
        assert(input =~= nl_ind(d + 1) + (ser_project(ps[0], d + 1) + tail));
        lemma_ws_nl_ind(d + 1);
        lemma_ws_nl_ind(d);
        lemma_project_rt(nl_ind(d + 1), ps[0], d + 1, tail, f);
        lemma_sw_ws_prefix(nl_ind(d), seq![']'] + rest);
        assert((seq![']'] + rest)[0] == ']');
        assert(sw(seq![']'] + rest) == seq![']'] + rest);
        assert((seq![']'] + rest).drop_first() =~= rest);
        assert(seq![ps[0]] =~= ps);
    } else {
        let tail = seq![','] + (ser_project_items(ps.drop_first(), d) + (nl_ind(d) + (seq![']']
            + rest)));
        assert(input =~= nl_ind(d + 1) + (ser_project(ps[0], d + 1) + tail));
        lemma_ws_nl_ind(d + 1);
        lemma_project_rt(nl_ind(d + 1), ps[0], d + 1, tail, f);
        assert(tail[0] == ',');
        assert(sw(tail) == tail);
        assert(tail.drop_first() =~= ser_project_items(ps.drop_first(), d) + (nl_ind(d)
            + (seq![']'] + rest)));
        lemma_proj_items_rt(ps.drop_first(), d, rest, f, (k - 1) as nat);
        assert(seq![ps[0]] + ps.drop_first() =~= ps);
    }
}

/// Reading back a written project list restores it.
#[verifier::rlimit(100)]
proof fn lemma_projects_rt(p: Seq<char>, ps: Seq<ProjectV>, d: int, rest: Seq<char>, f: nat)
    requires
        all_ws(p),
        f >= size_ps(ps),
    ensures
        p_projects(p + (ser_projects(ps, d) + rest), f) == Some((ps, rest)),
{
    let input = p + (ser_projects(ps, d) + rest);
    if ps.len() == 0 {
        assert(input =~= p + (seq!['['] + (seq![']'] + rest)));
        lemma_p_ch(p, '[', seq![']'] + rest);
        assert((seq![']'] + rest)[0] == ']');
        assert(sw(seq![']'] + rest) == seq![']'] + rest);
        assert((seq![']'] + rest).drop_first() =~= rest);
        assert(Seq::<ProjectV>::empty() =~= ps);
    } else {
        let tail = ser_project_items(ps, d) + (nl_ind(d) + (seq![']'] + rest));
        assert(input =~= p + (seq!['['] + tail));
        lemma_p_ch(p, '[', tail);
        lemma_ws_nl_ind(d + 1);
        let items_tail = ser_project(ps[0], d + 1) + (if ps.len() == 1 {
            nl_ind(d) + (seq![']'] + rest)
        } else {
            seq![','] + (ser_project_items(ps.drop_first(), d) + (nl_ind(d) + (seq![']'] + rest)))
        });
        assert(tail =~= nl_ind(d + 1) + items_tail);
        lemma_sw_ws_prefix(nl_ind(d + 1), items_tail);
        assert(items_tail[0] == ser_project(ps[0], d + 1)[0]);
        assert(ser_project(ps[0], d + 1)[0] == '{');
        assert(sw(items_tail) == items_tail);
        assert(sw(tail) == items_tail);
        assert(items_tail[0] != ']');
        lemma_size_ps_facts(ps);
        assert(input.len() >= ps.len()) by {
            lemma_ser_proj_items_len(ps, d);
        }
        lemma_proj_items_rt(ps, d, rest, f, input.len() as nat);
    }
}

/// The remainder of the written store after its opening brace.
pub open spec fn store_tail(v: StoreV) -> Seq<char> {
    let t6 = nl_ind(0) + seq!['}'];
    let t5 = ser_projects(v.projects, 1) + t6;
    let t4 = nl_ind(1) + (ser_key(key_projects()) + t5);
    let t3 = seq![','] + t4;
    let t2 = ser_str(v.current_project) + t3;
    nl_ind(1) + (ser_key(key_current_project()) + t2)
}

proof fn lemma_ser_store_shape(v: StoreV)
    ensures
        ser_store(v) == seq!['{'] + store_tail(v),
{
    let p0 = seq!['{'];
    let p1 = nl_ind(1);
    let p2 = ser_key(key_current_project());
    let p3 = ser_str(v.current_project);
    let p4 = seq![','];
    let p5 = nl_ind(1);
    let p6 = ser_key(key_projects());
    let p7 = ser_projects(v.projects, 1);
    let p8 = nl_ind(0);
    let p9 = seq!['}'];
    let l1 = p0 + p1;
    let l2 = l1 + p2;
    let l3 = l2 + p3;
    let l4 = l3 + p4;
    let l5 = l4 + p5;
    let l6 = l5 + p6;
    let l7 = l6 + p7;
    let l8 = l7 + p8;
    let l9 = l8 + p9;
    assert(ser_store(v) == l9);
    let e = Seq::<char>::empty();
    assert(p9 + e =~= p9);
    lemma_rot(l8, p9, e);
    let r9 = p9 + e;
    lemma_rot(l7, p8, r9);
    let r8 = p8 + r9;
    lemma_rot(l6, p7, r8);
    let r7 = p7 + r8;
    lemma_rot(l5, p6, r7);
    let r6 = p6 + r7;
    lemma_rot(l4, p5, r6);
    let r5 = p5 + r6;
    lemma_rot(l3, p4, r5);
    let r4 = p4 + r5;
    lemma_rot(l2, p3, r4);
    let r3 = p3 + r4;
    lemma_rot(l1, p2, r3);
    let r2 = p2 + r3;
    lemma_rot(p0, p1, r2);
    let r1 = p1 + r2;
    assert(ser_store(v) + e =~= ser_store(v));
    assert(ser_store(v) == p0 + r1);
    assert(p8 + (p9 + e) =~= nl_ind(0) + seq!['}']);
    assert(r1 =~= store_tail(v));
}

/// Saving any store and loading the text back restores the store exactly,
/// field for field: the persistence round trip.
#[verifier::rlimit(100)]
pub proof fn lemma_store_round_trip(v: StoreV)
    ensures
        parse_store_text(ser_store(v)) == Some(v),
{
    let input = ser_store(v);
    lemma_ws_nl_ind(1);
    lemma_ws_nl_ind(0);
    assert(forall|i: int|
        0 <= i < key_current_project().len() ==> plain_char(
            #[trigger] key_current_project()[i],
        ));
    assert(forall|i: int|
        0 <= i < key_projects().len() ==> plain_char(#[trigger] key_projects()[i]));
    let t6 = nl_ind(0) + seq!['}'];
    let t5 = ser_projects(v.projects, 1) + t6;
    let t4 = nl_ind(1) + (ser_key(key_projects()) + t5);
    let t3 = seq![','] + t4;
    let t2 = ser_str(v.current_project) + t3;
    let t1 = nl_ind(1) + (ser_key(key_current_project()) + t2);
    lemma_ser_store_shape(v);
    assert(t1 == store_tail(v));
    assert(Seq::<char>::empty() + (seq!['{'] + t1) =~= input);
    lemma_p_ch(Seq::<char>::empty(), '{', t1);
    lemma_key_rt(nl_ind(1), key_current_project(), t2);
    lemma_str_rt(seq![' '], v.current_project, t3);
    assert(Seq::<char>::empty() + t3 =~= t3);
    lemma_p_ch(Seq::<char>::empty(), ',', t4);
    lemma_key_rt(nl_ind(1), key_projects(), t5);
    assert(input.len() >= size_ps(v.projects)) by {
        lemma_ser_projects_len(v.projects, 1);
    }
    lemma_projects_rt(seq![' '], v.projects, 1, t6, input.len() as nat);
    assert(t6 =~= nl_ind(0) + (seq!['}'] + Seq::<char>::empty()));
    lemma_p_ch(nl_ind(0), '}', Seq::<char>::empty());
    assert(StoreV { current_project: v.current_project, projects: v.projects } =~= v);
    assert(sw(Seq::<char>::empty()).len() == 0);
}

/// Migration settles after one write-back: a legacy array becomes the
/// single-project default store, whose own round trip is exact, so loading
/// the migrated file again yields the same tasks.
pub proof fn lemma_migration_round_trip(ts: Seq<TaskV>, stamp: Seq<char>)
    ensures
        crate::store::cur_tasks(migrated_store(ts, stamp)) == ts,
        parse_store_text(ser_store(migrated_store(ts, stamp))) == Some(migrated_store(ts, stamp)),
{
    let m = migrated_store(ts, stamp);
    assert(m.projects[0].name == default_name());
    assert(crate::store::proj_idx(m.projects, m.current_project) == 0);
    lemma_store_round_trip(m);
}

} // verus!
