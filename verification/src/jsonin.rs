//! Reading the persisted JSON back: an exact description of which texts are
//! accepted and what store they denote, and the parser that implements it.
//!
//! The grammar is the one the writer emits — the object keys in their fixed
//! order — read with arbitrary whitespace between tokens, so files written
//! by other pretty-printers of the same shape are accepted too. String
//! escapes cover the forms the writer and common writers emit: the short
//! escapes and `\u00..` for ASCII code points.
//!
//! The nesting of tasks is bounded by an explicit fuel, and list length by a
//! second one; the top-level entry points hand in the input length, which
//! the round-trip proof shows is always enough for written stores.

use vstd::prelude::*;

use crate::model::{
    lemma_tasks_view_push, tasks_view, Project, ProjectStore, ProjectV, StoreV, Task, TaskV,
};
use crate::util::{chars_of_str, string_from_chars};
use vstd::slice::{slice_index_get, slice_subrange};
use crate::jsonout::{
    key_completed, key_completed_at, key_created_at, key_current_project, key_name, key_projects,
    key_subtasks, key_tasks, key_text,
};

verus! {

/// JSON inter-token whitespace.
pub open spec fn is_ws(c: char) -> bool {
    c == ' ' || c == '\n' || c == '\t' || c == '\r'
}

/// The input with its leading whitespace removed.
pub open spec fn sw(s: Seq<char>) -> Seq<char>
    decreases s.len(),
{
    if s.len() > 0 && is_ws(s[0]) {
        sw(s.drop_first())
    } else {
        s
    }
}

/// Consumes exactly `lit` from the front.
pub open spec fn p_lit(s: Seq<char>, lit: Seq<char>) -> Option<Seq<char>> {
    if s.len() >= lit.len() && s.take(lit.len() as int) == lit {
        Some(s.skip(lit.len() as int))
    } else {
        None
    }
}

/// Consumes leading whitespace and then one given character.
pub open spec fn p_ch(s: Seq<char>, c: char) -> Option<Seq<char>> {
    let s0 = sw(s);
    if s0.len() > 0 && s0[0] == c {
        Some(s0.drop_first())
    } else {
        None
    }
}

/// The character a short escape stands for.
pub open spec fn unesc_char(e: char) -> Option<char> {
    if e == '"' {
        Some('"')
    } else if e == '\\' {
        Some('\\')
    } else if e == '/' {
        Some('/')
    } else if e == 'b' {
        Some('\u{8}')
    } else if e == 'f' {
        Some('\u{c}')
    } else if e == 'n' {
        Some('\n')
    } else if e == 'r' {
        Some('\r')
    } else if e == 't' {
        Some('\t')
    } else {
        None
    }
}

/// Value of a hexadecimal digit, or `-1`.
pub open spec fn hex_val(c: char) -> int {
    if 48 <= c as u32 && c as u32 <= 57 {
        c as u32 - 48
    } else if 97 <= c as u32 && c as u32 <= 102 {
        c as u32 - 87
    } else if 65 <= c as u32 && c as u32 <= 70 {
        c as u32 - 55
    } else {
        -1
    }
}

/// The body of a string literal, after its opening quote: the decoded text
/// and what follows the closing quote. Raw control characters are refused;
/// `\u` escapes are read up to `0x7f`.
pub open spec fn p_str_body(s: Seq<char>) -> Option<(Seq<char>, Seq<char>)>
    decreases s.len(),
{
    if s.len() == 0 {
        None
    } else if s[0] == '"' {
        Some((Seq::empty(), s.drop_first()))
    } else if s[0] == '\\' {
        if s.len() < 2 {
            None
        } else if s[1] == 'u' {
            if s.len() < 6 {
                None
            } else {
                let v = hex_val(s[2]) * 4096 + hex_val(s[3]) * 256 + hex_val(s[4]) * 16 + hex_val(
                    s[5],
                );
                if hex_val(s[2]) < 0 || hex_val(s[3]) < 0 || hex_val(s[4]) < 0 || hex_val(s[5]) < 0
                    || v >= 128 {
                    None
                } else {
                    match p_str_body(s.skip(6)) {
                        Some((t, r)) => Some((seq![(v as u8) as char] + t, r)),
                        None => None,
                    }
                }
            }
        } else {
            match unesc_char(s[1]) {
                Some(c) => match p_str_body(s.skip(2)) {
                    Some((t, r)) => Some((seq![c] + t, r)),
                    None => None,
                },
                None => None,
            }
        }
    } else if (s[0] as u32) < 32 {
        None
    } else {
        match p_str_body(s.drop_first()) {
            Some((t, r)) => Some((seq![s[0]] + t, r)),
            None => None,
        }
    }
}

/// A string literal, leading whitespace allowed.
pub open spec fn p_str(s: Seq<char>) -> Option<(Seq<char>, Seq<char>)> {
    let s0 = sw(s);
    if s0.len() > 0 && s0[0] == '"' {
        p_str_body(s0.drop_first())
    } else {
        None
    }
}

/// `true` or `false`, leading whitespace allowed.
pub open spec fn p_bool(s: Seq<char>) -> Option<(bool, Seq<char>)> {
    let s0 = sw(s);
    match p_lit(s0, crate::jsonout::lit_true()) {
        Some(r) => Some((true, r)),
        None => match p_lit(s0, crate::jsonout::lit_false()) {
            Some(r) => Some((false, r)),
            None => None,
        },
    }
}

/// `null` or a string literal.
pub open spec fn p_opt_str(s: Seq<char>) -> Option<(Option<Seq<char>>, Seq<char>)> {
    let s0 = sw(s);
    match p_lit(s0, crate::jsonout::lit_null()) {
        Some(r) => Some((None, r)),
        None => match p_str(s0) {
            Some((t, r)) => Some((Some(t), r)),
            None => None,
        },
    }
}

/// The quoted key `k` followed by a colon, whitespace allowed around both.
pub open spec fn p_key(s: Seq<char>, k: Seq<char>) -> Option<Seq<char>> {
    match p_lit(sw(s), seq!['"'] + k + seq!['"']) {
        Some(r) => p_ch(r, ':'),
        None => None,
    }
}

/// One task object. `f` bounds the nesting depth of subtask lists.
pub open spec fn p_task(s: Seq<char>, f: nat) -> Option<(TaskV, Seq<char>)>
    decreases f, 0nat, 0nat,
{
    if f == 0 {
        None
    } else {
        match p_ch(s, '{') {
            None => None,
            Some(s1) => match p_key(s1, key_text()) {
                None => None,
                Some(s2) => match p_str(s2) {
                    None => None,
                    Some((text, s3)) => match p_ch(s3, ',') {
                        None => None,
                        Some(s4) => match p_key(s4, key_completed()) {
                            None => None,
                            Some(s5) => match p_bool(s5) {
                                None => None,
                                Some((completed, s6)) => match p_ch(s6, ',') {
                                    None => None,
                                    Some(s7) => match p_key(s7, key_created_at()) {
                                        None => None,
                                        Some(s8) => match p_str(s8) {
                                            None => None,
                                            Some((created_at, s9)) => match p_ch(s9, ',') {
                                                None => None,
                                                Some(s10) => match p_key(s10, key_completed_at()) {
                                                    None => None,
                                                    Some(s11) => match p_opt_str(s11) {
                                                        None => None,
                                                        Some((completed_at, s12)) => match p_ch(
                                                            s12,
                                                            ',',
                                                        ) {
                                                            None => None,
                                                            Some(s13) => match p_key(
                                                                s13,
                                                                key_subtasks(),
                                                            ) {
                                                                None => None,
                                                                Some(s14) => match p_task_list(
                                                                    s14,
                                                                    (f - 1) as nat,
                                                                ) {
                                                                    None => None,
                                                                    Some((subtasks, s15)) => match p_ch(
                                                                        s15,
                                                                        '}',
                                                                    ) {
                                                                        None => None,
                                                                        Some(s16) => Some(
                                                                            (
                                                                                TaskV {
                                                                                    text,
                                                                                    completed,
                                                                                    created_at,
                                                                                    completed_at,
                                                                                    subtasks,
                                                                                },
                                                                                s16,
                                                                            ),
                                                                        ),
                                                                    },
                                                                },
                                                            },
                                                        },
                                                    },
                                                },
                                            },
                                        },
                                    },
                                },
                            },
                        },
                    },
                },
            },
        }
    }
}

/// A task list: `[]`, or `[` items `]`.
pub open spec fn p_task_list(s: Seq<char>, f: nat) -> Option<(Seq<TaskV>, Seq<char>)>
    decreases f, s.len() + 1, 2nat,
{
    match p_ch(s, '[') {
        None => None,
        Some(s1) => {
            let s2 = sw(s1);
            if s2.len() > 0 && s2[0] == ']' {
                Some((Seq::empty(), s2.drop_first()))
            } else {
                p_task_items(s1, f, s.len())
            }
        },
    }
}

/// One or more tasks separated by commas, up to the closing bracket.
/// `k` bounds how many items may follow.
pub open spec fn p_task_items(s: Seq<char>, f: nat, k: nat) -> Option<(Seq<TaskV>, Seq<char>)>
    decreases f, k, 1nat,
{
    if k == 0 {
        None
    } else {
        match p_task(s, f) {
            None => None,
            Some((t, r)) => {
                let r0 = sw(r);
                if r0.len() > 0 && r0[0] == ']' {
                    Some((seq![t], r0.drop_first()))
                } else if r0.len() > 0 && r0[0] == ',' {
                    match p_task_items(r0.drop_first(), f, (k - 1) as nat) {
                        Some((ts, r2)) => Some((seq![t] + ts, r2)),
                        None => None,
                    }
                } else {
                    None
                }
            },
        }
    }
}

/// One project object.
pub open spec fn p_project(s: Seq<char>, f: nat) -> Option<(ProjectV, Seq<char>)> {
    match p_ch(s, '{') {
        None => None,
        Some(s1) => match p_key(s1, key_name()) {
            None => None,
            Some(s2) => match p_str(s2) {
                None => None,
                Some((name, s3)) => match p_ch(s3, ',') {
                    None => None,
                    Some(s4) => match p_key(s4, key_tasks()) {
                        None => None,
                        Some(s5) => match p_task_list(s5, f) {
                            None => None,
                            Some((tasks, s6)) => match p_ch(s6, ',') {
                                None => None,
                                Some(s7) => match p_key(s7, key_created_at()) {
                                    None => None,
                                    Some(s8) => match p_str(s8) {
                                        None => None,
                                        Some((created_at, s9)) => match p_ch(s9, '}') {
                                            None => None,
                                            Some(s10) => Some(
                                                (ProjectV { name, tasks, created_at }, s10),
                                            ),
                                        },
                                    },
                                },
                            },
                        },
                    },
                },
            },
        },
    }
}

/// One or more projects separated by commas, up to the closing bracket.
pub open spec fn p_project_items(s: Seq<char>, f: nat, k: nat) -> Option<
    (Seq<ProjectV>, Seq<char>),
>
    decreases k,
{
    if k == 0 {
        None
    } else {
        match p_project(s, f) {
            None => None,
            Some((p, r)) => {
                let r0 = sw(r);
                if r0.len() > 0 && r0[0] == ']' {
                    Some((seq![p], r0.drop_first()))
                } else if r0.len() > 0 && r0[0] == ',' {
                    match p_project_items(r0.drop_first(), f, (k - 1) as nat) {
                        Some((ps, r2)) => Some((seq![p] + ps, r2)),
                        None => None,
                    }
                } else {
                    None
                }
            },
        }
    }
}

/// A project list.
pub open spec fn p_projects(s: Seq<char>, f: nat) -> Option<(Seq<ProjectV>, Seq<char>)> {
    match p_ch(s, '[') {
        None => None,
        Some(s1) => {
            let s2 = sw(s1);
            if s2.len() > 0 && s2[0] == ']' {
                Some((Seq::empty(), s2.drop_first()))
            } else {
                p_project_items(s1, f, s.len())
            }
        },
    }
}

/// The store object.
pub open spec fn p_store(s: Seq<char>) -> Option<(StoreV, Seq<char>)> {
    match p_ch(s, '{') {
        None => None,
        Some(s1) => match p_key(s1, key_current_project()) {
            None => None,
            Some(s2) => match p_str(s2) {
                None => None,
                Some((current_project, s3)) => match p_ch(s3, ',') {
                    None => None,
                    Some(s4) => match p_key(s4, key_projects()) {
                        None => None,
                        Some(s5) => match p_projects(s5, s.len()) {
                            None => None,
                            Some((projects, s6)) => match p_ch(s6, '}') {
                                None => None,
                                Some(s7) => Some((StoreV { current_project, projects }, s7)),
                            },
                        },
                    },
                },
            },
        },
    }
}

/// Which texts are read as a current-format store: the store object with
/// nothing but whitespace after it.
pub open spec fn parse_store_text(s: Seq<char>) -> Option<StoreV> {
    match p_store(s) {
        Some((v, r)) => if sw(r).len() == 0 {
            Some(v)
        } else {
            None
        },
        None => None,
    }
}

/// Which texts are read as a legacy bare task array.
pub open spec fn parse_legacy_text(s: Seq<char>) -> Option<Seq<TaskV>> {
    match p_task_list(s, s.len()) {
        Some((ts, r)) => if sw(r).len() == 0 {
            Some(ts)
        } else {
            None
        },
        None => None,
    }
}


/// Leading whitespace skipped, as a subslice.
fn x_sw<'a>(s: &'a [char]) -> (r: &'a [char])
    ensures
        r@ == sw(s@),
{
    let n = s.len();
    let mut i: usize = 0;
    proof {
        assert(s@.skip(0) =~= s@);
    }
    while i < n
        invariant
            0 <= i <= s@.len(),
            n == s@.len(),
            sw(s@) == sw(s@.skip(i as int)),
        decreases s@.len() - i,
    {
        let c = *slice_index_get(s, i);
        proof {
            assert(s@.skip(i as int)[0] == s@[i as int]);
        }
        if !(c == ' ' || c == '\n' || c == '\t' || c == '\r') {
            proof {
                assert(sw(s@.skip(i as int)) == s@.skip(i as int));
            }
            return slice_subrange(s, i, n);
        }
        proof {
            assert(s@.skip(i as int).drop_first() =~= s@.skip(i + 1));
        }
        i = i + 1;
    }
    proof {
        assert(s@.skip(i as int).len() == 0);
        assert(sw(s@.skip(i as int)) == s@.skip(i as int));
        assert(s@.skip(i as int) =~= s@.skip(i as int));
    }
    slice_subrange(s, i, n)
}

/// Consumes whitespace and one expected character.
fn x_ch<'a>(s: &'a [char], c: char) -> (r: Option<&'a [char]>)
    ensures
        match r {
            Some(rest) => p_ch(s@, c) == Some(rest@),
            None => p_ch(s@, c) is None,
        },
{
    let s0 = x_sw(s);
    if s0.len() > 0 && *slice_index_get(s0, 0) == c {
        let rest = slice_subrange(s0, 1, s0.len());
        proof {
            assert(rest@ =~= sw(s@).drop_first());
        }
        Some(rest)
    } else {
        None
    }
}

/// Consumes exactly the characters of `lit`.
fn x_lit<'a>(s: &'a [char], lit: &Vec<char>) -> (r: Option<&'a [char]>)
    ensures
        match r {
            Some(rest) => p_lit(s@, lit@) == Some(rest@),
            None => p_lit(s@, lit@) is None,
        },
{
    let ln = lit.len();
    if s.len() < ln {
        return None;
    }
    let mut i: usize = 0;
    while i < ln
        invariant
            0 <= i <= lit@.len(),
            ln == lit@.len(),
            s@.len() >= lit@.len(),
            forall|j: int| 0 <= j < i ==> s@[j] == lit@[j],
        decreases lit@.len() - i,
    {
        if *slice_index_get(s, i) != lit[i] {
            proof {
                assert(s@.take(ln as int)[i as int] != lit@[i as int]);
                assert(s@.take(ln as int) != lit@);
            }
            return None;
        }
        i = i + 1;
    }
    proof {
        assert(s@.take(ln as int) =~= lit@);
    }
    Some(slice_subrange(s, ln, s.len()))
}

fn x_hex(c: char) -> (r: Option<u32>)
    ensures
        match r {
            Some(v) => hex_val(c) == v && v < 16,
            None => hex_val(c) < 0,
        },
{
    let cu = c as u32;
    if 48 <= cu && cu <= 57 {
        Some(cu - 48)
    } else if 97 <= cu && cu <= 102 {
        Some(cu - 87)
    } else if 65 <= cu && cu <= 70 {
        Some(cu - 55)
    } else {
        None
    }
}

fn x_unesc(e: char) -> (r: Option<char>)
    ensures
        r == unesc_char(e),
{
    if e == '"' {
        Some('"')
    } else if e == '\\' {
        Some('\\')
    } else if e == '/' {
        Some('/')
    } else if e == 'b' {
        Some('\u{8}')
    } else if e == 'f' {
        Some('\u{c}')
    } else if e == 'n' {
        Some('\n')
    } else if e == 'r' {
        Some('\r')
    } else if e == 't' {
        Some('\t')
    } else {
        None
    }
}

/// Identity on character sequences; a stable shape for triggers.
pub open spec fn seq_id(t: Seq<char>) -> Seq<char> {
    t
}

/// The body of a string literal, after the opening quote.
fn x_str_body<'a>(s: &'a [char]) -> (r: Option<(Vec<char>, &'a [char])>)
    ensures
        match r {
            Some((t, rest)) => p_str_body(s@) == Some((t@, rest@)),
            None => p_str_body(s@) is None,
        },
{
    let n = s.len();
    let mut acc: Vec<char> = Vec::new();
    let mut i: usize = 0;
    proof {
        assert(s@.skip(0) =~= s@);
        assert(forall|t: Seq<char>| Seq::<char>::empty() + t =~= #[trigger] seq_id(t));
        assert(p_str_body(s@) == (match p_str_body(s@.skip(0)) {
            Some((t, r)) => Some((Seq::<char>::empty() + t, r)),
            None => None::<(Seq<char>, Seq<char>)>,
        }));
    }
    while i <= n
        invariant
            0 <= i <= s@.len(),
            n == s@.len(),
            p_str_body(s@) == (match p_str_body(s@.skip(i as int)) {
                Some((t, r)) => Some((acc@ + t, r)),
                None => None::<(Seq<char>, Seq<char>)>,
            }),
        decreases s@.len() + 1 - i,
    {
        let ghost si = s@.skip(i as int);
        if i == n {
            proof {
                assert(si.len() == 0);
            }
            return None;
        }
        let c = *slice_index_get(s, i);
        proof {
            assert(si[0] == s@[i as int]);
        }
        if c == '"' {
            let rest = slice_subrange(s, i + 1, n);
            proof {
                assert(rest@ =~= si.drop_first());
                assert(acc@ + Seq::<char>::empty() =~= acc@);
            }
            return Some((acc, rest));
        }
        if c == '\\' {
            if n - i < 2 {
                proof {
                    assert(si.len() < 2);
                }
                return None;
            }
            let e = *slice_index_get(s, i + 1);
            proof {
                assert(si[1] == s@[i + 1]);
            }
            if e == 'u' {
                if n - i < 6 {
                    proof {
                        assert(si.len() < 6);
                    }
                    return None;
                }
                proof {
                    assert(si[2] == s@[i + 2]);
                    assert(si[3] == s@[i + 3]);
                    assert(si[4] == s@[i + 4]);
                    assert(si[5] == s@[i + 5]);
                }
                let h2 = x_hex(*slice_index_get(s, i + 2));
                let h3 = x_hex(*slice_index_get(s, i + 3));
                let h4 = x_hex(*slice_index_get(s, i + 4));
                let h5 = x_hex(*slice_index_get(s, i + 5));
                match (h2, h3, h4, h5) {
                    (Some(v2), Some(v3), Some(v4), Some(v5)) => {
                        let v: u32 = v2 * 4096 + v3 * 256 + v4 * 16 + v5;
                        if v >= 128 {
                            return None;
                        }
                        let c2 = (v as u8) as char;
                        let ghost accpre = acc@;
                        acc.push(c2);
                        proof {
                            assert(si.skip(6) =~= s@.skip(i + 6));
                            assert(forall|t: Seq<char>|
                                accpre + (seq![c2] + t) =~= #[trigger] (acc@ + t));
                        }
                        i = i + 6;
                    },
                    _ => {
                        return None;
                    },
                }
            } else {
                match x_unesc(e) {
                    Some(c2) => {
                        let ghost accpre = acc@;
                        acc.push(c2);
                        proof {
                            assert(si.skip(2) =~= s@.skip(i + 2));
                            assert(forall|t: Seq<char>|
                                accpre + (seq![c2] + t) =~= #[trigger] (acc@ + t));
                        }
                        i = i + 2;
                    },
                    None => {
                        return None;
                    },
                }
            }
        } else {
            let cu = c as u32;
            if cu < 32 {
                return None;
            }
            let ghost accpre = acc@;
            acc.push(c);
            proof {
                assert(si.drop_first() =~= s@.skip(i + 1));
                assert(forall|t: Seq<char>| accpre + (seq![c] + t) =~= #[trigger] (acc@ + t));
            }
            i = i + 1;
        }
    }
    proof {
        assert(false);
    }
    None
}

/// A string literal.
fn x_str<'a>(s: &'a [char]) -> (r: Option<(Vec<char>, &'a [char])>)
    ensures
        match r {
            Some((t, rest)) => p_str(s@) == Some((t@, rest@)),
            None => p_str(s@) is None,
        },
{
    let s0 = x_sw(s);
    if s0.len() > 0 && *slice_index_get(s0, 0) == '"' {
        let body = slice_subrange(s0, 1, s0.len());
        proof {
            assert(body@ =~= sw(s@).drop_first());
        }
        x_str_body(body)
    } else {
        None
    }
}

fn x_bool<'a>(s: &'a [char]) -> (r: Option<(bool, &'a [char])>)
    ensures
        match r {
            Some((b, rest)) => p_bool(s@) == Some((b, rest@)),
            None => p_bool(s@) is None,
        },
{
    let s0 = x_sw(s);
    let lt = chars_of_str("true");
    proof {
        reveal_strlit("true");
        assert(lt@ =~= crate::jsonout::lit_true());
    }
    match x_lit(s0, &lt) {
        Some(rest) => Some((true, rest)),
        None => {
            let lf = chars_of_str("false");
            proof {
                reveal_strlit("false");
                assert(lf@ =~= crate::jsonout::lit_false());
            }
            match x_lit(s0, &lf) {
                Some(rest) => Some((false, rest)),
                None => None,
            }
        },
    }
}

fn x_opt_str<'a>(s: &'a [char]) -> (r: Option<(Option<Vec<char>>, &'a [char])>)
    ensures
        match r {
            Some((t, rest)) => (match p_opt_str(s@) {
                Some((ov, rr)) => rr == rest@ && (match t {
                    Some(tv) => ov == Some(tv@),
                    None => ov is None,
                }),
                None => false,
            }),
            None => p_opt_str(s@) is None,
        },
{
    let s0 = x_sw(s);
    let ln = chars_of_str("null");
    proof {
        reveal_strlit("null");
        assert(ln@ =~= crate::jsonout::lit_null());
    }
    match x_lit(s0, &ln) {
        Some(rest) => Some((None, rest)),
        None => match x_str(s0) {
            Some((t, rest)) => Some((Some(t), rest)),
            None => None,
        },
    }
}

/// Builds the quoted form of a key.
fn quoted_chars(k: &str) -> (r: Vec<char>)
    ensures
        r@ == seq!['"'] + k@ + seq!['"'],
{
    let cs = chars_of_str(k);
    let mut r: Vec<char> = Vec::new();
    r.push('"');
    let mut i: usize = 0;
    while i < cs.len()
        invariant
            0 <= i <= cs@.len(),
            r@ =~= seq!['"'] + cs@.take(i as int),
        decreases cs@.len() - i,
    {
        r.push(cs[i]);
        proof {
            assert(cs@.take(i + 1) =~= cs@.take(i as int).push(cs@[i as int]));
            assert(r@ =~= seq!['"'] + cs@.take(i + 1));
        }
        i = i + 1;
    }
    r.push('"');
    proof {
        assert(cs@.take(cs@.len() as int) =~= cs@);
        assert(r@ =~= seq!['"'] + k@ + seq!['"']);
    }
    r
}

/// The quoted key followed by a colon.
fn x_key<'a>(s: &'a [char], qk: &Vec<char>, Ghost(k): Ghost<Seq<char>>) -> (r: Option<&'a [char]>)
    requires
        qk@ == seq!['"'] + k + seq!['"'],
    ensures
        match r {
            Some(rest) => p_key(s@, k) == Some(rest@),
            None => p_key(s@, k) is None,
        },
{
    let s0 = x_sw(s);
    match x_lit(s0, qk) {
        Some(r1) => x_ch(r1, ':'),
        None => None,
    }
}


/// One task object; `f` bounds subtask nesting exactly as in `p_task`.
fn x_task<'a>(s: &'a [char], f: usize) -> (r: Option<(Task, &'a [char])>)
    ensures
        match r {
            Some((t, rest)) => p_task(s@, f as nat) == Some((t@, rest@)),
            None => p_task(s@, f as nat) is None,
        },
    decreases f, 0nat, 0nat,
{
    if f == 0 {
        return None;
    }
    let s1 = match x_ch(s, '{') {
        Some(r) => r,
        None => {
            return None;
        },
    };
    let qk_text = quoted_chars("text");
    proof {
        reveal_strlit("text");
        assert(qk_text@ =~= seq!['"'] + key_text() + seq!['"']);
    }
    let s2 = match x_key(s1, &qk_text, Ghost(key_text())) {
        Some(r) => r,
        None => {
            return None;
        },
    };
    let (text, s3) = match x_str(s2) {
        Some(v) => v,
        None => {
            return None;
        },
    };
    let s4 = match x_ch(s3, ',') {
        Some(r) => r,
        None => {
            return None;
        },
    };
    let qk_completed = quoted_chars("completed");
    proof {
        reveal_strlit("completed");
        assert(qk_completed@ =~= seq!['"'] + key_completed() + seq!['"']);
    }
    let s5 = match x_key(s4, &qk_completed, Ghost(key_completed())) {
        Some(r) => r,
        None => {
            return None;
        },
    };
    let (completed, s6) = match x_bool(s5) {
        Some(v) => v,
        None => {
            return None;
        },
    };
    let s7 = match x_ch(s6, ',') {
        Some(r) => r,
        None => {
            return None;
        },
    };
    let qk_created = quoted_chars("created_at");
    proof {
        reveal_strlit("created_at");
        assert(qk_created@ =~= seq!['"'] + key_created_at() + seq!['"']);
    }
    let s8 = match x_key(s7, &qk_created, Ghost(key_created_at())) {
        Some(r) => r,
        None => {
            return None;
        },
    };
    let (created_at, s9) = match x_str(s8) {
        Some(v) => v,
        None => {
            return None;
        },
    };
    let s10 = match x_ch(s9, ',') {
        Some(r) => r,
        None => {
            return None;
        },
    };
    let qk_completed_at = quoted_chars("completed_at");
    proof {
        reveal_strlit("completed_at");
        assert(qk_completed_at@ =~= seq!['"'] + key_completed_at() + seq!['"']);
    }
    let s11 = match x_key(s10, &qk_completed_at, Ghost(key_completed_at())) {
        Some(r) => r,
        None => {
            return None;
        },
    };
    let (completed_at, s12) = match x_opt_str(s11) {
        Some(v) => v,
        None => {
            return None;
        },
    };
    let s13 = match x_ch(s12, ',') {
        Some(r) => r,
        None => {
            return None;
        },
    };
    let qk_subtasks = quoted_chars("subtasks");
    proof {
        reveal_strlit("subtasks");
        assert(qk_subtasks@ =~= seq!['"'] + key_subtasks() + seq!['"']);
    }
    let s14 = match x_key(s13, &qk_subtasks, Ghost(key_subtasks())) {
        Some(r) => r,
        None => {
            return None;
        },
    };
    let (subtasks, s15) = match x_task_list(s14, f - 1) {
        Some(v) => v,
        None => {
            return None;
        },
    };
    let s16 = match x_ch(s15, '}') {
        Some(r) => r,
        None => {
            return None;
        },
    };
    let text_s = string_from_chars(&text);
    let created_s = string_from_chars(&created_at);
    let completed_at_s: Option<String> = match completed_at {
        Some(cs) => Some(string_from_chars(&cs)),
        None => None,
    };
    let t = Task {
        text: text_s,
        completed,
        created_at: created_s,
        completed_at: completed_at_s,
        subtasks,
    };
    proof {
        match p_task(s@, f as nat) {
            Some((spec_t, spec_rest)) => {
                assert(t@ =~= spec_t);
            },
            None => {},
        }
    }
    Some((t, s16))
}

/// A task list.
fn x_task_list<'a>(s: &'a [char], f: usize) -> (r: Option<(Vec<Task>, &'a [char])>)
    ensures
        match r {
            Some((ts, rest)) => p_task_list(s@, f as nat) == Some((tasks_view(ts@), rest@)),
            None => p_task_list(s@, f as nat) is None,
        },
    decreases f, s@.len() + 1, 2nat,
{
    let s1 = match x_ch(s, '[') {
        Some(r) => r,
        None => {
            return None;
        },
    };
    let s2 = x_sw(s1);
    if s2.len() > 0 && *slice_index_get(s2, 0) == ']' {
        let rest = slice_subrange(s2, 1, s2.len());
        let ts: Vec<Task> = Vec::new();
        proof {
            assert(rest@ =~= sw(s1@).drop_first());
            assert(tasks_view(ts@) =~= Seq::<TaskV>::empty());
        }
        return Some((ts, rest));
    }
    x_task_items(s1, f, s.len())
}

/// Comma-separated tasks up to the closing bracket; `k` bounds the count.
fn x_task_items<'a>(s: &'a [char], f: usize, k: usize) -> (r: Option<(Vec<Task>, &'a [char])>)
    ensures
        match r {
            Some((ts, rest)) => p_task_items(s@, f as nat, k as nat) == Some(
                (tasks_view(ts@), rest@),
            ),
            None => p_task_items(s@, f as nat, k as nat) is None,
        },
    decreases f, k, 1nat,
{
    let mut acc: Vec<Task> = Vec::new();
    let mut si = s;
    let mut ki = k;
    loop
        invariant
            ki <= k,
            (match p_task_items(si@, f as nat, ki as nat) {
                Some((ts, r)) => p_task_items(s@, f as nat, k as nat) == Some(
                    (tasks_view(acc@) + ts, r),
                ),
                None => p_task_items(s@, f as nat, k as nat) is None,
            }),
        decreases ki,
    {
        if ki == 0 {
            return None;
        }
        let (t, r) = match x_task(si, f) {
            Some(v) => v,
            None => {
                return None;
            },
        };
        let ghost tv = t@;
        let r0 = x_sw(r);
        if r0.len() > 0 && *slice_index_get(r0, 0) == ']' {
            let rest = slice_subrange(r0, 1, r0.len());
            let ghost accpre = acc@;
            acc.push(t);
            proof {
                assert(rest@ =~= sw(r@).drop_first());
                lemma_tasks_view_push(accpre, t);
                assert(tasks_view(accpre) + seq![tv] =~= tasks_view(acc@));
            }
            return Some((acc, rest));
        }
        if r0.len() > 0 && *slice_index_get(r0, 0) == ',' {
            let rest = slice_subrange(r0, 1, r0.len());
            let ghost accpre = acc@;
            acc.push(t);
            proof {
                assert(rest@ =~= sw(r@).drop_first());
                lemma_tasks_view_push(accpre, t);
                assert(forall|ts: Seq<TaskV>|
                    tasks_view(accpre) + (seq![tv] + ts) =~= #[trigger] (tasks_view(acc@) + ts));
            }
            si = rest;
            ki = ki - 1;
        } else {
            return None;
        }
    }
}

/// One project object.
fn x_project<'a>(s: &'a [char], f: usize) -> (r: Option<(Project, &'a [char])>)
    ensures
        match r {
            Some((p, rest)) => p_project(s@, f as nat) == Some((p@, rest@)),
            None => p_project(s@, f as nat) is None,
        },
{
    let s1 = match x_ch(s, '{') {
        Some(r) => r,
        None => {
            return None;
        },
    };
    let qk_name = quoted_chars("name");
    proof {
        reveal_strlit("name");
        assert(qk_name@ =~= seq!['"'] + key_name() + seq!['"']);
    }
    let s2 = match x_key(s1, &qk_name, Ghost(key_name())) {
        Some(r) => r,
        None => {
            return None;
        },
    };
    let (name, s3) = match x_str(s2) {
        Some(v) => v,
        None => {
            return None;
        },
    };
    let s4 = match x_ch(s3, ',') {
        Some(r) => r,
        None => {
            return None;
        },
    };
    let qk_tasks = quoted_chars("tasks");
    proof {
        reveal_strlit("tasks");
        assert(qk_tasks@ =~= seq!['"'] + key_tasks() + seq!['"']);
    }
    let s5 = match x_key(s4, &qk_tasks, Ghost(key_tasks())) {
        Some(r) => r,
        None => {
            return None;
        },
    };
    let (tasks, s6) = match x_task_list(s5, f) {
        Some(v) => v,
        None => {
            return None;
        },
    };
    let s7 = match x_ch(s6, ',') {
        Some(r) => r,
        None => {
            return None;
        },
    };
    let qk_created = quoted_chars("created_at");
    proof {
        reveal_strlit("created_at");
        assert(qk_created@ =~= seq!['"'] + key_created_at() + seq!['"']);
    }
    let s8 = match x_key(s7, &qk_created, Ghost(key_created_at())) {
        Some(r) => r,
        None => {
            return None;
        },
    };
    let (created_at, s9) = match x_str(s8) {
        Some(v) => v,
        None => {
            return None;
        },
    };
    let s10 = match x_ch(s9, '}') {
        Some(r) => r,
        None => {
            return None;
        },
    };
    let p = Project {
        name: string_from_chars(&name),
        tasks,
        created_at: string_from_chars(&created_at),
    };
    proof {
        match p_project(s@, f as nat) {
            Some((spec_p, spec_rest)) => {
                assert(p@ =~= spec_p);
            },
            None => {},
        }
    }
    Some((p, s10))
}

/// Comma-separated projects up to the closing bracket.
fn x_project_items<'a>(s: &'a [char], f: usize, k: usize) -> (r: Option<
    (Vec<Project>, &'a [char]),
>)
    ensures
        match r {
            Some((ps, rest)) => p_project_items(s@, f as nat, k as nat) == Some(
                (crate::model::projects_view(ps@), rest@),
            ),
            None => p_project_items(s@, f as nat, k as nat) is None,
        },
{
    let mut acc: Vec<Project> = Vec::new();
    let mut si = s;
    let mut ki = k;
    loop
        invariant
            ki <= k,
            (match p_project_items(si@, f as nat, ki as nat) {
                Some((ps, r)) => p_project_items(s@, f as nat, k as nat) == Some(
                    (crate::model::projects_view(acc@) + ps, r),
                ),
                None => p_project_items(s@, f as nat, k as nat) is None,
            }),
        decreases ki,
    {
        if ki == 0 {
            return None;
        }
        let (p, r) = match x_project(si, f) {
            Some(v) => v,
            None => {
                return None;
            },
        };
        let ghost pv = p@;
        let r0 = x_sw(r);
        if r0.len() > 0 && *slice_index_get(r0, 0) == ']' {
            let rest = slice_subrange(r0, 1, r0.len());
            let ghost accpre = acc@;
            acc.push(p);
            proof {
                assert(rest@ =~= sw(r@).drop_first());
                assert(crate::model::projects_view(accpre) + seq![pv]
                    =~= crate::model::projects_view(acc@));
            }
            return Some((acc, rest));
        }
        if r0.len() > 0 && *slice_index_get(r0, 0) == ',' {
            let rest = slice_subrange(r0, 1, r0.len());
            let ghost accpre = acc@;
            acc.push(p);
            proof {
                assert(rest@ =~= sw(r@).drop_first());
                assert(forall|ps: Seq<ProjectV>|
                    crate::model::projects_view(accpre) + (seq![pv] + ps) =~= #[trigger] (
                    crate::model::projects_view(acc@) + ps));
            }
            si = rest;
            ki = ki - 1;
        } else {
            return None;
        }
    }
}

/// A project list.
fn x_projects<'a>(s: &'a [char], f: usize) -> (r: Option<(Vec<Project>, &'a [char])>)
    ensures
        match r {
            Some((ps, rest)) => p_projects(s@, f as nat) == Some(
                (crate::model::projects_view(ps@), rest@),
            ),
            None => p_projects(s@, f as nat) is None,
        },
{
    let s1 = match x_ch(s, '[') {
        Some(r) => r,
        None => {
            return None;
        },
    };
    let s2 = x_sw(s1);
    if s2.len() > 0 && *slice_index_get(s2, 0) == ']' {
        let rest = slice_subrange(s2, 1, s2.len());
        let ps: Vec<Project> = Vec::new();
        proof {
            assert(rest@ =~= sw(s1@).drop_first());
            assert(crate::model::projects_view(ps@) =~= Seq::<ProjectV>::empty());
        }
        return Some((ps, rest));
    }
    x_project_items(s1, f, s.len())
}

/// The store object.
fn x_store<'a>(s: &'a [char]) -> (r: Option<(ProjectStore, &'a [char])>)
    ensures
        match r {
            Some((st, rest)) => p_store(s@) == Some((st@, rest@)),
            None => p_store(s@) is None,
        },
{
    let s1 = match x_ch(s, '{') {
        Some(r) => r,
        None => {
            return None;
        },
    };
    let qk_cur = quoted_chars("current_project");
    proof {
        reveal_strlit("current_project");
        assert(qk_cur@ =~= seq!['"'] + key_current_project() + seq!['"']);
    }
    let s2 = match x_key(s1, &qk_cur, Ghost(key_current_project())) {
        Some(r) => r,
        None => {
            return None;
        },
    };
    let (current, s3) = match x_str(s2) {
        Some(v) => v,
        None => {
            return None;
        },
    };
    let s4 = match x_ch(s3, ',') {
        Some(r) => r,
        None => {
            return None;
        },
    };
    let qk_projects = quoted_chars("projects");
    proof {
        reveal_strlit("projects");
        assert(qk_projects@ =~= seq!['"'] + key_projects() + seq!['"']);
    }
    let s5 = match x_key(s4, &qk_projects, Ghost(key_projects())) {
        Some(r) => r,
        None => {
            return None;
        },
    };
    let (projects, s6) = match x_projects(s5, s.len()) {
        Some(v) => v,
        None => {
            return None;
        },
    };
    let s7 = match x_ch(s6, '}') {
        Some(r) => r,
        None => {
            return None;
        },
    };
    let st = ProjectStore { current_project: string_from_chars(&current), projects };
    proof {
        match p_store(s@) {
            Some((spec_st, spec_rest)) => {
                assert(st@ =~= spec_st);
            },
            None => {},
        }
    }
    Some((st, s7))
}

/// Reads a current-format store from text: the store object followed by
/// nothing but whitespace.
pub fn store_from_text(s: &str) -> (r: Option<ProjectStore>)
    ensures
        match r {
            Some(st) => parse_store_text(s@) == Some(st@),
            None => parse_store_text(s@) is None,
        },
{
    let cs = chars_of_str(s);
    let sl = cs.as_slice();
    match x_store(sl) {
        Some((st, rest)) => {
            let r0 = x_sw(rest);
            if r0.len() == 0 {
                Some(st)
            } else {
                None
            }
        },
        None => None,
    }
}

/// Reads a legacy bare task array from text.
pub fn legacy_from_text(s: &str) -> (r: Option<Vec<Task>>)
    ensures
        match r {
            Some(ts) => parse_legacy_text(s@) == Some(tasks_view(ts@)),
            None => parse_legacy_text(s@) is None,
        },
{
    let cs = chars_of_str(s);
    let sl = cs.as_slice();
    match x_task_list(sl, sl.len()) {
        Some((ts, rest)) => {
            let r0 = x_sw(rest);
            if r0.len() == 0 {
                Some(ts)
            } else {
                None
            }
        },
        None => None,
    }
}

} // verus!
