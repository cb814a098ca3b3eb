//! Text helpers: decimal rendering of indices and paths, decimal parsing of
//! positions, and the two conversions between `String` and `Vec<char>` that
//! the rest of the crate builds on.

use vstd::prelude::*;

verus! {

pub open spec fn is_digit(c: char) -> bool {
    48 <= c as u32 && c as u32 <= 57
}

pub open spec fn digit_val(c: char) -> int {
    c as u32 - 48
}

pub open spec fn digit_char(d: int) -> char {
    ((48 + d) as u8) as char
}

/// Numeric value of a digit string, most significant first.
pub open spec fn dec_val(s: Seq<char>) -> int
    decreases s.len(),
{
    if s.len() == 0 {
        0
    } else {
        dec_val(s.drop_last()) * 10 + digit_val(s.last())
    }
}

pub open spec fn all_digits(s: Seq<char>) -> bool {
    forall|i: int| 0 <= i < s.len() ==> is_digit(s[i])
}

/// What `str::parse::<usize>` accepts: an optional leading `+`, then one or
/// more decimal digits, with a value that fits in `usize`.
pub open spec fn parse_usize_v(s: Seq<char>) -> Option<usize> {
    let ds = if s.len() > 0 && s[0] == '+' {
        s.drop_first()
    } else {
        s
    };
    if ds.len() > 0 && all_digits(ds) && dec_val(ds) <= usize::MAX {
        Some(dec_val(ds) as usize)
    } else {
        None
    }
}

/// Decimal text of a non-negative number, without sign or padding.
pub open spec fn dec_text(n: int) -> Seq<char>
    decreases n,
{
    if n < 10 {
        seq![digit_char(n)]
    } else {
        dec_text(n / 10).push(digit_char(n % 10))
    }
}

/// A path rendered as dot-separated indices, `1.0.2`.
pub open spec fn path_text(p: Seq<usize>) -> Seq<char>
    decreases p.len(),
{
    if p.len() == 0 {
        Seq::empty()
    } else if p.len() == 1 {
        dec_text(p[0] as int)
    } else {
        dec_text(p[0] as int) + seq!['.'] + path_text(p.drop_first())
    }
}

/// Prefixes of a digit string never exceed the whole string's value.
proof fn lemma_dec_val_prefix(s: Seq<char>, k: int)
    requires
        0 <= k <= s.len(),
        all_digits(s),
    ensures
        dec_val(s.take(k)) <= dec_val(s),
    decreases s.len() - k,
{
    if k < s.len() {
        lemma_dec_val_prefix(s, k + 1);
        assert(s.take(k + 1).drop_last() =~= s.take(k));
        assert(all_digits(s.take(k))) by {
            assert(forall|j: int| 0 <= j < k ==> s.take(k)[j] == s[j]);
        }
        lemma_dec_val_nonneg(s.take(k));
        assert(dec_val(s.take(k + 1)) == dec_val(s.take(k)) * 10 + digit_val(s[k]));
        assert(dec_val(s.take(k)) * 10 >= dec_val(s.take(k))) by (nonlinear_arith)
            requires
                dec_val(s.take(k)) >= 0,
        ;
    } else {
        assert(s.take(k) =~= s);
    }
}

proof fn lemma_dec_val_nonneg(s: Seq<char>)
    requires
        all_digits(s),
    ensures
        dec_val(s) >= 0,
    decreases s.len(),
{
    if s.len() > 0 {
        assert(all_digits(s.drop_last())) by {
            assert(forall|i: int|
                0 <= i < s.drop_last().len() ==> s.drop_last()[i] == s[i] && is_digit(s[i]));
        }
        lemma_dec_val_nonneg(s.drop_last());
    }
}

/// The exact behaviour of `str::parse::<usize>` on this crate's inputs,
/// written out as a verified decimal parser.
pub fn parse_usize(s: &Vec<char>) -> (r: Option<usize>)
    ensures
        r == parse_usize_v(s@),
{
    let start: usize = if s.len() > 0 && s[0] == '+' {
        1
    } else {
        0
    };
    let ghost ds = if start == 1 {
        s@.drop_first()
    } else {
        s@
    };
    if s.len() == start {
        assert(ds.len() == 0);
        return None;
    }
    let mut val: usize = 0;
    let mut i: usize = start;
    proof {
        assert(ds =~= s@.subrange(start as int, s@.len() as int));
    }
    while i < s.len()
        invariant
            start <= i <= s@.len(),
            start == 1 ==> s@.len() > 0 && s@[0] == '+',
            start == 0 ==> !(s@.len() > 0 && s@[0] == '+'),
            start <= 1,
            ds == (if start == 1 {
                s@.drop_first()
            } else {
                s@
            }),
            ds =~= s@.subrange(start as int, s@.len() as int),
            all_digits(ds.take(i - start)),
            val == dec_val(ds.take(i - start)),
        decreases s@.len() - i,
    {
        let c = s[i];
        let cu: u32 = c as u32;
        if !(48 <= cu && cu <= 57) {
            proof {
                assert(!is_digit(ds[i - start]));
                assert(!all_digits(ds));
            }
            return None;
        }
        let d: usize = (cu - 48) as usize;
        if val > (usize::MAX - d) / 10 {
            proof {
                assert(all_digits(ds.take(i + 1 - start))) by {
                    assert(forall|j: int|
                        0 <= j < i + 1 - start ==> ds.take(i + 1 - start)[j] == ds[j]);
                }
                assert(ds.take(i + 1 - start).drop_last() =~= ds.take(i - start));
                assert(dec_val(ds.take(i + 1 - start)) == val * 10 + d);
                assert(val * 10 + d > usize::MAX) by (nonlinear_arith)
                    requires
                        val > (usize::MAX - d) / 10,
                        0 <= d <= 9,
                ;
                if all_digits(ds) {
                    lemma_dec_val_prefix(ds, i + 1 - start);
                }
            }
            return None;
        }
        proof {
            assert(val * 10 + d <= usize::MAX) by (nonlinear_arith)
                requires
                    val <= (usize::MAX - d) / 10,
                    0 <= d <= 9,
            ;
            assert(all_digits(ds.take(i + 1 - start))) by {
                assert(forall|j: int| 0 <= j < i + 1 - start ==> ds.take(i + 1 - start)[j] == ds[j]);
            }
            assert(ds.take(i + 1 - start).drop_last() =~= ds.take(i - start));
        }
        val = val * 10 + d;
        i = i + 1;
    }
    proof {
        assert(ds.take(i - start) =~= ds);
    }
    Some(val)
}

fn digit_to_char(d: usize) -> (r: char)
    requires
        0 <= d < 10,
    ensures
        r == digit_char(d as int),
{
    (48 + d as u8) as char
}

/// Appends the decimal text of `n` to `out`.
fn push_dec(out: &mut Vec<char>, n: usize)
    ensures
        final(out)@ == old(out)@ + dec_text(n as int),
    decreases n,
{
    if n < 10 {
        let c = digit_to_char(n);
        out.push(c);
        assert(out@ =~= old(out)@ + dec_text(n as int));
    } else {
        push_dec(out, n / 10);
        let c = digit_to_char(n % 10);
        out.push(c);
        assert(out@ =~= old(out)@ + dec_text(n as int));
    }
}

/// Renders a task path as dot-separated decimal indices.
pub fn format_path(path: &Vec<usize>) -> (r: String)
    ensures
        r@ == path_text(path@),
{
    let mut out: Vec<char> = Vec::new();
    let mut i: usize = 0;
    proof {
        assert(path@.skip(0) =~= path@);
        assert(path_text(path@) =~= out@ + path_text(path@.skip(0)));
    }
    while i < path.len()
        invariant
            0 <= i <= path@.len(),
            path_text(path@) =~= out@ + path_text(path@.skip(i as int)),
        decreases path@.len() - i,
    {
        proof {
            assert(path@.skip(i as int).drop_first() =~= path@.skip(i + 1));
            assert(path@.skip(i as int)[0] == path@[i as int]);
        }
        push_dec(&mut out, path[i]);
        if i + 1 < path.len() {
            out.push('.');
        }
        proof {
            assert(path_text(path@) =~= out@ + path_text(path@.skip(i + 1)));
        }
        i = i + 1;
    }
    proof {
        assert(path_text(path@) =~= out@);
    }
    string_from_chars(&out)
}

/// Relies on `String: FromIterator<char>`: collecting characters yields the
/// string of exactly those characters in order.
#[verifier::external_body]
pub fn string_from_chars(cs: &Vec<char>) -> (r: String)
    ensures
        r@ == cs@,
{
    cs.iter().collect()
}

/// Relies on `str::chars`: the iterator yields the string's characters in
/// order, which is also what the string's view is defined to be.
#[verifier::external_body]
pub fn chars_of_str(s: &str) -> (r: Vec<char>)
    ensures
        r@ == s@,
{
    s.chars().collect()
}


/// Element-wise comparison of two character vectors.
pub fn chars_eq(a: &Vec<char>, b: &Vec<char>) -> (r: bool)
    ensures
        r == (a@ == b@),
{
    if a.len() != b.len() {
        return false;
    }
    let mut i: usize = 0;
    while i < a.len()
        invariant
            0 <= i <= a@.len(),
            a@.len() == b@.len(),
            forall|j: int| 0 <= j < i ==> a@[j] == b@[j],
        decreases a@.len() - i,
    {
        if a[i] != b[i] {
            return false;
        }
        i = i + 1;
    }
    proof {
        assert(a@ =~= b@);
    }
    true
}

} // verus!
