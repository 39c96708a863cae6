//! Character-level text utilities: substring search and global
//! pattern replacement, with conversions between `String` and `Vec<char>`.
//!
//! Replacement is pattern-based: every occurrence of the pattern found in
//! the original text is rewritten, left to right, non-overlapping, and the
//! inserted value is never itself rescanned.

use vstd::prelude::*;

verus! {

use vstd::string::StrSliceExecFns;

/// True when `pat` occurs in `text` starting at position `j`.
pub open spec fn pat_matches_at(text: Seq<char>, pat: Seq<char>, j: int) -> bool {
    0 <= j && j + pat.len() <= text.len() && text.subrange(j, j + pat.len() as int) == pat
}

/// The first position at or after `from` where `pat` occurs in `text`,
/// if there is one. An empty pattern is never found.
pub open spec fn find_pat(text: Seq<char>, pat: Seq<char>, from: int) -> Option<int>
    decreases text.len() - from,
    when 0 <= from
{
    if pat.len() == 0 || from + pat.len() > text.len() {
        None
    } else if text.subrange(from, from + pat.len() as int) == pat {
        Some(from)
    } else {
        find_pat(text, pat, from + 1)
    }
}

/// Whatever `find_pat` returns lies within the text, at or after `from`,
/// is a match, and is the first match: no earlier position matches.
pub proof fn lemma_find_pat_bounds(text: Seq<char>, pat: Seq<char>, from: int)
    requires
        0 <= from,
    ensures
        find_pat(text, pat, from) matches Some(j) ==> {
            &&& from <= j
            &&& j + pat.len() <= text.len()
            &&& pat_matches_at(text, pat, j)
            &&& forall|k: int| from <= k < j ==> !pat_matches_at(text, pat, k)
        },
        find_pat(text, pat, from) is None && pat.len() >= 1 ==> forall|k: int|
            from <= k ==> !pat_matches_at(text, pat, k),
    decreases text.len() - from,
{
    if pat.len() == 0 || from + pat.len() > text.len() {
    } else if text.subrange(from, from + pat.len() as int) == pat {
    } else {
        lemma_find_pat_bounds(text, pat, from + 1);
    }
}

/// `text` with every occurrence of `pat` replaced by `val`: occurrences are
/// located in the original text, left to right and non-overlapping, and each
/// inserted copy of `val` is taken verbatim, never rescanned. An empty
/// pattern replaces nothing.
pub open spec fn replace_all(text: Seq<char>, pat: Seq<char>, val: Seq<char>) -> Seq<char>
    decreases text.len(),
    via replace_all_decreases
{
    if pat.len() == 0 {
        text
    } else {
        match find_pat(text, pat, 0) {
            None => text,
            Some(j) => text.subrange(0, j) + val + replace_all(
                text.subrange(j + pat.len() as int, text.len() as int),
                pat,
                val,
            ),
        }
    }
}

#[via_fn]
proof fn replace_all_decreases(text: Seq<char>, pat: Seq<char>, val: Seq<char>) {
    if pat.len() > 0 {
        lemma_find_pat_bounds(text, pat, 0);
    }
}

/// Law: a replacement value is inserted verbatim. At the first match
/// position the replaced text carries `val` itself, character for
/// character: the inserted copy is what the value holds, not a rescanned or
/// re-expanded form of it.
pub proof fn lemma_value_inserted_verbatim(text: Seq<char>, pat: Seq<char>, val: Seq<char>)
    requires
        pat.len() >= 1,
        find_pat(text, pat, 0) is Some,
    ensures
        ({
            let j = find_pat(text, pat, 0)->0;
            replace_all(text, pat, val).subrange(j, j + val.len() as int) == val
        }),
{
    lemma_find_pat_bounds(text, pat, 0);
    let j = find_pat(text, pat, 0)->0;
    let r = replace_all(text, pat, val);
    assert(r == text.subrange(0, j) + val + replace_all(
        text.subrange(j + pat.len() as int, text.len() as int),
        pat,
        val,
    ));
    assert(r.subrange(j, j + val.len() as int) =~= val);
}

/// The copy of `text@.subrange(from, to)`.
pub fn copy_range(text: &Vec<char>, from: usize, to: usize) -> (r: Vec<char>)
    requires
        from <= to <= text.len(),
    ensures
        r@ == text@.subrange(from as int, to as int),
{
    let mut r: Vec<char> = Vec::new();
    let mut i: usize = from;
    while i < to
        invariant
            from <= i <= to <= text.len(),
            r@ == text@.subrange(from as int, i as int),
        decreases to - i,
    {
        r.push(text[i]);
        proof {
            assert(r@ =~= text@.subrange(from as int, i + 1 as int));
        }
        i = i + 1;
    }
    r
}

/// Appends all of `src` to `dst`.
pub fn append_chars(dst: &mut Vec<char>, src: &Vec<char>)
    ensures
        final(dst)@ == old(dst)@ + src@,
{
    let ghost dst0 = dst@;
    let mut i: usize = 0;
    while i < src.len()
        invariant
            i <= src.len(),
            dst@ == dst0 + src@.subrange(0, i as int),
        decreases src.len() - i,
    {
        dst.push(src[i]);
        proof {
            assert(dst@ =~= dst0 + src@.subrange(0, i + 1 as int));
        }
        i = i + 1;
    }
    proof {
        assert(dst@ =~= dst0 + src@);
    }
}

/// True exactly when `pat` occurs in `text` at position `j`.
fn range_eq(text: &Vec<char>, j: usize, pat: &Vec<char>) -> (r: bool)
    requires
        j + pat.len() <= text.len(),
    ensures
        r == (text@.subrange(j as int, j + pat@.len()) == pat@),
{
    let mut k: usize = 0;
    while k < pat.len()
        invariant
            j + pat.len() <= text.len(),
            k <= pat.len(),
            text@.subrange(j as int, j + k as int) == pat@.subrange(0, k as int),
        decreases pat.len() - k,
    {
        if text[j + k] != pat[k] {
            proof {
                let ki = k as int;
                assert(text@.subrange(j as int, j + pat@.len())[ki] == text@[j + ki]);
            }
            return false;
        }
        proof {
            assert(text@.subrange(j as int, j + (k + 1) as int) =~= pat@.subrange(
                0,
                (k + 1) as int,
            ));
        }
        k = k + 1;
    }
    proof {
        assert(text@.subrange(j as int, j + pat@.len()) =~= pat@);
    }
    true
}

/// The position of the first occurrence of `pat` in `text`, if any; an
/// empty pattern is never found.
pub fn find_pat_exec(text: &Vec<char>, pat: &Vec<char>) -> (r: Option<usize>)
    ensures
        match r {
            Some(j) => find_pat(text@, pat@, 0) == Some(j as int),
            None => find_pat(text@, pat@, 0) is None,
        },
{
    if pat.len() == 0 || pat.len() > text.len() {
        return None;
    }
    let limit = text.len() - pat.len();
    let mut j: usize = 0;
    loop
        invariant
            pat.len() >= 1,
            pat.len() <= text.len(),
            limit == text.len() - pat.len(),
            j <= limit + 1,
            find_pat(text@, pat@, 0) == find_pat(text@, pat@, j as int),
        decreases limit + 1 - j,
    {
        if j > limit {
            return None;
        }
        if range_eq(text, j, pat) {
            return Some(j);
        }
        j = j + 1;
    }
}

/// `text` with every occurrence of `pat` replaced by `val`, as
/// [`replace_all`] states it; an empty pattern replaces nothing.
pub fn replace_all_exec(text: &Vec<char>, pat: &Vec<char>, val: &Vec<char>) -> (r: Vec<char>)
    ensures
        r@ == replace_all(text@, pat@, val@),
    decreases text@.len(),
{
    if pat.len() == 0 {
        return copy_range(text, 0, text.len());
    }
    match find_pat_exec(text, pat) {
        None => copy_range(text, 0, text.len()),
        Some(j) => {
            proof {
                lemma_find_pat_bounds(text@, pat@, 0);
            }
            let mut out = copy_range(text, 0, j);
            append_chars(&mut out, val);
            let rest = copy_range(text, j + pat.len(), text.len());
            let tail = replace_all_exec(&rest, pat, val);
            append_chars(&mut out, &tail);
            out
        },
    }
}

/// The characters of `s`, in order.
pub fn str_to_chars(s: &str) -> (r: Vec<char>)
    ensures
        r@ == s@,
{
    let n = s.unicode_len();
    let mut r: Vec<char> = Vec::new();
    let mut i: usize = 0;
    while i < n
        invariant
            i <= n,
            n == s@.len(),
            r@ == s@.subrange(0, i as int),
        decreases n - i,
    {
        r.push(s.get_char(i));
        proof {
            assert(r@ =~= s@.subrange(0, i + 1 as int));
        }
        i = i + 1;
    }
    proof {
        assert(r@ =~= s@);
    }
    r
}

/// Relies on `String::push`: appends one character to the string.
#[verifier::external_body]
fn push_char(s: &mut String, c: char)
    ensures
        final(s)@ == old(s)@ + seq![c],
{
    s.push(c);
}

/// The string holding exactly the characters of `v`, in order.
pub fn chars_to_string(v: &Vec<char>) -> (r: String)
    ensures
        r@ == v@,
{
    let mut r = String::new();
    let mut i: usize = 0;
    while i < v.len()
        invariant
            i <= v.len(),
            r@ == v@.subrange(0, i as int),
        decreases v.len() - i,
    {
        push_char(&mut r, v[i]);
        proof {
            assert(r@ =~= v@.subrange(0, i + 1 as int));
        }
        i = i + 1;
    }
    proof {
        assert(r@ =~= v@);
    }
    r
}

} // verus!
