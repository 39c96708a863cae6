//! Placeholder extraction.
//!
//! The scanner walks the text left to right. At each `$` it first tries the
//! braced forms — `${NAME:-DEFAULT}` (the name runs up to the first `:` or
//! `}` and must be non-empty; the default runs from after `:-` up to the
//! first `}` and must be non-empty) and `${NAME}` (the name must not contain
//! `:`) — and falls back to the bare form `$NAME`, whose name is the maximal
//! non-empty run of non-whitespace characters after the `$`. Scanning resumes
//! right after each recognized placeholder, so occurrences never overlap, and
//! duplicates of one name are all emitted, in scan order.
//!
//! A captured name that contains `:` without a captured default is malformed:
//! extraction fails with a parsing error naming the first such token.

use vstd::prelude::*;

verus! {

use crate::errors::EnvSubstError;
use crate::text::{copy_range, chars_to_string, str_to_chars};
use vstd::string::StringExecFns;

/// One placeholder occurrence at the specification level: the variable name
/// and the optional literal default.
pub type OccSpec = (Seq<char>, Option<Seq<char>>);

/// The whitespace characters that end a bare placeholder name: the ASCII
/// whitespace control characters and space, and the Unicode space separators.
pub open spec fn is_space(c: char) -> bool {
    ||| c == ' '
    ||| c == '\t'
    ||| c == '\n'
    ||| c == '\r'
    ||| c == '\u{000b}'
    ||| c == '\u{000c}'
    ||| c == '\u{0085}'
    ||| c == '\u{00a0}'
    ||| c == '\u{1680}'
    ||| ('\u{2000}' <= c && c <= '\u{200a}')
    ||| c == '\u{2028}'
    ||| c == '\u{2029}'
    ||| c == '\u{202f}'
    ||| c == '\u{205f}'
    ||| c == '\u{3000}'
}

/// The first position at or after `i` holding `stop1` or `stop2`, or the
/// length of the text if there is none.
pub open spec fn seek_stop(text: Seq<char>, i: int, stop1: char, stop2: char) -> int
    decreases text.len() - i,
    when 0 <= i <= text.len()
{
    if i == text.len() {
        i
    } else if text[i] == stop1 || text[i] == stop2 {
        i
    } else {
        seek_stop(text, i + 1, stop1, stop2)
    }
}

/// The first position at or after `i` holding whitespace, or the length of
/// the text if there is none.
pub open spec fn seek_space(text: Seq<char>, i: int) -> int
    decreases text.len() - i,
    when 0 <= i <= text.len()
{
    if i == text.len() {
        i
    } else if is_space(text[i]) {
        i
    } else {
        seek_space(text, i + 1)
    }
}

/// `seek_stop` stays within `[i, text.len()]`.
pub proof fn lemma_seek_stop_bounds(text: Seq<char>, i: int, stop1: char, stop2: char)
    requires
        0 <= i <= text.len(),
    ensures
        i <= seek_stop(text, i, stop1, stop2) <= text.len(),
    decreases text.len() - i,
{
    if i < text.len() && !(text[i] == stop1 || text[i] == stop2) {
        lemma_seek_stop_bounds(text, i + 1, stop1, stop2);
    }
}

/// `seek_space` stays within `[i, text.len()]`.
pub proof fn lemma_seek_space_bounds(text: Seq<char>, i: int)
    requires
        0 <= i <= text.len(),
    ensures
        i <= seek_space(text, i) <= text.len(),
    decreases text.len() - i,
{
    if i < text.len() && !is_space(text[i]) {
        lemma_seek_space_bounds(text, i + 1);
    }
}

/// The braced placeholder starting at position `i`, which must hold a `$`,
/// with the position right after it; `None` where neither braced form
/// matches there.
pub open spec fn braced_at(text: Seq<char>, i: int) -> Option<(OccSpec, int)>
    recommends
        0 <= i < text.len(),
{
    if i + 1 < text.len() && text[i + 1] == '{' {
        let j = seek_stop(text, i + 2, '}', ':');
        if i + 2 < j < text.len() {
            if text[j] == '}' {
                Some(((text.subrange(i + 2, j), None::<Seq<char>>), j + 1))
            } else if j + 1 < text.len() && text[j + 1] == '-' {
                let k = seek_stop(text, j + 2, '}', '}');
                if j + 2 < k < text.len() {
                    Some(((text.subrange(i + 2, j), Some(text.subrange(j + 2, k))), k + 1))
                } else {
                    None
                }
            } else {
                None
            }
        } else {
            None
        }
    } else {
        None
    }
}

/// The bare placeholder starting at position `i`, which must hold a `$`,
/// with the position right after it; `None` where the `$` is followed by
/// whitespace or by nothing.
pub open spec fn bare_at(text: Seq<char>, i: int) -> Option<(OccSpec, int)>
    recommends
        0 <= i < text.len(),
{
    let j = seek_space(text, i + 1);
    if j > i + 1 {
        Some(((text.subrange(i + 1, j), None::<Seq<char>>), j))
    } else {
        None
    }
}

/// The placeholder recognized at position `i`: the braced forms are tried
/// first, then the bare form.
pub open spec fn placeholder_at(text: Seq<char>, i: int) -> Option<(OccSpec, int)>
    recommends
        0 <= i < text.len(),
        text[i] == '$',
{
    match braced_at(text, i) {
        Some(m) => Some(m),
        None => bare_at(text, i),
    }
}

/// A recognized placeholder ends after `i` and within the text.
pub proof fn lemma_placeholder_at_bounds(text: Seq<char>, i: int)
    requires
        0 <= i < text.len(),
    ensures
        placeholder_at(text, i) matches Some(m) ==> i < m.1 <= text.len(),
{
    if i + 1 < text.len() && text[i + 1] == '{' {
        lemma_seek_stop_bounds(text, i + 2, '}', ':');
        let j = seek_stop(text, i + 2, '}', ':');
        if i + 2 < j < text.len() && text[j] != '}' && j + 1 < text.len() && text[j + 1] == '-' {
            lemma_seek_stop_bounds(text, j + 2, '}', '}');
        }
    }
    lemma_seek_space_bounds(text, i + 1);
}

/// The placeholder occurrences of `text` from position `i` on, in scan
/// order.
pub open spec fn scan(text: Seq<char>, i: int) -> Seq<OccSpec>
    decreases text.len() - i,
    when 0 <= i <= text.len()
    via scan_decreases
{
    if i == text.len() {
        Seq::empty()
    } else if text[i] == '$' {
        match placeholder_at(text, i) {
            Some(m) => seq![m.0] + scan(text, m.1),
            None => scan(text, i + 1),
        }
    } else {
        scan(text, i + 1)
    }
}

#[via_fn]
proof fn scan_decreases(text: Seq<char>, i: int) {
    if 0 <= i < text.len() {
        lemma_placeholder_at_bounds(text, i);
    }
}

/// Law: every occurrence the scanner emits carries a non-empty variable
/// name, in whichever of the three placeholder forms it was recognized.
pub proof fn lemma_scanned_names_nonempty(text: Seq<char>, i: int)
    requires
        0 <= i <= text.len(),
    ensures
        forall|t: int|
            0 <= t < scan(text, i).len() ==> #[trigger] scan(text, i)[t].0.len() > 0,
    decreases text.len() - i,
{
    if i < text.len() {
        if text[i] == '$' && placeholder_at(text, i) is Some {
            let (occ, next) = placeholder_at(text, i)->0;
            lemma_placeholder_at_bounds(text, i);
            lemma_scanned_names_nonempty(text, next);
            assert(scan(text, i) == seq![occ] + scan(text, next));
            assert(occ.0.len() > 0);
            assert forall|t: int| 0 <= t < scan(text, i).len() implies #[trigger] scan(
                text,
                i,
            )[t].0.len() > 0 by {
                if t == 0 {
                    assert(scan(text, i)[0] == occ);
                } else {
                    assert(scan(text, i)[t] == scan(text, next)[t - 1]);
                }
            }
        } else {
            lemma_scanned_names_nonempty(text, i + 1);
            assert(scan(text, i) == scan(text, i + 1));
        }
    } else {
        assert(scan(text, i).len() == 0);
    }
}

/// True when the name contains a colon.
pub open spec fn name_has_colon(name: Seq<char>) -> bool {
    exists|k: int| 0 <= k < name.len() && name[k] == ':'
}

/// True of a malformed occurrence: a name containing `:` that carries no
/// default.
pub open spec fn occ_malformed(occ: OccSpec) -> bool {
    name_has_colon(occ.0) && occ.1 is None
}

/// The index of the first malformed occurrence at or after `i`, or the
/// length of the sequence if there is none.
pub open spec fn first_malformed(occs: Seq<OccSpec>, i: int) -> int
    decreases occs.len() - i,
    when 0 <= i <= occs.len()
{
    if i == occs.len() {
        i
    } else if occ_malformed(occs[i]) {
        i
    } else {
        first_malformed(occs, i + 1)
    }
}

/// What extraction returns on `text`: the occurrences in scan order, or,
/// where some occurrence is malformed, the parsing-error message naming the
/// first one.
pub open spec fn extract_spec(text: Seq<char>) -> Result<Seq<OccSpec>, Seq<char>> {
    let occs = scan(text, 0);
    let b = first_malformed(occs, 0);
    if b < occs.len() {
        Err("Invalid variable format: $"@ + occs[b].0)
    } else {
        Ok(occs)
    }
}

/// True when `c` ends a bare name, as [`is_space`] states it.
fn is_space_exec(c: char) -> (r: bool)
    ensures
        r == is_space(c),
{
    c == ' ' || c == '\t' || c == '\n' || c == '\r' || c == '\u{000b}' || c == '\u{000c}'
        || c == '\u{0085}' || c == '\u{00a0}' || c == '\u{1680}' || ('\u{2000}' <= c && c
        <= '\u{200a}') || c == '\u{2028}' || c == '\u{2029}' || c == '\u{202f}' || c == '\u{205f}'
        || c == '\u{3000}'
}

/// The first position at or after `from` holding `stop1` or `stop2`, as
/// [`seek_stop`] states it.
fn seek_stop_exec(text: &Vec<char>, from: usize, stop1: char, stop2: char) -> (r: usize)
    requires
        from <= text.len(),
    ensures
        r as int == seek_stop(text@, from as int, stop1, stop2),
        from <= r <= text.len(),
{
    proof {
        lemma_seek_stop_bounds(text@, from as int, stop1, stop2);
    }
    let mut i: usize = from;
    while i < text.len()
        invariant
            from <= i <= text.len(),
            seek_stop(text@, from as int, stop1, stop2) == seek_stop(text@, i as int, stop1, stop2),
        decreases text.len() - i,
    {
        if text[i] == stop1 || text[i] == stop2 {
            return i;
        }
        i = i + 1;
    }
    i
}

/// The first position at or after `from` holding whitespace, as
/// [`seek_space`] states it.
fn seek_space_exec(text: &Vec<char>, from: usize) -> (r: usize)
    requires
        from <= text.len(),
    ensures
        r as int == seek_space(text@, from as int),
        from <= r <= text.len(),
{
    proof {
        lemma_seek_space_bounds(text@, from as int);
    }
    let mut i: usize = from;
    while i < text.len()
        invariant
            from <= i <= text.len(),
            seek_space(text@, from as int) == seek_space(text@, i as int),
        decreases text.len() - i,
    {
        if is_space_exec(text[i]) {
            return i;
        }
        i = i + 1;
    }
    i
}

/// The placeholder recognized at position `i`, as [`placeholder_at`] states
/// it, with the name and default already copied out as strings.
fn placeholder_at_exec(text: &Vec<char>, i: usize) -> (r: Option<((String, Option<String>), usize)>)
    requires
        i < text.len(),
        text@[i as int] == '$',
    ensures
        match r {
            Some(m) => placeholder_at(text@, i as int) == Some(
                ((m.0.0@, m.0.1.deep_view()), m.1 as int),
            ),
            None => placeholder_at(text@, i as int) is None,
        },
{
    if i + 1 < text.len() && text[i + 1] == '{' {
        let j = seek_stop_exec(text, i + 2, '}', ':');
        if i + 2 < j && j < text.len() {
            if text[j] == '}' {
                let name = chars_to_string(&copy_range(text, i + 2, j));
                return Some(((name, None), j + 1));
            }
            if j + 1 < text.len() && text[j + 1] == '-' {
                let k = seek_stop_exec(text, j + 2, '}', '}');
                if j + 2 < k && k < text.len() {
                    let name = chars_to_string(&copy_range(text, i + 2, j));
                    let default = chars_to_string(&copy_range(text, j + 2, k));
                    return Some(((name, Some(default)), k + 1));
                }
            }
        }
    }
    let j = seek_space_exec(text, i + 1);
    if j > i + 1 {
        let name = chars_to_string(&copy_range(text, i + 1, j));
        Some(((name, None), j))
    } else {
        None
    }
}

/// True when the name contains a colon, as [`name_has_colon`] states it.
fn has_colon_exec(name: &String) -> (r: bool)
    ensures
        r == name_has_colon(name@),
{
    let chars = str_to_chars(name.as_str());
    let mut i: usize = 0;
    while i < chars.len()
        invariant
            i <= chars.len(),
            chars@ == name@,
            forall|k: int| 0 <= k < i ==> name@[k] != ':',
        decreases chars.len() - i,
    {
        if chars[i] == ':' {
            return true;
        }
        i = i + 1;
    }
    false
}

/// All placeholders of `text`, in scan order, as [`scan`] states them.
fn scan_exec(text: &Vec<char>) -> (r: Vec<(String, Option<String>)>)
    ensures
        r.deep_view() == scan(text@, 0),
{
    let mut r: Vec<(String, Option<String>)> = Vec::new();
    let mut i: usize = 0;
    while i < text.len()
        invariant
            i <= text.len(),
            scan(text@, 0) == r.deep_view() + scan(text@, i as int),
        decreases text.len() - i,
    {
        if text[i] == '$' {
            match placeholder_at_exec(text, i) {
                Some((occ, next)) => {
                    proof {
                        lemma_placeholder_at_bounds(text@, i as int);
                        assert(scan(text@, i as int) =~= seq![(occ.0@, occ.1.deep_view())] + scan(
                            text@,
                            next as int,
                        ));
                    }
                    let ghost before = r.deep_view();
                    r.push(occ);
                    proof {
                        assert(r.deep_view() =~= before + seq![(r[r.len() - 1].0@, r[r.len()
                            - 1].1.deep_view())]);
                        assert(scan(text@, 0) =~= r.deep_view() + scan(text@, next as int));
                    }
                    i = next;
                },
                None => {
                    i = i + 1;
                },
            }
        } else {
            i = i + 1;
        }
    }
    proof {
        assert(scan(text@, 0) =~= r.deep_view());
    }
    r
}

/// Extracts the placeholder occurrences of `input` in scan order, each as
/// its variable name with the optional literal default, exactly as
/// [`extract_spec`] states it; a malformed occurrence yields
/// [`EnvSubstError::ParsingError`] with a message naming the first one.
pub fn extract_variables(input: &str) -> (r: Result<Vec<(String, Option<String>)>, EnvSubstError>)
    ensures
        match r {
            Ok(occs) => extract_spec(input@) == Ok::<Seq<OccSpec>, Seq<char>>(occs.deep_view()),
            Err(e) => {
                &&& e is ParsingError
                &&& e matches EnvSubstError::ParsingError(m) && extract_spec(input@) == Err::<
                    Seq<OccSpec>,
                    Seq<char>,
                >(m@)
            },
        },
{
    let text = str_to_chars(input);
    let occs = scan_exec(&text);
    let ghost doccs = occs.deep_view();
    let mut t: usize = 0;
    while t < occs.len()
        invariant
            t <= occs.len(),
            doccs == occs.deep_view(),
            doccs.len() == occs.len(),
            doccs == scan(input@, 0),
            first_malformed(doccs, 0) == first_malformed(doccs, t as int),
        decreases occs.len() - t,
    {
        let malformed = occs[t].1.is_none() && has_colon_exec(&occs[t].0);
        proof {
            assert(doccs[t as int] == (occs[t as int].0@, occs[t as int].1.deep_view()));
        }
        if malformed {
            proof {
                assert(occ_malformed(doccs[t as int]));
                assert(first_malformed(doccs, t as int) == t);
            }
            let mut msg = String::from_str("Invalid variable format: $");
            msg.append(occs[t].0.as_str());
            return Err(EnvSubstError::ParsingError(msg));
        }
        proof {
            assert(!occ_malformed(doccs[t as int]));
        }
        t = t + 1;
    }
    Ok(occs)
}

} // verus!
