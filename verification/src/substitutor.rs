//! Value resolution and text rewriting.
//!
//! For each placeholder occurrence, in scan order, the substitutor resolves
//! the variable name against an injected key/value environment under two
//! strictness flags, then rewrites the working text by replacing the
//! occurrence's literal placeholder syntax — the braced-with-default form
//! first, then the braced form, then the bare form — each globally across
//! the whole text. Replacement is pattern-based, not position-based, and
//! resolved values are inserted verbatim, never rescanned. The first
//! occurrence that violates policy aborts the call with no partial output.
//!
//! One canonical resolution rule serves both the bulk path and the
//! single-variable helper: a present-but-empty value with an attached
//! default resolves to the default even under the strict-empty flag; only
//! an empty value without a default fails there.

use vstd::prelude::*;

verus! {

use crate::errors::{EnvSubstError, SpecError};
use crate::parser::{OccSpec, extract_spec, extract_variables, scan};
use crate::text::{append_chars, chars_to_string, replace_all, replace_all_exec, str_to_chars};
use vstd::string::StringExecFns;

/// The specification-level model of an environment: its key/value pairs in
/// lookup order.
pub type EnvModel = Seq<(Seq<char>, Seq<char>)>;

/// The value bound to `name`: that of the first pair holding it, if any.
pub open spec fn env_lookup(env: EnvModel, name: Seq<char>) -> Option<Seq<char>>
    decreases env.len(),
{
    if env.len() == 0 {
        None
    } else if env[0].0 == name {
        Some(env[0].1)
    } else {
        env_lookup(env.drop_first(), name)
    }
}

/// An injected, read-only key/value environment: the lookup capability the
/// substitutor resolves variable names against.
pub struct Env {
    pairs: Vec<(String, String)>,
}

impl View for Env {
    type V = EnvModel;

    closed spec fn view(&self) -> EnvModel {
        self.pairs.deep_view()
    }
}

impl Env {
    /// The empty environment: no name is bound.
    pub fn new() -> (r: Env)
        ensures
            forall|k: Seq<char>| env_lookup(r@, k) is None,
    {
        let r = Env { pairs: Vec::new() };
        proof {
            assert(r@.len() == 0);
        }
        r
    }

    /// Binds `name` to `value`; an earlier binding of the same name is
    /// shadowed, every other binding is kept.
    pub fn set(&mut self, name: &str, value: &str)
        ensures
            forall|k: Seq<char>|
                env_lookup(final(self)@, k) == (if k == name@ {
                    Some(value@)
                } else {
                    env_lookup(old(self)@, k)
                }),
    {
        let ghost before = self@;
        self.pairs.insert(0, (name.to_owned(), value.to_owned()));
        proof {
            assert(self@ =~= seq![(name@, value@)] + before);
            assert forall|k: Seq<char>|
                env_lookup(self@, k) == (if k == name@ {
                    Some(value@)
                } else {
                    env_lookup(before, k)
                }) by {
                assert(self@.drop_first() =~= before);
            }
        }
    }

    /// The value bound to `name`, as [`env_lookup`] states it.
    pub fn get(&self, name: &str) -> (r: Option<String>)
        ensures
            r.deep_view() == env_lookup(self@, name@),
    {
        let key = name.to_owned();
        proof {
            assert(self@.skip(0) =~= self@);
        }
        let mut i: usize = 0;
        while i < self.pairs.len()
            invariant
                i <= self.pairs.len(),
                key@ == name@,
                env_lookup(self@, name@) == env_lookup(self@.skip(i as int), name@),
            decreases self.pairs.len() - i,
        {
            proof {
                assert(self@.skip(i as int)[0] == self@[i as int]);
            }
            if self.pairs[i].0 == key {
                return Some(self.pairs[i].1.clone());
            }
            proof {
                assert(self@.skip(i as int).drop_first() =~= self@.skip(i + 1 as int));
            }
            i = i + 1;
        }
        proof {
            assert(self@.skip(self@.len() as int).len() == 0);
        }
        None
    }
}

/// The canonical resolution rule for one occurrence. A found value that is
/// empty resolves to the attached default if there is one, and fails under
/// the strict-empty flag only where there is none; a missing name resolves
/// to the attached default if there is one, fails under either strict flag
/// where there is none, and resolves to the empty string otherwise.
pub open spec fn resolve_spec(
    found: Option<Seq<char>>,
    default: Option<Seq<char>>,
    name: Seq<char>,
    no_unset: bool,
    no_empty: bool,
) -> Result<Seq<char>, SpecError> {
    match found {
        Some(v) => {
            if no_empty && v.len() == 0 && default is None {
                Err(SpecError::Empty(name))
            } else if v.len() == 0 && default is Some {
                Ok(default->0)
            } else {
                Ok(v)
            }
        },
        None => {
            if default is Some {
                Ok(default->0)
            } else if no_unset || no_empty {
                Err(SpecError::NotSet(name))
            } else {
                Ok(Seq::empty())
            }
        },
    }
}

/// The text after one occurrence is rewritten with its resolved `value`:
/// the braced-with-default pattern (where a default is attached), then the
/// braced pattern, then the bare pattern, each replaced globally.
pub open spec fn apply_occ(
    text: Seq<char>,
    name: Seq<char>,
    default: Option<Seq<char>>,
    value: Seq<char>,
) -> Seq<char> {
    let t1 = match default {
        Some(d) => replace_all(text, "${"@ + name + ":-"@ + d + "}"@, value),
        None => text,
    };
    let t2 = replace_all(t1, "${"@ + name + "}"@, value);
    replace_all(t2, "$"@ + name, value)
}

/// The outcome of substituting the occurrences of `occs`, in order, into
/// `text`: the first policy violation aborts with its error and no partial
/// output.
pub open spec fn subst_occs(
    text: Seq<char>,
    occs: Seq<OccSpec>,
    env: EnvModel,
    no_unset: bool,
    no_empty: bool,
) -> Result<Seq<char>, SpecError>
    decreases occs.len(),
{
    if occs.len() == 0 {
        Ok(text)
    } else {
        match resolve_spec(env_lookup(env, occs[0].0), occs[0].1, occs[0].0, no_unset, no_empty) {
            Err(e) => Err(e),
            Ok(value) => subst_occs(
                apply_occ(text, occs[0].0, occs[0].1, value),
                occs.drop_first(),
                env,
                no_unset,
                no_empty,
            ),
        }
    }
}

/// What substitution returns on `text` under `env` and the two strictness
/// flags: extraction first, then occurrence-by-occurrence resolution and
/// rewriting.
pub open spec fn substitute_spec(
    text: Seq<char>,
    env: EnvModel,
    no_unset: bool,
    no_empty: bool,
) -> Result<Seq<char>, SpecError> {
    match extract_spec(text) {
        Err(msg) => Err(SpecError::Parsing(msg)),
        Ok(occs) => subst_occs(text, occs, env, no_unset, no_empty),
    }
}

/// Resolves one variable against `env` under the canonical rule, exactly as
/// [`resolve_spec`] states it.
pub fn substitute_variable(
    env: &Env,
    var: &str,
    default: Option<&str>,
    no_unset: bool,
    no_empty: bool,
) -> (r: Result<String, EnvSubstError>)
    ensures
        ({
            let outcome = resolve_spec(
                env_lookup(env@, var@),
                default.deep_view(),
                var@,
                no_unset,
                no_empty,
            );
            match r {
                Ok(s) => outcome == Ok::<Seq<char>, SpecError>(s@),
                Err(e) => outcome == Err::<Seq<char>, SpecError>(e@),
            }
        }),
{
    match env.get(var) {
        Some(v) => {
            let empty = v.as_str().is_empty();
            match default {
                Some(d) => if empty {
                    Ok(String::from_str(d))
                } else {
                    Ok(v)
                },
                None => if no_empty && empty {
                    Err(EnvSubstError::VariableEmpty(var.to_owned()))
                } else {
                    Ok(v)
                },
            }
        },
        None => match default {
            Some(d) => Ok(String::from_str(d)),
            None => if no_unset || no_empty {
                Err(EnvSubstError::VariableNotSet(var.to_owned()))
            } else {
                Ok(String::new())
            },
        },
    }
}

/// The pattern `${NAME:-DEFAULT}` as characters.
fn pattern_with_default(name: &String, default: &String) -> (r: Vec<char>)
    ensures
        r@ == "${"@ + name@ + ":-"@ + default@ + "}"@,
        r@.len() >= 1,
{
    let mut r = str_to_chars("${");
    let n = str_to_chars(name.as_str());
    append_chars(&mut r, &n);
    let mid = str_to_chars(":-");
    append_chars(&mut r, &mid);
    let d = str_to_chars(default.as_str());
    append_chars(&mut r, &d);
    let close = str_to_chars("}");
    append_chars(&mut r, &close);
    proof {
        reveal_strlit("${");
        assert(r@ =~= "${"@ + name@ + ":-"@ + default@ + "}"@);
    }
    r
}

/// The pattern `${NAME}` as characters.
fn pattern_braced(name: &String) -> (r: Vec<char>)
    ensures
        r@ == "${"@ + name@ + "}"@,
        r@.len() >= 1,
{
    let mut r = str_to_chars("${");
    let n = str_to_chars(name.as_str());
    append_chars(&mut r, &n);
    let close = str_to_chars("}");
    append_chars(&mut r, &close);
    proof {
        reveal_strlit("${");
        assert(r@ =~= "${"@ + name@ + "}"@);
    }
    r
}

/// The pattern `$NAME` as characters.
fn pattern_bare(name: &String) -> (r: Vec<char>)
    ensures
        r@ == "$"@ + name@,
        r@.len() >= 1,
{
    let mut r = str_to_chars("$");
    let n = str_to_chars(name.as_str());
    append_chars(&mut r, &n);
    proof {
        reveal_strlit("$");
        assert(r@ =~= "$"@ + name@);
    }
    r
}

/// Substitutes every placeholder of `input` against `env` under the two
/// strictness flags, exactly as [`substitute_spec`] states it: the
/// occurrences are extracted in scan order and each is resolved and
/// rewritten in turn, the first violation aborting the call.
pub fn substitute(input: &str, env: &Env, no_unset: bool, no_empty: bool) -> (r: Result<
    String,
    EnvSubstError,
>)
    ensures
        match r {
            Ok(s) => substitute_spec(input@, env@, no_unset, no_empty) == Ok::<
                Seq<char>,
                SpecError,
            >(s@),
            Err(e) => substitute_spec(input@, env@, no_unset, no_empty) == Err::<
                Seq<char>,
                SpecError,
            >(e@),
        },
{
    let occs = match extract_variables(input) {
        Ok(o) => o,
        Err(e) => {
            return Err(e);
        },
    };
    let ghost doccs = occs.deep_view();
    let mut cur: Vec<char> = str_to_chars(input);
    proof {
        assert(doccs.skip(0) =~= doccs);
    }
    let mut t: usize = 0;
    while t < occs.len()
        invariant
            t <= occs.len(),
            doccs == occs.deep_view(),
            doccs.len() == occs.len(),
            extract_spec(input@) == Ok::<Seq<OccSpec>, Seq<char>>(doccs),
            subst_occs(input@, doccs, env@, no_unset, no_empty) == subst_occs(
                cur@,
                doccs.skip(t as int),
                env@,
                no_unset,
                no_empty,
            ),
        decreases occs.len() - t,
    {
        proof {
            assert(doccs[t as int] == (occs[t as int].0@, occs[t as int].1.deep_view()));
            assert(doccs.skip(t as int)[0] == doccs[t as int]);
        }
        let default_ref: Option<&str> = match &occs[t].1 {
            Some(d) => Some(d.as_str()),
            None => None,
        };
        let value = match substitute_variable(env, occs[t].0.as_str(), default_ref, no_unset,
            no_empty) {
            Ok(v) => v,
            Err(e) => {
                return Err(e);
            },
        };
        let value_c = str_to_chars(value.as_str());
        let ghost before = cur@;
        if let Some(d) = &occs[t].1 {
            let pat = pattern_with_default(&occs[t].0, d);
            cur = replace_all_exec(&cur, &pat, &value_c);
        }
        let pat2 = pattern_braced(&occs[t].0);
        cur = replace_all_exec(&cur, &pat2, &value_c);
        let pat3 = pattern_bare(&occs[t].0);
        cur = replace_all_exec(&cur, &pat3, &value_c);
        proof {
            assert(cur@ == apply_occ(before, doccs[t as int].0, doccs[t as int].1, value@));
            assert(doccs.skip(t as int).drop_first() =~= doccs.skip(t + 1 as int));
        }
        t = t + 1;
    }
    proof {
        assert(doccs.skip(doccs.len() as int).len() == 0);
    }
    Ok(chars_to_string(&cur))
}

/// Law: text in which the scanner finds no placeholder is returned
/// unchanged by substitution, under every environment and every
/// combination of the two strictness flags. Running substitution again on
/// such text is therefore the identity as well.
pub proof fn lemma_no_placeholders_unchanged(
    text: Seq<char>,
    env: EnvModel,
    no_unset: bool,
    no_empty: bool,
)
    requires
        scan(text, 0) == Seq::<OccSpec>::empty(),
    ensures
        substitute_spec(text, env, no_unset, no_empty) == Ok::<Seq<char>, SpecError>(text),
{
    assert(subst_occs(text, scan(text, 0), env, no_unset, no_empty) == Ok::<Seq<char>, SpecError>(
        text,
    ));
}

} // verus!

