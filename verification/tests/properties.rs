use envsub_rs::errors::EnvSubstError;
use envsub_rs::parser::extract_variables;
use envsub_rs::substitutor::{substitute, substitute_variable, Env};

#[test]
fn no_placeholders_unchanged_any_policy() {
    let text = "plain text, no dollars at all.";
    let mut env = Env::new();
    env.set("V", "value");
    for &no_unset in &[false, true] {
        for &no_empty in &[false, true] {
            let result = substitute(text, &env, no_unset, no_empty).unwrap();
            assert_eq!(result, text);
        }
    }
}

#[test]
fn all_three_forms_resolve_to_value() {
    let input = "Test $V and ${V} and ${V:-d}";
    let mut env = Env::new();
    env.set("V", "value");
    let result = substitute(input, &env, false, false).unwrap();
    assert_eq!(result, "Test value and value and value");
}

#[test]
fn unset_lenient_gives_empty_and_default() {
    let input = "Test $V and ${V} and ${V:-d}";
    let env = Env::new();
    let result = substitute(input, &env, false, false).unwrap();
    assert_eq!(result, "Test  and  and d");
}

#[test]
fn unset_strict_fails_variable_not_set() {
    let input = "Test $V and ${V} and ${V:-d}";
    let env = Env::new();
    let result = substitute(input, &env, true, false);
    match result {
        Err(EnvSubstError::VariableNotSet(name)) => assert_eq!(name, "V"),
        other => panic!("expected VariableNotSet, got {:?}", other),
    }
}

#[test]
fn empty_strict_fails_variable_empty() {
    let input = "Test $V and ${V} and ${V:-d}";
    let mut env = Env::new();
    env.set("V", "");
    let result = substitute(input, &env, false, true);
    match result {
        Err(EnvSubstError::VariableEmpty(name)) => assert_eq!(name, "V"),
        other => panic!("expected VariableEmpty, got {:?}", other),
    }
}

#[test]
fn colon_without_default_marker_is_parsing_error() {
    let env = Env::new();
    let result = substitute("${A:}", &env, false, false);
    match result {
        Err(EnvSubstError::ParsingError(msg)) => {
            assert_eq!(msg, "Invalid variable format: ${A:}");
        }
        other => panic!("expected ParsingError, got {:?}", other),
    }
}

#[test]
fn colon_with_empty_default_is_parsing_error() {
    let env = Env::new();
    let result = substitute("${A:-}", &env, false, false);
    assert!(matches!(result, Err(EnvSubstError::ParsingError(_))));
}

#[test]
fn substitution_is_idempotent_on_resolved_text() {
    let input = "Test $V and ${V} and ${V:-d}";
    let mut env = Env::new();
    env.set("V", "value");
    let once = substitute(input, &env, false, false).unwrap();
    let twice = substitute(&once, &env, false, false).unwrap();
    assert_eq!(twice, once);
}

#[test]
fn no_recursive_expansion_of_resolved_values() {
    let mut env = Env::new();
    env.set("V", "$W");
    env.set("W", "hidden");
    let result = substitute("Say $V now", &env, false, false).unwrap();
    assert_eq!(result, "Say $W now");
}

#[test]
fn replacement_is_pattern_based_not_position_based() {
    // The second `${V}` sits inside the bare placeholder token `$a${V}`, so
    // the parser never emits it as an occurrence of `V`; the global textual
    // replacement rewrites it all the same.
    let mut env = Env::new();
    env.set("V", "w");
    let result = substitute("${V} $a${V}", &env, false, false).unwrap();
    assert_eq!(result, "w $aw");
}

#[test]
fn empty_value_with_default_resolves_to_default_under_strict_empty() {
    // The canonical resolution rule: an attached default excuses an empty
    // value even under the strict-empty flag.
    let mut env = Env::new();
    env.set("V", "");
    let result = substitute("Only ${V:-d} here", &env, false, true).unwrap();
    assert_eq!(result, "Only d here");
}

#[test]
fn unset_with_default_and_no_flags_gives_default() {
    let env = Env::new();
    let result = substitute_variable(&env, "MISSING", Some("fallback"), false, false);
    assert_eq!(result.unwrap(), "fallback");
}

#[test]
fn extraction_keeps_scan_order_and_duplicates() {
    let occs = extract_variables("$a ${b} ${c:-x} $a").unwrap();
    let expected = vec![
        ("a".to_string(), None),
        ("b".to_string(), None),
        ("c".to_string(), Some("x".to_string())),
        ("a".to_string(), None),
    ];
    assert_eq!(occs, expected);
}

#[test]
fn bare_name_is_maximal_non_whitespace_run() {
    let occs = extract_variables("$a$b.c end").unwrap();
    assert_eq!(occs, vec![("a$b.c".to_string(), None)]);

    let mut env = Env::new();
    env.set("a$b.c", "x");
    let result = substitute("$a$b.c end", &env, false, false).unwrap();
    assert_eq!(result, "x end");
}

#[test]
fn lone_dollar_is_left_alone() {
    let env = Env::new();
    assert_eq!(substitute("$", &env, true, true).unwrap(), "$");
    assert_eq!(substitute("a $ b", &env, true, true).unwrap(), "a $ b");
}

#[test]
fn empty_input_stays_empty() {
    let env = Env::new();
    assert_eq!(substitute("", &env, true, true).unwrap(), "");
}

#[test]
fn whitespace_ends_a_bare_name() {
    let mut env = Env::new();
    env.set("V", "1");
    let result = substitute("$V\tx and $V\nend", &env, false, false).unwrap();
    assert_eq!(result, "1\tx and 1\nend");
}

#[test]
fn later_binding_shadows_earlier_one() {
    let mut env = Env::new();
    env.set("V", "first");
    env.set("V", "second");
    assert_eq!(env.get("V").unwrap(), "second");
    assert_eq!(substitute("${V}", &env, false, false).unwrap(), "second");
}

#[test]
fn default_may_contain_colons_and_dashes() {
    let env = Env::new();
    let result = substitute("${V:-a:-b}", &env, false, false).unwrap();
    assert_eq!(result, "a:-b");
}

#[test]
fn error_descriptions_name_the_variable() {
    let not_set = EnvSubstError::VariableNotSet("V".to_string());
    assert_eq!(not_set.describe(), "Variable V not set");
    let empty = EnvSubstError::VariableEmpty("V".to_string());
    assert_eq!(empty.describe(), "Variable V is empty");
    let parse = EnvSubstError::ParsingError("bad".to_string());
    assert_eq!(parse.describe(), "Parsing error: bad");
}

#[test]
fn failure_is_fail_fast_in_scan_order() {
    // The first occurrence in scan order decides which error is reported.
    let mut env = Env::new();
    env.set("B", "");
    let result = substitute("$A then $B", &env, true, true);
    match result {
        Err(EnvSubstError::VariableNotSet(name)) => assert_eq!(name, "A"),
        other => panic!("expected VariableNotSet for A, got {:?}", other),
    }
}
