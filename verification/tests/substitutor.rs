use envsub_rs::errors::EnvSubstError;
use envsub_rs::substitutor::{substitute, substitute_variable, Env};

#[test]
fn test_substitute_variable_not_set() {
    let env = Env::new();
    let result = substitute_variable(&env, "TEST_VAR", None, true, false);
    assert!(matches!(result, Err(EnvSubstError::VariableNotSet(_))));
}

#[test]
fn test_substitute_variable_empty() {
    let mut env = Env::new();
    env.set("TEST_VAR", "");
    let result = substitute_variable(&env, "TEST_VAR", None, false, true);
    assert!(matches!(result, Err(EnvSubstError::VariableEmpty(_))));
}

#[test]
fn test_substitute_variable_with_default() {
    let env = Env::new();
    let result = substitute_variable(&env, "TEST_VAR", Some("default"), true, true);
    assert_eq!(result.unwrap(), "default");

    let mut env = Env::new();
    env.set("TEST_VAR", "");
    let result = substitute_variable(&env, "TEST_VAR", Some("default"), true, true);
    assert_eq!(result.unwrap(), "default");
}

#[test]
fn test_substitute_variable_with_default_and_no_empty() {
    let mut env = Env::new();
    env.set("USER", "");
    let result = substitute_variable(&env, "USER", Some("guest"), false, true);
    assert_eq!(result.unwrap(), "guest");
}

#[test]
fn test_substitute_no_empty_with_mixed_variables() {
    let input = "Test $USER and ${USER:-guest}";

    let mut env = Env::new();
    env.set("USER", "");
    let result = substitute(input, &env, false, true);
    assert!(matches!(result, Err(EnvSubstError::VariableEmpty(_))));
}

#[test]
fn test_substitute_variable_set() {
    let mut env = Env::new();
    env.set("TEST_VAR", "value");
    let result = substitute_variable(&env, "TEST_VAR", None, false, false);
    assert_eq!(result.unwrap(), "value");
}

#[test]
fn test_substitute_with_flags() {
    let input = "Test $TEST_VAR and ${TEST_VAR} and ${TEST_VAR:-default}";

    let env = Env::new();
    let result = substitute(input, &env, true, false);
    assert!(matches!(result, Err(EnvSubstError::VariableNotSet(_))));

    let mut env = Env::new();
    env.set("TEST_VAR", "");
    let result = substitute(input, &env, false, true);
    assert!(matches!(result, Err(EnvSubstError::VariableEmpty(_))));

    let mut env = Env::new();
    env.set("TEST_VAR", "value");
    let result = substitute(input, &env, false, false).unwrap();
    assert_eq!(result, "Test value and value and value");

    let env = Env::new();
    let result = substitute(input, &env, false, false).unwrap();
    assert_eq!(result, "Test  and  and default");
}
