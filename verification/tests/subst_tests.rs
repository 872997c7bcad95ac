use taskrabbit::model::VarValue;
use taskrabbit::subst::substitute_command;
use taskrabbit::subst::value_to_string;
use taskrabbit::TaskError;

fn vars(pairs: Vec<(&str, VarValue)>) -> Vec<(String, VarValue)> {
    pairs.into_iter().map(|(n, v)| (n.to_string(), v)).collect()
}

#[test]
fn scenario_target_release() {
    let variables = vars(vec![("target", VarValue::VStr("release".to_string()))]);
    let r = substitute_command(&"cargo build --$(target)".to_string(), &variables);
    assert_eq!(r, Ok("cargo build --release".to_string()));
}

#[test]
fn every_occurrence_is_replaced() {
    let variables = vars(vec![("x", VarValue::VStr("ab".to_string()))]);
    let r = substitute_command(&"$(x) mid $(x)$(x) end".to_string(), &variables).unwrap();
    assert_eq!(r, "ab mid abab end".to_string());
    assert!(!r.contains("$(x)"));
}

#[test]
fn undefined_token_is_left_intact() {
    let variables = vars(vec![("x", VarValue::VStr("ab".to_string()))]);
    let r = substitute_command(&"$(y) and $(x)".to_string(), &variables).unwrap();
    assert_eq!(r, "$(y) and ab".to_string());
}

#[test]
fn empty_table_leaves_command_unchanged() {
    let variables = vars(vec![]);
    let r = substitute_command(&"echo $(x)".to_string(), &variables).unwrap();
    assert_eq!(r, "echo $(x)".to_string());
}

#[test]
fn integers_render_in_decimal() {
    let variables = vars(vec![
        ("a", VarValue::VInt(42)),
        ("b", VarValue::VInt(-7)),
        ("c", VarValue::VInt(0)),
    ]);
    let r = substitute_command(&"$(a) $(b) $(c)".to_string(), &variables).unwrap();
    assert_eq!(r, "42 -7 0".to_string());
}

#[test]
fn extreme_integers_render_exactly() {
    assert_eq!(
        value_to_string(&VarValue::VInt(i64::MIN)),
        Ok("-9223372036854775808".to_string())
    );
    assert_eq!(
        value_to_string(&VarValue::VInt(i64::MAX)),
        Ok("9223372036854775807".to_string())
    );
}

#[test]
fn booleans_render_as_words() {
    assert_eq!(value_to_string(&VarValue::VBool(true)), Ok("true".to_string()));
    assert_eq!(value_to_string(&VarValue::VBool(false)), Ok("false".to_string()));
}

#[test]
fn rendered_scalars_pass_through() {
    assert_eq!(
        value_to_string(&VarValue::VStr("plain".to_string())),
        Ok("plain".to_string())
    );
    assert_eq!(
        value_to_string(&VarValue::VFloat("2.5".to_string())),
        Ok("2.5".to_string())
    );
    assert_eq!(
        value_to_string(&VarValue::VDatetime("1979-05-27T07:32:00Z".to_string())),
        Ok("1979-05-27T07:32:00Z".to_string())
    );
}

#[test]
fn arrays_and_tables_are_rejected() {
    assert_eq!(
        value_to_string(&VarValue::VArray),
        Err(TaskError::UnsupportedVariableType)
    );
    assert_eq!(
        value_to_string(&VarValue::VTable),
        Err(TaskError::UnsupportedVariableType)
    );
    let variables = vars(vec![("bad", VarValue::VTable)]);
    let r = substitute_command(&"echo plain".to_string(), &variables);
    assert_eq!(r, Err(TaskError::UnsupportedVariableType));
}
