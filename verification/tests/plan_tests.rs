use taskrabbit::model::EnvVar;
use taskrabbit::model::Task;
use taskrabbit::model::VarValue;
use taskrabbit::plan::command_outcome;
use taskrabbit::plan::parse_dotenv;
use taskrabbit::plan::plan_task;
use taskrabbit::plan::SpawnOutcome;
use taskrabbit::TaskError;

fn task(commands: Vec<&str>) -> Task {
    Task {
        env_vars: None,
        commands: commands.into_iter().map(|s| s.to_string()).collect(),
        platforms_supported: None,
        dotenv_file: None,
    }
}

fn env(pairs: Vec<(&str, &str)>) -> Vec<EnvVar> {
    pairs
        .into_iter()
        .map(|(n, v)| EnvVar { name: n.to_string(), value: v.to_string() })
        .collect()
}

fn no_vars() -> Vec<(String, VarValue)> {
    Vec::new()
}

#[test]
fn excluded_platform_yields_no_invocation() {
    let mut t = task(vec!["echo one"]);
    t.platforms_supported = Some(vec!["windows".to_string()]);
    let r = plan_task(&t, &no_vars(), None, "linux");
    assert_eq!(r.err(), Some(TaskError::UnsupportedPlatform));
}

#[test]
fn unrecognized_platform_entry_is_invalid() {
    let mut t = task(vec!["echo one"]);
    t.platforms_supported = Some(vec!["linux".to_string(), "amiga".to_string()]);
    let r = plan_task(&t, &no_vars(), None, "linux");
    assert_eq!(r.err(), Some(TaskError::InvalidPlatform));
}

#[test]
fn platform_entries_validate_case_insensitively_but_match_exactly() {
    let mut t = task(vec!["echo one"]);
    t.platforms_supported = Some(vec!["LINUX".to_string()]);
    // "LINUX" is a recognized platform name, but the host "linux" is not
    // verbatim among the entries.
    let r = plan_task(&t, &no_vars(), None, "linux");
    assert_eq!(r.err(), Some(TaskError::UnsupportedPlatform));
}

#[test]
fn matching_platform_passes_the_gate() {
    let mut t = task(vec!["echo one"]);
    t.platforms_supported = Some(vec!["macos".to_string(), "linux".to_string()]);
    let r = plan_task(&t, &no_vars(), None, "linux");
    assert!(r.is_ok());
}

#[test]
fn commands_keep_declared_order_and_split_on_spaces() {
    let t = task(vec!["echo one", "false", "echo three"]);
    let plan = plan_task(&t, &no_vars(), None, "linux").unwrap();
    assert_eq!(plan.invocations.len(), 3);
    assert_eq!(plan.invocations[0].program, "echo");
    assert_eq!(plan.invocations[0].args, vec!["one".to_string()]);
    assert_eq!(plan.invocations[1].program, "false");
    assert_eq!(plan.invocations[1].args, Vec::<String>::new());
    assert_eq!(plan.invocations[2].program, "echo");
    assert_eq!(plan.invocations[2].args, vec!["three".to_string()]);
}

#[test]
fn windows_routes_through_a_shell() {
    let t = task(vec!["echo one two"]);
    let plan = plan_task(&t, &no_vars(), None, "windows").unwrap();
    assert_eq!(plan.invocations[0].program, "cmd");
    assert_eq!(
        plan.invocations[0].args,
        vec!["/c".to_string(), "echo".to_string(), "one".to_string(), "two".to_string()]
    );
}

#[test]
fn adjacent_spaces_yield_empty_tokens() {
    let t = task(vec!["a  b"]);
    let plan = plan_task(&t, &no_vars(), None, "linux").unwrap();
    assert_eq!(plan.invocations[0].program, "a");
    assert_eq!(plan.invocations[0].args, vec!["".to_string(), "b".to_string()]);
}

#[test]
fn empty_command_keeps_its_single_empty_token() {
    let t = task(vec![""]);
    let plan = plan_task(&t, &no_vars(), None, "linux").unwrap();
    assert_eq!(plan.invocations[0].program, "");
    assert_eq!(plan.invocations[0].args, Vec::<String>::new());
}

#[test]
fn task_with_no_commands_plans_nothing_to_run() {
    let t = task(vec![]);
    let plan = plan_task(&t, &no_vars(), None, "linux").unwrap();
    assert_eq!(plan.invocations.len(), 0);
}

#[test]
fn substitution_happens_before_splitting() {
    let t = task(vec!["cargo build --$(target)"]);
    let variables = vec![("target".to_string(), VarValue::VStr("release".to_string()))];
    let plan = plan_task(&t, &variables, None, "linux").unwrap();
    assert_eq!(plan.invocations[0].program, "cargo");
    assert_eq!(
        plan.invocations[0].args,
        vec!["build".to_string(), "--release".to_string()]
    );
}

#[test]
fn nonscalar_variable_aborts_planning() {
    let t = task(vec!["echo one"]);
    let variables = vec![("bad".to_string(), VarValue::VArray)];
    let r = plan_task(&t, &variables, None, "linux");
    assert_eq!(r.err(), Some(TaskError::UnsupportedVariableType));
}

#[test]
fn nonscalar_variable_is_harmless_without_commands() {
    // Values are stringified only while substituting into a command, so a
    // task with no commands never trips over an array variable.
    let t = task(vec![]);
    let variables = vec![("bad".to_string(), VarValue::VArray)];
    let r = plan_task(&t, &variables, None, "linux");
    assert!(r.is_ok());
}

#[test]
fn dotenv_pairs_split_on_the_first_equals() {
    let pairs = parse_dotenv("FOO=bar\nBASE=a=b").unwrap();
    assert_eq!(pairs.len(), 2);
    assert_eq!((pairs[0].name.as_str(), pairs[0].value.as_str()), ("FOO", "bar"));
    assert_eq!((pairs[1].name.as_str(), pairs[1].value.as_str()), ("BASE", "a=b"));
}

#[test]
fn dotenv_empty_lines_are_ignored() {
    let pairs = parse_dotenv("FOO=bar\n\nBAZ=qux\n").unwrap();
    assert_eq!(pairs.len(), 2);
    assert_eq!(pairs[1].name.as_str(), "BAZ");
}

#[test]
fn dotenv_line_without_equals_is_fatal() {
    assert_eq!(parse_dotenv("FOO=bar\nnope").err(), Some(TaskError::DotenvParseError));
}

#[test]
fn dotenv_overrides_inline_env() {
    let mut t = task(vec!["echo one"]);
    t.env_vars = Some(env(vec![("FOO", "baz"), ("OTHER", "kept")]));
    t.dotenv_file = Some(".env".to_string());
    let contents = "FOO=bar".to_string();
    let plan = plan_task(&t, &no_vars(), Some(&contents), "linux").unwrap();
    // The merged list applies in order, so the last binding of a name is
    // what a child process sees.
    let mut foo = None;
    let mut other = None;
    for pair in &plan.env {
        if pair.name == "FOO" {
            foo = Some(pair.value.clone());
        }
        if pair.name == "OTHER" {
            other = Some(pair.value.clone());
        }
    }
    assert_eq!(foo, Some("bar".to_string()));
    assert_eq!(other, Some("kept".to_string()));
}

#[test]
fn malformed_dotenv_aborts_planning() {
    let mut t = task(vec!["echo one"]);
    t.dotenv_file = Some(".env".to_string());
    let contents = "JUSTANAME".to_string();
    let r = plan_task(&t, &no_vars(), Some(&contents), "linux");
    assert_eq!(r.err(), Some(TaskError::DotenvParseError));
}

#[test]
fn only_a_zero_exit_continues_the_run() {
    assert_eq!(command_outcome(&SpawnOutcome::Spawned(Some(0))), Ok(()));
    assert_eq!(
        command_outcome(&SpawnOutcome::Spawned(Some(3))),
        Err(TaskError::CommandFailed(3))
    );
    assert_eq!(
        command_outcome(&SpawnOutcome::Spawned(None)),
        Err(TaskError::CommandFailed(1))
    );
    assert_eq!(command_outcome(&SpawnOutcome::NotSpawned), Err(TaskError::SpawnError));
}
