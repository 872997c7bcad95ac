use taskrabbit::model::Info;
use taskrabbit::model::Task;
use taskrabbit::model::TaskConfig;
use taskrabbit::TaskError;

fn info_with(
    default_task: Option<&str>,
    windows: Option<&str>,
    linux: Option<&str>,
    macos: Option<&str>,
) -> Info {
    Info {
        name: "demo".to_string(),
        author: "someone".to_string(),
        default_windows_task: windows.map(|s| s.to_string()),
        default_linux_task: linux.map(|s| s.to_string()),
        default_macos_task: macos.map(|s| s.to_string()),
        default_task: default_task.map(|s| s.to_string()),
    }
}

fn task_named_commands(commands: Vec<&str>) -> Task {
    Task {
        env_vars: None,
        commands: commands.into_iter().map(|s| s.to_string()).collect(),
        platforms_supported: None,
        dotenv_file: None,
    }
}

fn config_with_tasks(info: Info, names: Vec<&str>) -> TaskConfig {
    TaskConfig {
        info,
        tasks: names
            .into_iter()
            .map(|n| (n.to_string(), task_named_commands(vec!["echo hi"])))
            .collect(),
        variables: Vec::new(),
    }
}

#[test]
fn normalize_fills_unset_slots() {
    let mut info = info_with(Some("build"), None, Some("lint"), None);
    info.normalize();
    assert_eq!(info.default_windows_task, Some("build".to_string()));
    assert_eq!(info.default_linux_task, Some("lint".to_string()));
    assert_eq!(info.default_macos_task, Some("build".to_string()));
    assert_eq!(info.default_task, Some("build".to_string()));
}

#[test]
fn normalize_twice_changes_nothing() {
    let mut info = info_with(Some("build"), None, None, Some("mac"));
    info.normalize();
    let once = (
        info.default_windows_task.clone(),
        info.default_linux_task.clone(),
        info.default_macos_task.clone(),
        info.default_task.clone(),
    );
    info.normalize();
    let twice = (
        info.default_windows_task.clone(),
        info.default_linux_task.clone(),
        info.default_macos_task.clone(),
        info.default_task.clone(),
    );
    assert_eq!(once, twice);
}

#[test]
fn normalize_without_generic_leaves_slots_absent() {
    let mut info = info_with(None, None, Some("lint"), None);
    info.normalize();
    assert_eq!(info.default_windows_task, None);
    assert_eq!(info.default_linux_task, Some("lint".to_string()));
    assert_eq!(info.default_macos_task, None);
}

#[test]
fn resolve_default_prefers_platform_slot() {
    let info = info_with(Some("generic"), Some("win"), None, None);
    assert_eq!(info.resolve_default("windows"), Some("win".to_string()));
    assert_eq!(info.resolve_default("linux"), Some("generic".to_string()));
    assert_eq!(info.resolve_default("plan9"), None);
}

#[test]
fn explicit_name_that_exists_is_kept() {
    let info = info_with(Some("other"), None, None, None);
    let config = config_with_tasks(info, vec!["build", "test", "other"]);
    let r = taskrabbit::select::select_task(&config, Some("test".to_string()), "linux");
    assert_eq!(r, Ok("test".to_string()));
}

#[test]
fn explicit_name_missing_is_task_not_found() {
    let info = info_with(Some("build"), None, None, None);
    let config = config_with_tasks(info, vec!["build"]);
    let r = taskrabbit::select::select_task(&config, Some("deploy".to_string()), "linux");
    assert_eq!(r, Err(TaskError::TaskNotFound));
}

#[test]
fn no_name_and_no_default_is_no_default_task() {
    let info = info_with(None, None, None, None);
    let config = config_with_tasks(info, vec!["build"]);
    let r = taskrabbit::select::select_task(&config, None, "linux");
    assert_eq!(r, Err(TaskError::NoDefaultTask));
}

#[test]
fn unrecognized_host_without_name_is_no_default_task() {
    let info = info_with(Some("build"), None, None, None);
    let config = config_with_tasks(info, vec!["build"]);
    let r = taskrabbit::select::select_task(&config, None, "freebsd");
    assert_eq!(r, Err(TaskError::NoDefaultTask));
}

#[test]
fn default_is_selected_and_validated() {
    let info = info_with(None, None, Some("build"), None);
    let config = config_with_tasks(info, vec!["build", "test"]);
    let r = taskrabbit::select::select_task(&config, None, "linux");
    assert_eq!(r, Ok("build".to_string()));

    let info2 = info_with(None, None, Some("gone"), None);
    let config2 = config_with_tasks(info2, vec!["build"]);
    let r2 = taskrabbit::select::select_task(&config2, None, "linux");
    assert_eq!(r2, Err(TaskError::TaskNotFound));
}

#[test]
fn list_marks_the_host_default() {
    let info = info_with(None, None, Some("build"), None);
    let config = config_with_tasks(info, vec!["test", "build", "deploy"]);
    let r = taskrabbit::select::list_tasks(&config, "linux");
    assert_eq!(
        r,
        vec![
            ("test".to_string(), false),
            ("build".to_string(), true),
            ("deploy".to_string(), false),
        ]
    );
}

#[test]
fn list_on_other_host_marks_nothing() {
    let info = info_with(None, None, Some("build"), None);
    let config = config_with_tasks(info, vec!["build"]);
    let r = taskrabbit::select::list_tasks(&config, "windows");
    assert_eq!(r, vec![("build".to_string(), false)]);
}
