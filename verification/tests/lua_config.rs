use dotty::lua_config::{
    action_from_run, is_executable_mode, is_supported_os, Action, Dotty, DottyConfig, Link,
    RunArgument, RunArgumentError,
};

#[test]
fn a_command_string_runs_with_no_shell() {
    let a = action_from_run("greet".into(), RunArgument::Command("echo hi".into())).unwrap();
    assert_eq!(a.name, "greet");
    assert_eq!(a.command, "echo hi");
    assert_eq!(a.shell, "");
}

#[test]
fn a_table_gives_command_and_shell() {
    let a = action_from_run(
        "build".into(),
        RunArgument::Table { command: "make".into(), shell: Some("bash".into()) },
    )
    .unwrap();
    assert_eq!(a.name, "build");
    assert_eq!(a.command, "make");
    assert_eq!(a.shell, "bash");
    let b = action_from_run("build".into(), RunArgument::Table { command: "make".into(), shell: None }).unwrap();
    assert_eq!(b.shell, "");
}

#[test]
fn other_arguments_are_refused() {
    let r = action_from_run("x".into(), RunArgument::Other);
    assert!(matches!(r, Err(RunArgumentError::NotStringOrTable)));
}

#[test]
fn supported_systems() {
    assert!(is_supported_os("linux"));
    assert!(is_supported_os("macos"));
    assert!(is_supported_os("windows"));
    assert!(!is_supported_os("Linux"));
    assert!(!is_supported_os("freebsd"));
    assert!(!is_supported_os(""));
}

#[test]
fn executable_modes() {
    assert!(is_executable_mode(0o755));
    assert!(is_executable_mode(0o100));
    assert!(is_executable_mode(0o001));
    assert!(!is_executable_mode(0o644));
    assert!(!is_executable_mode(0));
}

#[test]
fn config_defaults_and_builders() {
    let c = DottyConfig::default();
    assert!(c.links.is_empty());
    assert!(c.actions.is_empty());
    assert!(!c.overwrite);
    assert!(!c.ask);
    assert!(c.selected_profile.is_none());
    let mut c = c.with_overwrite(true).with_ask(true).with_profile(Some("work".into()));
    assert!(c.overwrite);
    assert!(c.ask);
    assert_eq!(c.selected_profile.as_deref(), Some("work"));
    c.links.push(Link { source: "a".into(), target: "b".into() });
    c.actions.push(Action { name: "n".into(), command: "c".into(), shell: "".into() });
    let c = c.with_ask(false);
    assert!(!c.ask);
    assert!(c.overwrite);
    assert_eq!(c.links.len(), 1);
    assert_eq!(c.actions.len(), 1);
    let d = Dotty::new(c);
    assert_eq!(d.config.links[0].target, "b");
    assert_eq!(d.config.selected_profile.as_deref(), Some("work"));
}

#[test]
fn registered_links_and_actions_keep_the_options() {
    let c = DottyConfig::default().with_overwrite(true).with_profile(Some("home".into()));
    let c = c.with_registered(
        vec![Link { source: "s".into(), target: "t".into() }],
        vec![Action { name: "n".into(), command: "c".into(), shell: "".into() }],
    );
    assert!(c.overwrite);
    assert!(!c.ask);
    assert_eq!(c.selected_profile.as_deref(), Some("home"));
    assert_eq!(c.links.len(), 1);
    assert_eq!(c.actions[0].name, "n");
}
