use dotty::dottyfile::{ConfigError, DottyConfig};
use dotty::interpreter::{Context, HostFacts, Query, RunError};
use dotty::parser::ParseError;

/// Runs `source` on a host where no path exists, answering each question as it comes up.
fn run_on_empty_host(source: &str) -> Result<DottyConfig, ConfigError> {
    let mut facts = HostFacts::new();
    loop {
        match DottyConfig::parse_with_context(source, linux(), &facts) {
            Err(ConfigError::Run { error: RunError::NeedsFact(query), .. }) => match query {
                Query::PathExists(p) => facts.record_path(p, false),
                Query::CommandAvailable(c) => facts.record_command(c, false),
                Query::EnvironmentVariable(v) => facts.record_variable(v, None),
                Query::ParentDirectory(p) => facts.learn_parent(&p),
            },
            other => return other,
        }
    }
}

fn linux() -> Context {
    Context { os: "linux".into(), hostname: "box".into(), profile: None }
}

#[test]
fn links_and_actions_keep_their_order() {
    let source = r#"
        link "a" to "x"
        do "first"
        link "b" to "y"
        do "bash" "second"
    "#;
    let config = run_on_empty_host(source).unwrap();
    let links = config.links();
    assert_eq!(links.len(), 2);
    assert_eq!(links[0].source, "a");
    assert_eq!(links[0].destination, "x");
    assert_eq!(links[1].source, "b");
    assert_eq!(links[1].destination, "y");
    let actions = config.actions();
    assert_eq!(actions.len(), 2);
    assert_eq!(actions[0].command, "first");
    assert_eq!(actions[1].command, "second");
    assert_eq!(actions[1].shell, "bash");
}

#[test]
fn printed_text_is_kept() {
    let source = r#"
        print "hello"
        name = "world"
        print "hi $name"
    "#;
    let config = DottyConfig::parse_with_context(source, linux(), &HostFacts::new()).unwrap();
    assert_eq!(config.printed, vec!["hello".to_string(), "hi world".to_string()]);
    assert!(config.steps.is_empty());
}

#[test]
fn a_run_error_keeps_what_was_printed() {
    let source = r#"
        print "before"
        print "$missing"
        print "after"
    "#;
    match DottyConfig::parse_with_context(source, linux(), &HostFacts::new()) {
        Err(ConfigError::Run { error: RunError::UndefinedInterpolation(name), output }) => {
            assert_eq!(name, "missing");
            assert_eq!(output, vec!["before".to_string()]);
        }
        other => panic!("unexpected result {:?}", other),
    }
}

#[test]
fn a_parse_error_is_reported() {
    let r = DottyConfig::parse_with_context("link \"a\" \"b\"", linux(), &HostFacts::new());
    assert!(matches!(r, Err(ConfigError::Parse(ParseError::ExpectedToken { .. }))));
    let r = DottyConfig::parse_with_context("os = \"x\"", linux(), &HostFacts::new());
    assert!(matches!(r, Err(ConfigError::Parse(ParseError::AssignToSpecialVariable { .. }))));
}

#[test]
fn wide_whitespace_stops_the_reading() {
    let r = DottyConfig::parse_checked("link\u{2003}\"a\" to \"b\"", linux(), &HostFacts::new());
    assert!(r.is_none());
    let r = DottyConfig::parse_checked("do \"ls\"", linux(), &HostFacts::new());
    assert!(matches!(r, Some(Ok(_))));
    let r = DottyConfig::parse_checked("link \"a\" to \"b\"", linux(), &HostFacts::new());
    assert!(matches!(r, Some(Err(ConfigError::Run { error: RunError::NeedsFact(_), .. }))));
}

#[test]
fn an_empty_dottyfile_asks_for_nothing() {
    let config = DottyConfig::parse_with_context("", linux(), &HostFacts::new()).unwrap();
    assert!(config.steps.is_empty());
    assert!(config.links().is_empty());
    assert!(config.actions().is_empty());
}

const README_EXAMPLE: &str = r#"
# Declare dir prefixes
common = "hosts/common"
mac    = "hosts/mac"
work   = "hosts/work"

link "$common/config/git" to "~/.config/git"

if os is "macos" {
  link "$mac/zshrc" to "~/.zshrc"
}

if os is not "linux" {
  link "$common/config/karabiner" to "~/.config/karabiner"
}

if hostname is "work-laptop" {
  link "$work/vimrc" to "~/.vimrc"
}

# Only install Zap if it's not already on the system
if not test "zap" {
  do "zsh <(curl -s https://raw.githubusercontent.com/zap-zsh/zap/master/install.zsh) --branch release-v1"
}

# Run with a specific shell
do "fish" "fisher install jorgebucaran/autopair.fish"

# Profile-based config
if profile is "work" {
  link "$work/ssh-config" to "~/.ssh/config"
} else {
  link "$common/ssh-config" to "~/.ssh/config"
}
"#;

fn run_example(ctx: Context) -> DottyConfig {
    let mut facts = HostFacts::new();
    loop {
        let attempt = Context { os: ctx.os.clone(), hostname: ctx.hostname.clone(), profile: ctx.profile.clone() };
        match DottyConfig::parse_with_context(README_EXAMPLE, attempt, &facts) {
            Err(ConfigError::Run { error: RunError::NeedsFact(query), .. }) => match query {
                Query::PathExists(p) => facts.record_path(p, false),
                Query::CommandAvailable(c) => facts.record_command(c, false),
                Query::EnvironmentVariable(v) => facts.record_variable(v, None),
                Query::ParentDirectory(p) => facts.learn_parent(&p),
            },
            Ok(config) => return config,
            Err(e) => panic!("the example does not run: {:?}", e),
        }
    }
}

fn link_pairs(config: &DottyConfig) -> Vec<(String, String)> {
    config.links().iter().map(|l| (l.source.clone(), l.destination.clone())).collect()
}

#[test]
fn readme_example_on_a_work_mac() {
    let config = run_example(Context {
        os: "macos".into(),
        hostname: "work-laptop".into(),
        profile: Some("work".into()),
    });
    let expected: Vec<(String, String)> = vec![
        ("hosts/common/config/git", "~/.config/git"),
        ("hosts/mac/zshrc", "~/.zshrc"),
        ("hosts/common/config/karabiner", "~/.config/karabiner"),
        ("hosts/work/vimrc", "~/.vimrc"),
        ("hosts/work/ssh-config", "~/.ssh/config"),
    ]
    .into_iter()
    .map(|(a, b)| (a.to_string(), b.to_string()))
    .collect();
    assert_eq!(link_pairs(&config), expected);
    let actions = config.actions();
    assert_eq!(actions.len(), 2);
    assert_eq!(
        actions[0].command,
        "zsh <(curl -s https://raw.githubusercontent.com/zap-zsh/zap/master/install.zsh) --branch release-v1"
    );
    assert_eq!(actions[0].shell, "/bin/sh");
    assert_eq!(actions[1].command, "fisher install jorgebucaran/autopair.fish");
    assert_eq!(actions[1].shell, "fish");
}

#[test]
fn readme_example_on_a_linux_desktop() {
    let config = run_example(Context { os: "linux".into(), hostname: "desk".into(), profile: None });
    let expected: Vec<(String, String)> = vec![
        ("hosts/common/config/git", "~/.config/git"),
        ("hosts/common/ssh-config", "~/.ssh/config"),
    ]
    .into_iter()
    .map(|(a, b)| (a.to_string(), b.to_string()))
    .collect();
    assert_eq!(link_pairs(&config), expected);
    assert_eq!(config.actions().len(), 2);
}

#[test]
fn a_run_asks_only_for_missing_facts() {
    let source = "if exists \"some/path\" { do \"a\" } else { do \"b\" }";
    let mut facts = HostFacts::new();
    match DottyConfig::parse_with_context(source, linux(), &facts) {
        Err(ConfigError::Run { error: RunError::NeedsFact(Query::PathExists(p)), .. }) => {
            assert_eq!(p, "some/path");
            facts.record_path(p, true);
        }
        other => panic!("unexpected result {:?}", other),
    }
    let config = DottyConfig::parse_with_context(source, linux(), &facts).unwrap();
    assert_eq!(config.actions().len(), 1);
    assert_eq!(config.actions()[0].command, "a");
}

#[test]
fn more_facts_change_no_finished_run() {
    let source = "if exists \"a\" { link \"x\" to \"y\" } else { do \"b\" }";
    let mut facts = HostFacts::new();
    facts.record_path("a".to_string(), false);
    let first = DottyConfig::parse_with_context(source, linux(), &facts).unwrap();
    facts.record_path("elsewhere".to_string(), true);
    facts.record_command("git".to_string(), true);
    facts.record_variable("HOME".to_string(), Some("/home/me".to_string()));
    facts.learn_parent("y");
    let second = DottyConfig::parse_with_context(source, linux(), &facts).unwrap();
    assert_eq!(first.actions().len(), 1);
    assert_eq!(second.actions().len(), 1);
    assert_eq!(second.actions()[0].command, first.actions()[0].command);
    assert!(second.links().is_empty());
    assert_eq!(first.steps.len(), second.steps.len());
}
