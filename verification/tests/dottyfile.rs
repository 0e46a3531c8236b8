use dotty::dottyfile::{ConfigError, DottyConfig};
use dotty::interpreter::{Context, HostFacts, Query, RunError};

/// Parses `config` for `ctx`, answering each question about the host as it comes up:
/// paths by looking at the disk, commands as not installed, variables as not set.
fn parse_with_context(config: &str, ctx: Context) -> Result<DottyConfig, ConfigError> {
    let mut facts = HostFacts::new();
    loop {
        let attempt = Context {
            os: ctx.os.clone(),
            hostname: ctx.hostname.clone(),
            profile: ctx.profile.clone(),
        };
        match DottyConfig::parse_with_context(config, attempt, &facts) {
            Err(ConfigError::Run { error: RunError::NeedsFact(query), .. }) => match query {
                Query::PathExists(p) => {
                    let exists = std::path::Path::new(&p).exists();
                    facts.record_path(p, exists)
                }
                Query::CommandAvailable(c) => facts.record_command(c, false),
                Query::EnvironmentVariable(v) => facts.record_variable(v, None),
                Query::ParentDirectory(p) => facts.learn_parent(&p),
            },
            other => return other,
        }
    }
}

#[test]
fn it_parses_1() {
    let config = r#"
            link "dotfiles/.bashrc" to "~/.bashrc"
            link "dotfiles/.vimrc" to "~/.vimrc"

            do "echo 'Hello, world!'"
        "#;

    let parsed = parse_with_context(
        config,
        Context {
            os: "linux".into(),
            hostname: "test-machine".into(),
            profile: None,
        },
    );
    assert!(parsed.is_ok());
    let parsed = parsed.unwrap();
    assert_eq!(parsed.links().len(), 2);
    assert_eq!(parsed.actions().len(), 1);
}

#[test]
fn it_parses_2() {
    let config = r#"
            if os is "linux" {
                link "dotfiles/.bashrc" to "~/.bashrc"
            }

            if os is "macos" {
                link "dotfiles/.zshrc" to "~/.zshrc"
            }

            do "echo 'Hello, world!'"
        "#;

    let parsed = parse_with_context(
        config,
        Context {
            os: "linux".into(),
            hostname: "test-machine".into(),
            profile: None,
        },
    );
    assert!(parsed.is_ok());
    let parsed = parsed.unwrap();
    assert_eq!(parsed.links().len(), 1);
    assert_eq!(parsed.actions().len(), 1);
}

#[test]
fn it_parses_3() {
    let config = r#"
            # Declare dir prefixes
            common = "hosts/common"
            mac    = "hosts/mac"
            work   = "hosts/work"

            link "$common/config/git" to "~/.config/git"

            if os is "macos" {
              link "$mac/zshrc" to "~/.zshrc"
            }

            if os is not "linux" {
              link "$common/config/karabiner" to "~/.config/karabiner"
            }

            if hostname is "work-laptop" {
              link "$work/vimrc" to "~/.vimrc"
            }

            # Only install Zap if it's not already on the system
            if not test "zap" {
              do "zsh <(curl -s https://raw.githubusercontent.com/zap-zsh/zap/master/install.zsh) --branch release-v1"
            }

            # Run with a specific shell
            do "fish" "fisher install jorgebucaran/autopair.fish"

            # Profile-based config
            if profile is "work" {
              link "$work/ssh-config" to "~/.ssh/config"
            } else {
              link "$common/ssh-config" to "~/.ssh/config"
            }
        "#;

    let ctx = Context {
        os: "windows".into(),
        hostname: "work-laptop".into(),
        profile: Some("work".into()),
    };
    let parsed = parse_with_context(config, ctx);
    assert!(parsed.is_ok(), "{:?}", parsed.unwrap_err());
    let parsed = parsed.unwrap();
    assert_eq!(parsed.links().len(), 4);
    assert_eq!(parsed.actions().len(), 2);
}
