//! The configuration that a Lua dottyfile builds: the links and actions it registers and
//! how to install them.
use vstd::prelude::*;

verus! {

/// A symlink to create: `target` will point at `source`.
#[derive(Debug)]
pub struct Link {
    pub source: String,
    pub target: String,
}

/// A named shell command.
#[derive(Debug)]
pub struct Action {
    pub name: String,
    pub command: String,
    pub shell: String,
}

/// The links and actions of a dottyfile, with the options to install them with.
#[derive(Debug)]
pub struct DottyConfig {
    pub links: Vec<Link>,
    pub actions: Vec<Action>,
    pub overwrite: bool,
    pub ask: bool,
    pub selected_profile: Option<String>,
}

impl Default for DottyConfig {
    fn default() -> (r: Self)
        ensures
            r.links@.len() == 0,
            r.actions@.len() == 0,
            !r.overwrite,
            !r.ask,
            r.selected_profile is None,
    {
        DottyConfig { links: Vec::new(), actions: Vec::new(), overwrite: false, ask: false, selected_profile: None }
    }
}

impl DottyConfig {
    /// The same configuration, replacing existing files at link targets when `overwrite`
    /// holds.
    pub fn with_overwrite(self, overwrite: bool) -> (r: Self)
        ensures
            r.overwrite == overwrite,
            r.links == self.links,
            r.actions == self.actions,
            r.ask == self.ask,
            r.selected_profile == self.selected_profile,
    {
        let mut r = self;
        r.overwrite = overwrite;
        r
    }

    /// The same configuration, asking before each link when `ask` holds.
    pub fn with_ask(self, ask: bool) -> (r: Self)
        ensures
            r.ask == ask,
            r.links == self.links,
            r.actions == self.actions,
            r.overwrite == self.overwrite,
            r.selected_profile == self.selected_profile,
    {
        let mut r = self;
        r.ask = ask;
        r
    }

    /// The configuration with the links and actions that a script registered, keeping
    /// its options and the profile selected.
    pub fn with_registered(self, links: Vec<Link>, actions: Vec<Action>) -> (r: Self)
        ensures
            r.links == links,
            r.actions == actions,
            r.overwrite == self.overwrite,
            r.ask == self.ask,
            r.selected_profile == self.selected_profile,
    {
        DottyConfig { links, actions, ..self }
    }

    /// The same configuration with `profile` selected.
    pub fn with_profile(self, profile: Option<String>) -> (r: Self)
        ensures
            r.selected_profile == profile,
            r.links == self.links,
            r.actions == self.actions,
            r.overwrite == self.overwrite,
            r.ask == self.ask,
    {
        let mut r = self;
        r.selected_profile = profile;
        r
    }
}

/// Installs a configuration.
pub struct Dotty {
    pub config: DottyConfig,
}

impl Dotty {
    pub fn new(config: DottyConfig) -> (r: Self)
        ensures
            r.config == config,
    {
        Dotty { config }
    }
}

/// The second argument a script hands to `dotty.run(name, ...)`: a command string, a
/// table with a `command` and an optional `shell`, or anything else.
pub enum RunArgument {
    Command(String),
    Table { command: String, shell: Option<String> },
    Other,
}

/// Why `dotty.run` refuses its arguments.
#[derive(Debug, PartialEq, Eq)]
pub enum RunArgumentError {
    /// The second argument is neither a string nor a table.
    NotStringOrTable,
}

/// The action that `dotty.run(name, argument)` registers: a command string runs with no
/// shell named, a table gives its command and shell (none named when it has none).
pub fn action_from_run(name: String, argument: RunArgument) -> (r: Result<Action, RunArgumentError>)
    ensures
        match argument {
            RunArgument::Command(c) => r matches Ok(a) && a.name == name && a.command == c && a.shell@.len() == 0,
            RunArgument::Table { command, shell } => r matches Ok(a) && a.name == name && a.command == command
                && match shell {
                    Some(s) => a.shell == s,
                    None => a.shell@.len() == 0,
                },
            RunArgument::Other => r == Err::<Action, RunArgumentError>(RunArgumentError::NotStringOrTable),
        },
{
    match argument {
        RunArgument::Command(command) => Ok(Action { name, command, shell: String::new() }),
        RunArgument::Table { command, shell } => {
            let shell = match shell {
                Some(s) => s,
                None => String::new(),
            };
            Ok(Action { name, command, shell })
        },
        RunArgument::Other => Err(RunArgumentError::NotStringOrTable),
    }
}

/// Whether Dotty knows the operating system `os` by name (`linux`, `macos`, `windows`).
pub fn is_supported_os(os: &str) -> (r: bool)
    ensures
        r == (os@ == seq!['l', 'i', 'n', 'u', 'x'] || os@ == seq!['m', 'a', 'c', 'o', 's']
            || os@ == seq!['w', 'i', 'n', 'd', 'o', 'w', 's']),
{
    proof {
        reveal_strlit("linux");
        reveal_strlit("macos");
        reveal_strlit("windows");
        assert("linux"@ =~= seq!['l', 'i', 'n', 'u', 'x']);
        assert("macos"@ =~= seq!['m', 'a', 'c', 'o', 's']);
        assert("windows"@ =~= seq!['w', 'i', 'n', 'd', 'o', 'w', 's']);
    }
    crate::text::str_eq(os, "linux") || crate::text::str_eq(os, "macos") || crate::text::str_eq(os, "windows")
}

/// Whether permission bits let someone execute the file: any of the three execute bits.
pub fn is_executable_mode(mode: u32) -> (r: bool)
    ensures
        r == (mode & 0o111 != 0),
{
    mode & 0o111 != 0
}

} // verus!
