# Dotty

Manage (symlink) your dotfiles with Dotty. A dottyfile declares links, actions and
variables, with conditions on the host's operating system, name and profile.

## Layout

- `src/` is the library, verified with Verus:
  - `text.rs`: character classes and string helpers;
  - `lexer.rs`: the tokens of a dottyfile, with a spec of what the lexer yields;
  - `parser.rs`: the syntax tree, with a spec of the grammar;
  - `interpreter.rs`: variables, interpolation, conditions and the steps a run yields,
    given the answers the host has given about paths, commands and variables;
  - `dottyfile.rs`: parse and run a whole dottyfile;
  - `install.rs`, `paths.rs`, `lua_config.rs`: the decisions made while installing,
    expanding `~` and loading a Lua configuration;
  - `laws.rs`: properties of the library as a whole.
- `app/` is the command-line program around it: file system work, running commands,
  asking the user, and Lua.
- `tests/` holds the tests.
