//! Runs the syntax tree of a dottyfile against a host and collects the steps to take.
use vstd::prelude::*;
use crate::parser::{Node, NodeView, Value, nodes_view, os_name, hostname_name, profile_name, OS, HOSTNAME, PROFILE};
use crate::text::str_eq;

verus! {

/// A symlink to create: `destination` will point at `source`.
#[derive(Debug)]
pub struct Link {
    pub source: String,
    pub destination: String,
}

/// A shell command to run.
#[derive(Debug)]
pub struct Action {
    pub command: String,
    pub shell: String,
}

/// A repository to clone.
#[derive(Debug)]
pub struct Clone {
    pub url: String,
    pub destination: String,
}

/// A file to copy.
#[derive(Debug)]
pub struct Copy {
    pub source: String,
    pub destination: String,
}

/// A permission change.
#[derive(Debug)]
pub struct Chmod {
    pub path: String,
    pub mode: String,
}

/// One thing to do on the host, in the order the dottyfile asks for it.
#[derive(Debug)]
pub enum Step {
    Link(Link),
    Action(Action),
    CreateDir(String),
    Clone(Clone),
    Copy(Copy),
    Chmod(Chmod),
}

/// The mathematical value of a step.
pub enum StepView {
    Link { source: Seq<char>, destination: Seq<char> },
    Action { command: Seq<char>, shell: Seq<char> },
    CreateDir(Seq<char>),
    Clone { url: Seq<char>, destination: Seq<char> },
    Copy { source: Seq<char>, destination: Seq<char> },
    Chmod { path: Seq<char>, mode: Seq<char> },
}

impl View for Step {
    type V = StepView;

    open spec fn view(&self) -> StepView {
        match self {
            Step::Link(l) => StepView::Link { source: l.source@, destination: l.destination@ },
            Step::Action(a) => StepView::Action { command: a.command@, shell: a.shell@ },
            Step::CreateDir(d) => StepView::CreateDir(d@),
            Step::Clone(c) => StepView::Clone { url: c.url@, destination: c.destination@ },
            Step::Copy(c) => StepView::Copy { source: c.source@, destination: c.destination@ },
            Step::Chmod(c) => StepView::Chmod { path: c.path@, mode: c.mode@ },
        }
    }
}

/// The values of a sequence of steps.
pub open spec fn steps_view(v: Seq<Step>) -> Seq<StepView> {
    v.map_values(|s: Step| s@)
}

/// The map that a log of `(name, value)` entries describes; a later entry for a name
/// replaces an earlier one.
pub open spec fn log_map<V>(log: Seq<(Seq<char>, V)>) -> Map<Seq<char>, V>
    decreases log.len(),
{
    if log.len() == 0 {
        Map::empty()
    } else {
        log_map(log.drop_last()).insert(log.last().0, log.last().1)
    }
}

/// Whether `i` is the last position in `log` whose name is `k`.
pub open spec fn is_last_entry<V>(log: Seq<(Seq<char>, V)>, k: Seq<char>, i: int) -> bool {
    &&& 0 <= i < log.len()
    &&& log[i].0 == k
    &&& forall|j: int| i < j < log.len() ==> log[j].0 != k
}

pub proof fn lemma_log_map<V>(log: Seq<(Seq<char>, V)>, k: Seq<char>)
    ensures
        (forall|j: int| 0 <= j < log.len() ==> log[j].0 != k) ==> !log_map(log).contains_key(k),
        forall|i: int| is_last_entry(log, k, i) ==> log_map(log).contains_key(k) && log_map(log)[k] == log[i].1,
    decreases log.len(),
{
    if log.len() > 0 {
        let init = log.drop_last();
        lemma_log_map(init, k);
        assert forall|i: int| is_last_entry(log, k, i) implies log_map(log).contains_key(k) && log_map(log)[k] == log[i].1 by {
            if i < log.len() - 1 {
                assert(is_last_entry(init, k, i));
            }
        }
        if forall|j: int| 0 <= j < log.len() ==> log[j].0 != k {
            assert(forall|j: int| 0 <= j < init.len() ==> init[j].0 != k);
        }
    }
}

/// Finds the last entry named `name` in a log of string-keyed entries.
fn find_last<V>(log: &Vec<(String, V)>, name: &str) -> (r: Option<usize>)
    ensures
        match r {
            Some(i) => i < log@.len() && log@[i as int].0@ == name@
                && forall|j: int| i < j < log@.len() ==> log@[j].0@ != name@,
            None => forall|j: int| 0 <= j < log@.len() ==> log@[j].0@ != name@,
        },
{
    let mut i = log.len();
    while i > 0
        invariant
            i <= log@.len(),
            forall|j: int| i <= j < log@.len() ==> log@[j].0@ != name@,
        decreases i,
    {
        i -= 1;
        if str_eq(log[i].0.as_str(), name) {
            return Some(i);
        }
    }
    None
}

/// The variables of a run: names bound to values.
pub struct Environment {
    variables: Vec<(String, Value)>,
}

impl Environment {
    /// The names bound, each to its value.
    pub closed spec fn bindings(&self) -> Map<Seq<char>, Seq<char>> {
        log_map(self.variables@.map_values(|e: (String, Value)| (e.0@, e.1@)))
    }

    /// An environment with no variables.
    pub fn new() -> (r: Self)
        ensures
            r.bindings() == Map::<Seq<char>, Seq<char>>::empty(),
    {
        let r = Environment { variables: Vec::new() };
        assert(r.variables@.map_values(|e: (String, Value)| (e.0@, e.1@)) =~= Seq::empty());
        r
    }

    /// Binds `name` to `value`, replacing any earlier binding of `name`.
    pub fn set_variable(&mut self, name: String, value: Value)
        ensures
            final(self).bindings() == old(self).bindings().insert(name@, value@),
    {
        let ghost before = self.variables@.map_values(|e: (String, Value)| (e.0@, e.1@));
        let ghost entry = (name@, value@);
        self.variables.push((name, value));
        proof {
            let after = self.variables@.map_values(|e: (String, Value)| (e.0@, e.1@));
            assert(after.drop_last() =~= before);
            assert(after.last() == entry);
        }
    }

    /// The value bound to `name`, if any.
    pub fn get_variable(&self, name: &str) -> (r: Option<&Value>)
        ensures
            match r {
                Some(v) => self.bindings().contains_key(name@) && self.bindings()[name@] == v@,
                None => !self.bindings().contains_key(name@),
            },
    {
        let ghost log = self.variables@.map_values(|e: (String, Value)| (e.0@, e.1@));
        proof {
            lemma_log_map(log, name@);
        }
        match find_last(&self.variables, name) {
            Some(i) => {
                proof {
                    assert(log[i as int].0 == name@);
                    assert forall|j: int| i < j < log.len() implies log[j].0 != name@ by {
                        assert(log[j].0 == self.variables@[j].0@);
                    }
                    assert(is_last_entry(log, name@, i as int));
                }
                Some(&self.variables[i].1)
            },
            None => {
                proof {
                    assert forall|j: int| 0 <= j < log.len() implies log[j].0 != name@ by {
                        assert(log[j].0 == self.variables@[j].0@);
                    }
                }
                None
            },
        }
    }
}

} // verus!

verus! {

/// The value of an optional string.
pub open spec fn opt_view(o: Option<String>) -> Option<Seq<char>> {
    match o {
        Some(s) => Some(s@),
        None => None,
    }
}

/// A character that no platform reads as a separator or a drive mark: anything but `/`,
/// `\\` and `:`.
pub open spec fn component_char(c: char) -> bool {
    c != '/' && c != '\\' && c != ':'
}

/// A path component that every platform reads as a name: not empty, made of component
/// characters, and neither `.` nor `..`.
pub open spec fn plain_component(s: Seq<char>) -> bool {
    &&& s.len() > 0
    &&& forall|k: int| 0 <= k < s.len() ==> component_char(#[trigger] s[k])
    &&& s != seq!['.']
    &&& s != seq!['.', '.']
}

/// The position of the last `/` in `s`, or -1 when it has none.
pub open spec fn last_slash(s: Seq<char>) -> int
    decreases s.len(),
{
    if s.len() == 0 {
        -1
    } else if s.last() == '/' {
        s.len() - 1
    } else {
        last_slash(s.drop_last())
    }
}

pub proof fn lemma_last_slash(s: Seq<char>)
    ensures
        -1 <= last_slash(s) < s.len(),
        last_slash(s) >= 0 ==> s[last_slash(s)] == '/',
        forall|k: int| last_slash(s) < k < s.len() ==> s[k] != '/',
    decreases s.len(),
{
    if s.len() > 0 && s.last() != '/' {
        lemma_last_slash(s.drop_last());
        assert forall|k: int| last_slash(s) < k < s.len() implies s[k] != '/' by {
            if k < s.len() - 1 {
                assert(s[k] == s.drop_last()[k]);
            }
        }
    }
}

/// Plain components joined by single `/` characters.
pub open spec fn plain_relative(s: Seq<char>) -> bool
    decreases s.len(),
{
    let i = last_slash(s);
    if i < 0 || i >= s.len() {
        plain_component(s)
    } else {
        plain_component(s.subrange(i + 1, s.len() as int)) && plain_relative(s.subrange(0, i))
    }
}

/// A path that reads the same on every platform: plain components joined by single `/`
/// characters, with or without a `/` in front.
pub open spec fn plain_path(s: Seq<char>) -> bool {
    plain_relative(s) || (s.len() > 0 && s[0] == '/' && plain_relative(s.drop_first()))
}

/// The parent of a plain path: the path before its last `/` (the root `/` when that is
/// its first character), and the empty path for a single relative component.
pub open spec fn plain_parent(s: Seq<char>) -> Seq<char> {
    let i = last_slash(s);
    if i < 0 {
        Seq::empty()
    } else if i == 0 {
        seq!['/']
    } else {
        s.subrange(0, i)
    }
}

/// What holds of the parent `r` of `path` on every platform: the empty path and the root
/// `/` have none; a parent is `path` cut short; and a path of plain components joined by
/// `/` has the part before its last `/` as its parent, the root for `/name`, and the
/// empty path for a single name.
pub open spec fn parent_known(path: Seq<char>, r: Option<Seq<char>>) -> bool {
    &&& (path.len() == 0 ==> r is None)
    &&& (path == seq!['/'] ==> r is None)
    &&& (r matches Some(p) ==> p.len() < path.len() && p == path.subrange(0, p.len() as int))
    &&& (plain_path(path) ==> r == Some(plain_parent(path)))
}

/// Calls `Path::parent` on `path` and converts the parent to a string. std documents the
/// parent as the path without its final component: `None` for the empty path and for a
/// root, the empty path for a relative path of one component, `/foo` for `/foo/bar` and
/// `/` for `/foo`. The contract states that for every path made of plain components joined
/// by single `/` characters, which every platform reads alike. What comes back for other
/// paths (with `\\`, drive prefixes, `.` or `..` components, repeated or trailing `/`) is
/// left unsaid beyond its being a prefix of `path`: it depends on the platform.
#[verifier::external_body]
fn path_parent(path: &str) -> (r: Option<String>)
    ensures
        parent_known(path@, opt_view(r)),
{
    std::path::Path::new(path).parent().map(|p| p.to_string_lossy().into_owned())
}

/// What the host has answered so far about the questions a run asks.
pub struct HostFacts {
    paths: Vec<(String, bool)>,
    commands: Vec<(String, bool)>,
    variables: Vec<(String, Option<String>)>,
    parents: Vec<(String, Option<String>)>,
}

/// The answers known about the host.
pub struct FactsView {
    /// Whether each path exists.
    pub paths: Map<Seq<char>, bool>,
    /// Whether each command is available.
    pub commands: Map<Seq<char>, bool>,
    /// The value of each environment variable (`None` when it is not set).
    pub variables: Map<Seq<char>, Option<Seq<char>>>,
    /// The parent directory of each path (`None` when it has none).
    pub parents: Map<Seq<char>, Option<Seq<char>>>,
}

impl View for HostFacts {
    type V = FactsView;

    closed spec fn view(&self) -> FactsView {
        FactsView {
            paths: log_map(self.paths@.map_values(|e: (String, bool)| (e.0@, e.1))),
            commands: log_map(self.commands@.map_values(|e: (String, bool)| (e.0@, e.1))),
            variables: log_map(self.variables@.map_values(|e: (String, Option<String>)| (e.0@, opt_view(e.1)))),
            parents: log_map(self.parents@.map_values(|e: (String, Option<String>)| (e.0@, opt_view(e.1)))),
        }
    }
}

fn copy_opt(o: &Option<String>) -> (r: Option<String>)
    ensures
        opt_view(r) == opt_view(*o),
{
    match o {
        Some(s) => Some(s.clone()),
        None => None,
    }
}

impl HostFacts {
    /// No answers yet.
    pub fn new() -> (r: Self)
        ensures
            r@.paths == Map::<Seq<char>, bool>::empty(),
            r@.commands == Map::<Seq<char>, bool>::empty(),
            r@.variables == Map::<Seq<char>, Option<Seq<char>>>::empty(),
            r@.parents == Map::<Seq<char>, Option<Seq<char>>>::empty(),
    {
        let r = HostFacts { paths: Vec::new(), commands: Vec::new(), variables: Vec::new(), parents: Vec::new() };
        proof {
            assert(r.paths@.map_values(|e: (String, bool)| (e.0@, e.1)) =~= Seq::empty());
            assert(r.commands@.map_values(|e: (String, bool)| (e.0@, e.1)) =~= Seq::empty());
            assert(r.variables@.map_values(|e: (String, Option<String>)| (e.0@, opt_view(e.1))) =~= Seq::empty());
            assert(r.parents@.map_values(|e: (String, Option<String>)| (e.0@, opt_view(e.1))) =~= Seq::empty());
        }
        r
    }

    /// Records whether `path` exists.
    pub fn record_path(&mut self, path: String, exists: bool)
        ensures
            final(self)@.paths == old(self)@.paths.insert(path@, exists),
            final(self)@.commands == old(self)@.commands,
            final(self)@.variables == old(self)@.variables,
            final(self)@.parents == old(self)@.parents,
    {
        let ghost before = self.paths@.map_values(|e: (String, bool)| (e.0@, e.1));
        let ghost k = path@;
        self.paths.push((path, exists));
        proof {
            let after = self.paths@.map_values(|e: (String, bool)| (e.0@, e.1));
            assert(after.drop_last() =~= before);
            assert(after.last() == (k, exists));
        }
    }

    /// Records whether the command `name` is available.
    pub fn record_command(&mut self, name: String, available: bool)
        ensures
            final(self)@.commands == old(self)@.commands.insert(name@, available),
            final(self)@.paths == old(self)@.paths,
            final(self)@.variables == old(self)@.variables,
            final(self)@.parents == old(self)@.parents,
    {
        let ghost before = self.commands@.map_values(|e: (String, bool)| (e.0@, e.1));
        let ghost k = name@;
        self.commands.push((name, available));
        proof {
            let after = self.commands@.map_values(|e: (String, bool)| (e.0@, e.1));
            assert(after.drop_last() =~= before);
            assert(after.last() == (k, available));
        }
    }

    /// Records the value of the environment variable `name` (`None`: not set).
    pub fn record_variable(&mut self, name: String, value: Option<String>)
        ensures
            final(self)@.variables == old(self)@.variables.insert(name@, opt_view(value)),
            final(self)@.paths == old(self)@.paths,
            final(self)@.commands == old(self)@.commands,
            final(self)@.parents == old(self)@.parents,
    {
        let ghost before = self.variables@.map_values(|e: (String, Option<String>)| (e.0@, opt_view(e.1)));
        let ghost entry = (name@, opt_view(value));
        self.variables.push((name, value));
        proof {
            let after = self.variables@.map_values(|e: (String, Option<String>)| (e.0@, opt_view(e.1)));
            assert(after.drop_last() =~= before);
            assert(after.last() == entry);
        }
    }

    /// Works out the parent directory of `path` and records it.
    pub fn learn_parent(&mut self, path: &str)
        ensures
            final(self)@.parents.dom() == old(self)@.parents.dom().insert(path@),
            parent_known(path@, final(self)@.parents[path@]),
            forall|k: Seq<char>| k != path@ && old(self)@.parents.contains_key(k)
                ==> final(self)@.parents[k] == old(self)@.parents[k],
            final(self)@.paths == old(self)@.paths,
            final(self)@.commands == old(self)@.commands,
            final(self)@.variables == old(self)@.variables,
    {
        let parent = path_parent(path);
        let ghost before = self.parents@.map_values(|e: (String, Option<String>)| (e.0@, opt_view(e.1)));
        let ghost entry = (path@, opt_view(parent));
        self.parents.push((path.to_owned(), parent));
        proof {
            let after = self.parents@.map_values(|e: (String, Option<String>)| (e.0@, opt_view(e.1)));
            assert(after.drop_last() =~= before);
            assert(after.last() == entry);
            assert(log_map(after) == log_map(before).insert(path@, opt_view(parent)));
            assert(log_map(after).dom() =~= log_map(before).dom().insert(path@));
        }
    }

    /// Whether `path` exists, if known.
    pub fn path_exists(&self, path: &str) -> (r: Option<bool>)
        ensures
            r == self@.paths.get(path@),
    {
        let ghost log = self.paths@.map_values(|e: (String, bool)| (e.0@, e.1));
        proof {
            lemma_log_map(log, path@);
        }
        match find_last(&self.paths, path) {
            Some(i) => {
                proof {
                    assert forall|j: int| i < j < log.len() implies log[j].0 != path@ by {
                        assert(log[j].0 == self.paths@[j].0@);
                    }
                    assert(is_last_entry(log, path@, i as int));
                }
                Some(self.paths[i].1)
            },
            None => {
                proof {
                    assert forall|j: int| 0 <= j < log.len() implies log[j].0 != path@ by {
                        assert(log[j].0 == self.paths@[j].0@);
                    }
                }
                None
            },
        }
    }

    /// Whether the command `name` is available, if known.
    pub fn command_available(&self, name: &str) -> (r: Option<bool>)
        ensures
            r == self@.commands.get(name@),
    {
        let ghost log = self.commands@.map_values(|e: (String, bool)| (e.0@, e.1));
        proof {
            lemma_log_map(log, name@);
        }
        match find_last(&self.commands, name) {
            Some(i) => {
                proof {
                    assert forall|j: int| i < j < log.len() implies log[j].0 != name@ by {
                        assert(log[j].0 == self.commands@[j].0@);
                    }
                    assert(is_last_entry(log, name@, i as int));
                }
                Some(self.commands[i].1)
            },
            None => {
                proof {
                    assert forall|j: int| 0 <= j < log.len() implies log[j].0 != name@ by {
                        assert(log[j].0 == self.commands@[j].0@);
                    }
                }
                None
            },
        }
    }

    /// The value of the environment variable `name`, if known (`Some(None)`: not set).
    pub fn variable(&self, name: &str) -> (r: Option<Option<String>>)
        ensures
            match r {
                Some(v) => self@.variables.contains_key(name@) && self@.variables[name@] == opt_view(v),
                None => !self@.variables.contains_key(name@),
            },
    {
        let ghost log = self.variables@.map_values(|e: (String, Option<String>)| (e.0@, opt_view(e.1)));
        proof {
            lemma_log_map(log, name@);
        }
        match find_last(&self.variables, name) {
            Some(i) => {
                proof {
                    assert forall|j: int| i < j < log.len() implies log[j].0 != name@ by {
                        assert(log[j].0 == self.variables@[j].0@);
                    }
                    assert(is_last_entry(log, name@, i as int));
                }
                Some(copy_opt(&self.variables[i].1))
            },
            None => {
                proof {
                    assert forall|j: int| 0 <= j < log.len() implies log[j].0 != name@ by {
                        assert(log[j].0 == self.variables@[j].0@);
                    }
                }
                None
            },
        }
    }

    /// The parent directory of `path`, if known (`Some(None)`: it has none).
    pub fn parent(&self, path: &str) -> (r: Option<Option<String>>)
        ensures
            match r {
                Some(v) => self@.parents.contains_key(path@) && self@.parents[path@] == opt_view(v),
                None => !self@.parents.contains_key(path@),
            },
    {
        let ghost log = self.parents@.map_values(|e: (String, Option<String>)| (e.0@, opt_view(e.1)));
        proof {
            lemma_log_map(log, path@);
        }
        match find_last(&self.parents, path) {
            Some(i) => {
                proof {
                    assert forall|j: int| i < j < log.len() implies log[j].0 != path@ by {
                        assert(log[j].0 == self.parents@[j].0@);
                    }
                    assert(is_last_entry(log, path@, i as int));
                }
                Some(copy_opt(&self.parents[i].1))
            },
            None => {
                proof {
                    assert forall|j: int| 0 <= j < log.len() implies log[j].0 != path@ by {
                        assert(log[j].0 == self.parents@[j].0@);
                    }
                }
                None
            },
        }
    }
}

} // verus!

verus! {

/// A question about the host that a run needs answered before it can go on.
#[derive(Debug)]
pub enum Query {
    /// Does this path exist?
    PathExists(String),
    /// Is this command on the search path?
    CommandAvailable(String),
    /// What is this environment variable set to?
    EnvironmentVariable(String),
    /// What is the parent directory of this path?
    ParentDirectory(String),
}

pub enum QueryView {
    PathExists(Seq<char>),
    CommandAvailable(Seq<char>),
    EnvironmentVariable(Seq<char>),
    ParentDirectory(Seq<char>),
}

impl View for Query {
    type V = QueryView;

    open spec fn view(&self) -> QueryView {
        match self {
            Query::PathExists(s) => QueryView::PathExists(s@),
            Query::CommandAvailable(s) => QueryView::CommandAvailable(s@),
            Query::EnvironmentVariable(s) => QueryView::EnvironmentVariable(s@),
            Query::ParentDirectory(s) => QueryView::ParentDirectory(s@),
        }
    }
}

/// Why a run stops.
#[derive(Debug)]
pub enum RunError {
    /// The run needs an answer about the host that the facts do not hold.
    NeedsFact(Query),
    /// A variable used as a value is not defined.
    UndefinedVariable(String),
    /// A `$name` inside a string names no variable.
    UndefinedInterpolation(String),
    /// An environment variable used as a value is not set.
    EnvironmentVariableNotSet(String),
    /// A node that is not a condition where a condition belongs.
    ExpectedCondition(Node),
    /// A node that is not a value where a value belongs.
    ExpectedValue(Node),
    /// A node that is not a statement where a statement belongs.
    UnexpectedStatement(Node),
}

pub enum RunErrorView {
    NeedsFact(QueryView),
    UndefinedVariable(Seq<char>),
    UndefinedInterpolation(Seq<char>),
    EnvironmentVariableNotSet(Seq<char>),
    ExpectedCondition(NodeView),
    ExpectedValue(NodeView),
    UnexpectedStatement(NodeView),
}

impl View for RunError {
    type V = RunErrorView;

    open spec fn view(&self) -> RunErrorView {
        match self {
            RunError::NeedsFact(q) => RunErrorView::NeedsFact(q@),
            RunError::UndefinedVariable(s) => RunErrorView::UndefinedVariable(s@),
            RunError::UndefinedInterpolation(s) => RunErrorView::UndefinedInterpolation(s@),
            RunError::EnvironmentVariableNotSet(s) => RunErrorView::EnvironmentVariableNotSet(s@),
            RunError::ExpectedCondition(n) => RunErrorView::ExpectedCondition(n@),
            RunError::ExpectedValue(n) => RunErrorView::ExpectedValue(n@),
            RunError::UnexpectedStatement(n) => RunErrorView::UnexpectedStatement(n@),
        }
    }
}

/// What the host is: its operating system, its name, and the profile chosen, if any.
pub struct Context {
    pub os: String,
    pub hostname: String,
    pub profile: Option<String>,
}

impl Context {
    /// The same context with `profile` chosen.
    pub fn with_profile(self, profile: String) -> (r: Self)
        ensures
            r.os == self.os,
            r.hostname == self.hostname,
            r.profile == Some(profile),
    {
        let mut r = self;
        r.profile = Some(profile);
        r
    }
}

// ---------------------------------------------------------------------------------------
// What a run means.

/// A character that may follow `$` as part of a variable name.
pub open spec fn name_char(c: char) -> bool {
    crate::text::alphanumeric(c) || c == '_'
}

/// The end of the variable name that starts at `from`.
pub open spec fn name_end(s: Seq<char>, from: int) -> int
    decreases s.len() - from,
{
    if from < 0 || from >= s.len() {
        s.len() as int
    } else if name_char(s[from]) {
        name_end(s, from + 1)
    } else {
        from
    }
}

pub proof fn lemma_name_end(s: Seq<char>, from: int)
    requires
        0 <= from <= s.len(),
    ensures
        from <= name_end(s, from) <= s.len(),
        forall|k: int| from <= k < name_end(s, from) ==> name_char(s[k]),
        name_end(s, from) < s.len() ==> !name_char(s[name_end(s, from)]),
    decreases s.len() - from,
{
    if from < s.len() && name_char(s[from]) {
        lemma_name_end(s, from + 1);
    }
}

/// `s` from position `i` on with each `$name` replaced by the value of `name` in `env`
/// (the name is the longest run of letters, digits and `_` after the `$`), or the first
/// name that `env` does not bind.
pub open spec fn interpolate_from(env: Map<Seq<char>, Seq<char>>, s: Seq<char>, i: int) -> Result<Seq<char>, Seq<char>>
    decreases s.len() - i,
{
    if i < 0 || i >= s.len() {
        Ok(Seq::empty())
    } else if s[i] == '$' {
        proof {
            lemma_name_end(s, i + 1);
        }
        let e = name_end(s, i + 1);
        let name = s.subrange(i + 1, e);
        if env.contains_key(name) {
            match interpolate_from(env, s, e) {
                Ok(rest) => Ok(env[name] + rest),
                Err(missing) => Err(missing),
            }
        } else {
            Err(name)
        }
    } else {
        match interpolate_from(env, s, i + 1) {
            Ok(rest) => Ok(seq![s[i]] + rest),
            Err(missing) => Err(missing),
        }
    }
}

pub open spec fn interpolate(env: Map<Seq<char>, Seq<char>>, s: Seq<char>) -> Result<Seq<char>, Seq<char>> {
    interpolate_from(env, s, 0)
}

/// The value of an expression node.
pub open spec fn eval_expression(env: Map<Seq<char>, Seq<char>>, facts: FactsView, n: NodeView) -> Result<Seq<char>, RunErrorView> {
    match n {
        NodeView::Literal(s) => match interpolate(env, s) {
            Ok(v) => Ok(v),
            Err(name) => Err(RunErrorView::UndefinedInterpolation(name)),
        },
        NodeView::Env(var) => if !facts.variables.contains_key(var) {
            Err(RunErrorView::NeedsFact(QueryView::EnvironmentVariable(var)))
        } else {
            match facts.variables[var] {
                Some(v) => Ok(v),
                None => Err(RunErrorView::EnvironmentVariableNotSet(var)),
            }
        },
        NodeView::Variable(name) => if env.contains_key(name) {
            Ok(env[name])
        } else {
            Err(RunErrorView::UndefinedVariable(name))
        },
        _ => Err(RunErrorView::ExpectedValue(n)),
    }
}

/// The truth of a condition node. `or` and `and` stop at the first operand that decides.
pub open spec fn eval_condition(env: Map<Seq<char>, Seq<char>>, facts: FactsView, n: NodeView) -> Result<bool, RunErrorView>
    decreases n,
{
    match n {
        NodeView::Is { left, right } => match eval_expression(env, facts, *left) {
            Err(e) => Err(e),
            Ok(a) => match eval_expression(env, facts, *right) {
                Err(e) => Err(e),
                Ok(b) => Ok(a == b),
            },
        },
        NodeView::Not(inner) => match eval_condition(env, facts, *inner) {
            Err(e) => Err(e),
            Ok(b) => Ok(!b),
        },
        NodeView::Or { left, right } => match eval_condition(env, facts, *left) {
            Err(e) => Err(e),
            Ok(true) => Ok(true),
            Ok(false) => eval_condition(env, facts, *right),
        },
        NodeView::And { left, right } => match eval_condition(env, facts, *left) {
            Err(e) => Err(e),
            Ok(false) => Ok(false),
            Ok(true) => eval_condition(env, facts, *right),
        },
        NodeView::Exists(path) => match facts.paths.get(path) {
            None => Err(RunErrorView::NeedsFact(QueryView::PathExists(path))),
            Some(b) => Ok(b),
        },
        NodeView::Test(command) => match facts.commands.get(command) {
            None => Err(RunErrorView::NeedsFact(QueryView::CommandAvailable(command))),
            Some(b) => Ok(b),
        },
        _ => Err(RunErrorView::ExpectedCondition(n)),
    }
}

/// The state of a run: the variables, the directories already planned, and what
/// `print` has written.
#[verifier::ext_equal]
pub struct RunState {
    pub env: Map<Seq<char>, Seq<char>>,
    pub created: Set<Seq<char>>,
    pub output: Seq<Seq<char>>,
}

/// The steps that make sure the parent directory of `destination` will exist: a
/// `CreateDir` of the parent when it has a non-empty parent that does not exist and that
/// no earlier step creates.
pub open spec fn plan_parent(st: RunState, facts: FactsView, destination: Seq<char>) -> (Result<Seq<StepView>, RunErrorView>, RunState) {
    if !facts.parents.contains_key(destination) {
        (Err(RunErrorView::NeedsFact(QueryView::ParentDirectory(destination))), st)
    } else {
        match facts.parents[destination] {
            None => (Ok(Seq::empty()), st),
            Some(parent) => if parent.len() == 0 {
                (Ok(Seq::empty()), st)
            } else {
                match facts.paths.get(parent) {
                    None => (Err(RunErrorView::NeedsFact(QueryView::PathExists(parent))), st),
                    Some(true) => (Ok(Seq::empty()), st),
                    Some(false) => if st.created.contains(parent) {
                        (Ok(Seq::empty()), st)
                    } else {
                        (Ok(seq![StepView::CreateDir(parent)]), RunState { created: st.created.insert(parent), ..st })
                    },
                }
            },
        }
    }
}

/// The steps of one statement, and the state after it.
pub open spec fn run_statement(st: RunState, facts: FactsView, n: NodeView) -> (Result<Seq<StepView>, RunErrorView>, RunState)
    decreases n, 0nat,
{
    match n {
        NodeView::Link { source, destination } => match interpolate(st.env, destination) {
            Err(name) => (Err(RunErrorView::UndefinedInterpolation(name)), st),
            Ok(dest) => match plan_parent(st, facts, dest) {
                (Err(e), st1) => (Err(e), st1),
                (Ok(dirs), st1) => match interpolate(st1.env, source) {
                    Err(name) => (Err(RunErrorView::UndefinedInterpolation(name)), st1),
                    Ok(src) => (Ok(dirs.push(StepView::Link { source: src, destination: dest })), st1),
                },
            },
        },
        NodeView::Do { command, shell } => match interpolate(st.env, command) {
            Err(name) => (Err(RunErrorView::UndefinedInterpolation(name)), st),
            Ok(cmd) => (Ok(seq![StepView::Action { command: cmd, shell }]), st),
        },
        NodeView::If { condition, true_branch, false_branch } => match eval_condition(st.env, facts, *condition) {
            Err(e) => (Err(e), st),
            Ok(true) => run_block(st, facts, true_branch, 0, Seq::empty()),
            Ok(false) => run_block(st, facts, false_branch, 0, Seq::empty()),
        },
        NodeView::Print(expr) => match eval_expression(st.env, facts, *expr) {
            Err(e) => (Err(e), st),
            Ok(text) => (Ok(Seq::empty()), RunState { output: st.output.push(text), ..st }),
        },
        NodeView::Assign { variable, value } => (Ok(Seq::empty()), RunState { env: st.env.insert(variable, value), ..st }),
        _ => (Err(RunErrorView::UnexpectedStatement(n)), st),
    }
}

/// The steps of `nodes[i..]`, after the steps `done`, and the state after them; the first
/// statement that fails ends the run with its error.
pub open spec fn run_block(st: RunState, facts: FactsView, nodes: Seq<NodeView>, i: int, done: Seq<StepView>) -> (Result<Seq<StepView>, RunErrorView>, RunState)
    decreases nodes, nodes.len() - i,
{
    if i < 0 || i >= nodes.len() {
        (Ok(done), st)
    } else {
        match run_statement(st, facts, nodes[i]) {
            (Err(e), st1) => (Err(e), st1),
            (Ok(steps), st1) => run_block(st1, facts, nodes, i + 1, done + steps),
        }
    }
}

} // verus!

verus! {

/// Runs a syntax tree: keeps the variables, plans directories, and collects what `print`
/// writes.
pub struct Interpreter {
    environment: Environment,
    created_dirs: Vec<String>,
    output: Vec<String>,
}

/// The state a run starts from in `context`: `os`, `hostname` and `profile` bound (an
/// empty profile when none is chosen), nothing planned, nothing printed.
pub open spec fn initial_state(os: Seq<char>, hostname: Seq<char>, profile: Option<Seq<char>>) -> RunState {
    RunState {
        env: Map::<Seq<char>, Seq<char>>::empty()
            .insert(os_name(), os)
            .insert(hostname_name(), hostname)
            .insert(profile_name(), match profile { Some(p) => p, None => Seq::empty() }),
        created: Set::empty(),
        output: Seq::empty(),
    }
}

impl Interpreter {
    pub closed spec fn state(&self) -> RunState {
        RunState {
            env: self.environment.bindings(),
            created: self.created_dirs@.map_values(|s: String| s@).to_set(),
            output: self.output@.map_values(|s: String| s@),
        }
    }

    /// An interpreter for a host described by `context`.
    pub fn from_context(context: Context) -> (r: Self)
        ensures
            r.state() == initial_state(context.os@, context.hostname@, opt_view(context.profile)),
    {
        let mut environment = Environment::new();
        proof {
            reveal_strlit("os");
            reveal_strlit("hostname");
            reveal_strlit("profile");
            assert(OS@ =~= os_name());
            assert(HOSTNAME@ =~= hostname_name());
            assert(PROFILE@ =~= profile_name());
        }
        environment.set_variable(OS.to_owned(), Value::String(context.os));
        environment.set_variable(HOSTNAME.to_owned(), Value::String(context.hostname));
        let chosen = match context.profile {
            Some(p) => p,
            None => String::new(),
        };
        environment.set_variable(PROFILE.to_owned(), Value::String(chosen));
        let r = Interpreter { environment, created_dirs: Vec::new(), output: Vec::new() };
        proof {
            assert(r.created_dirs@.map_values(|s: String| s@).to_set() =~= Set::<Seq<char>>::empty());
            assert(r.output@.map_values(|s: String| s@) =~= Seq::<Seq<char>>::empty());
        }
        r
    }

    /// What `print` statements have written so far, in order.
    pub fn output(&self) -> (r: &Vec<String>)
        ensures
            r@.map_values(|s: String| s@) == self.state().output,
    {
        &self.output
    }

    /// `s` with each `$name` replaced by the value of the variable `name`, or the first
    /// name that no variable has.
    pub fn interpolate(&self, s: &str) -> (r: Result<String, String>)
        ensures
            match interpolate(self.state().env, s@) {
                Ok(v) => r matches Ok(x) && x@ == v,
                Err(name) => r matches Err(x) && x@ == name,
            },
    {
        let chars = crate::text::chars_of(s);
        let ghost env = self.state().env;
        let mut result = String::new();
        let mut i: usize = 0;
        while i < chars.len()
            invariant
                0 <= i <= chars@.len(),
                chars@ == s@,
                env == self.state().env,
                interpolate(env, s@) == match interpolate_from(env, s@, i as int) {
                    Ok(rest) => Ok(result@ + rest),
                    Err(name) => Err(name),
                },
            decreases chars@.len() - i,
        {
            let c = chars[i];
            if c == '$' {
                let mut j: usize = i + 1;
                proof {
                    crate::interpreter::lemma_name_end(s@, i + 1);
                }
                while j < chars.len() && (crate::text::is_alphanumeric(chars[j]) || chars[j] == '_')
                    invariant
                        i + 1 <= j <= chars@.len(),
                        chars@ == s@,
                        name_end(s@, j as int) == name_end(s@, i + 1),
                    decreases chars@.len() - j,
                {
                    j += 1;
                }
                let name = crate::text::string_of(&chars, i + 1, j);
                match self.environment.get_variable(name.as_str()) {
                    Some(Value::String(v)) => {
                        let ghost before = result@;
                        result.append(v.as_str());
                        proof {
                            assert(result@ == before + v@);
                            match interpolate_from(env, s@, j as int) {
                                Ok(rest) => assert(before + (v@ + rest) =~= result@ + rest),
                                Err(_) => {},
                            }
                        }
                    },
                    None => return Err(name),
                }
                i = j;
            } else {
                let ghost before = result@;
                crate::text::push_char(&mut result, c);
                proof {
                    match interpolate_from(env, s@, i + 1) {
                        Ok(rest) => assert(before + (seq![c] + rest) =~= result@ + rest),
                        Err(_) => {},
                    }
                }
                i += 1;
            }
        }
        proof {
            assert(result@ + Seq::<char>::empty() =~= result@);
        }
        Ok(result)
    }
}

} // verus!

verus! {

/// Whether an executable result is the one a spec result describes.
pub open spec fn value_result_is(r: Result<Value, RunError>, spec: Result<Seq<char>, RunErrorView>) -> bool {
    match spec {
        Ok(v) => r matches Ok(x) && x@ == v,
        Err(e) => r matches Err(x) && x@ == e,
    }
}

/// Whether an executable result is the one a spec result describes.
pub open spec fn steps_result_is(r: Result<Vec<Step>, RunError>, spec: Result<Seq<StepView>, RunErrorView>) -> bool {
    match spec {
        Ok(v) => r matches Ok(x) && steps_view(x@) == v,
        Err(e) => r matches Err(x) && x@ == e,
    }
}

impl Interpreter {
    fn evaluate_expression(&self, node: &Node, facts: &HostFacts) -> (r: Result<Value, RunError>)
        ensures
            value_result_is(r, eval_expression(self.state().env, facts@, node@)),
    {
        match node {
            Node::Literal(Value::String(s)) => match self.interpolate(s.as_str()) {
                Ok(v) => Ok(Value::String(v)),
                Err(name) => Err(RunError::UndefinedInterpolation(name)),
            },
            Node::Env(var) => match facts.variable(var.as_str()) {
                None => Err(RunError::NeedsFact(Query::EnvironmentVariable(var.clone()))),
                Some(Some(v)) => Ok(Value::String(v)),
                Some(None) => Err(RunError::EnvironmentVariableNotSet(var.clone())),
            },
            Node::Variable(name) => match self.environment.get_variable(name.as_str()) {
                Some(Value::String(v)) => Ok(Value::String(v.clone())),
                None => Err(RunError::UndefinedVariable(name.clone())),
            },
            _ => Err(RunError::ExpectedValue(crate::parser::copy_node(node))),
        }
    }

    fn evaluate_condition(&self, node: &Node, facts: &HostFacts) -> (r: Result<bool, RunError>)
        ensures
            match eval_condition(self.state().env, facts@, node@) {
                Ok(b) => r == Ok::<bool, RunError>(b),
                Err(e) => r matches Err(x) && x@ == e,
            },
        decreases node,
    {
        match node {
            Node::Is { left, right } => {
                let a = match self.evaluate_expression(left, facts) {
                    Ok(Value::String(a)) => a,
                    Err(e) => return Err(e),
                };
                let b = match self.evaluate_expression(right, facts) {
                    Ok(Value::String(b)) => b,
                    Err(e) => return Err(e),
                };
                Ok(a == b)
            },
            Node::Not(inner) => match self.evaluate_condition(inner, facts) {
                Ok(b) => Ok(!b),
                Err(e) => Err(e),
            },
            Node::Or { left, right } => match self.evaluate_condition(left, facts) {
                Ok(true) => Ok(true),
                Ok(false) => self.evaluate_condition(right, facts),
                Err(e) => Err(e),
            },
            Node::And { left, right } => match self.evaluate_condition(left, facts) {
                Ok(false) => Ok(false),
                Ok(true) => self.evaluate_condition(right, facts),
                Err(e) => Err(e),
            },
            Node::Exists(path) => match facts.path_exists(path.as_str()) {
                Some(b) => Ok(b),
                None => Err(RunError::NeedsFact(Query::PathExists(path.clone()))),
            },
            Node::Test(command) => match facts.command_available(command.as_str()) {
                Some(b) => Ok(b),
                None => Err(RunError::NeedsFact(Query::CommandAvailable(command.clone()))),
            },
            _ => Err(RunError::ExpectedCondition(crate::parser::copy_node(node))),
        }
    }

    fn has_created(&self, dir: &String) -> (r: bool)
        ensures
            r == self.state().created.contains(dir@),
    {
        let ghost views = self.created_dirs@.map_values(|s: String| s@);
        let mut i: usize = 0;
        while i < self.created_dirs.len()
            invariant
                0 <= i <= self.created_dirs@.len(),
                views == self.created_dirs@.map_values(|s: String| s@),
                forall|j: int| 0 <= j < i ==> views[j] != dir@,
            decreases self.created_dirs@.len() - i,
        {
            if self.created_dirs[i] == *dir {
                proof {
                    assert(views[i as int] == dir@);
                }
                return true;
            }
            i += 1;
        }
        proof {
            assert(!views.contains(dir@));
        }
        false
    }

    /// Plans the parent directory of `destination`, as `plan_parent` describes.
    fn emit_create_dir(&mut self, destination: &String, facts: &HostFacts, steps: &mut Vec<Step>) -> (r: Result<(), RunError>)
        ensures
            match plan_parent(old(self).state(), facts@, destination@) {
                (Ok(dirs), st) => r is Ok && steps_view(final(steps)@) == steps_view(old(steps)@) + dirs
                    && final(self).state() == st,
                (Err(e), st) => r matches Err(x) && x@ == e && final(self).state() == st,
            },
    {
        let parent = match facts.parent(destination.as_str()) {
            None => return Err(RunError::NeedsFact(Query::ParentDirectory(destination.clone()))),
            Some(p) => p,
        };
        let parent = match parent {
            None => {
                proof {
                    assert(steps_view(steps@) + Seq::<StepView>::empty() =~= steps_view(steps@));
                }
                return Ok(());
            },
            Some(p) => p,
        };
        if parent.as_str().is_empty() {
            proof {
                assert(steps_view(steps@) + Seq::<StepView>::empty() =~= steps_view(steps@));
            }
            return Ok(());
        }
        match facts.path_exists(parent.as_str()) {
            None => Err(RunError::NeedsFact(Query::PathExists(parent))),
            Some(true) => {
                proof {
                    assert(steps_view(steps@) + Seq::<StepView>::empty() =~= steps_view(steps@));
                }
                Ok(())
            },
            Some(false) => {
                if self.has_created(&parent) {
                    proof {
                        assert(steps_view(steps@) + Seq::<StepView>::empty() =~= steps_view(steps@));
                    }
                    return Ok(());
                }
                let ghost before = steps_view(steps@);
                let ghost created = self.created_dirs@.map_values(|s: String| s@);
                let ghost p = parent@;
                self.created_dirs.push(parent.clone());
                steps.push(Step::CreateDir(parent));
                proof {
                    assert(steps_view(steps@) =~= before + seq![StepView::CreateDir(p)]);
                    assert(self.created_dirs@.map_values(|s: String| s@) =~= created.push(p));
                    created.lemma_push_to_set_commute(p);
                }
                Ok(())
            },
        }
    }
}

} // verus!

verus! {

impl Interpreter {
    fn run_statement(&mut self, node: &Node, facts: &HostFacts) -> (r: Result<Vec<Step>, RunError>)
        ensures
            steps_result_is(r, run_statement(old(self).state(), facts@, node@).0),
            final(self).state() == run_statement(old(self).state(), facts@, node@).1,
        decreases node, 1nat,
    {
        let mut steps: Vec<Step> = Vec::new();
        proof {
            assert(steps_view(steps@) =~= Seq::<StepView>::empty());
        }
        match node {
            Node::Link { source, destination } => {
                let destination = match self.interpolate(destination.as_str()) {
                    Ok(d) => d,
                    Err(name) => return Err(RunError::UndefinedInterpolation(name)),
                };
                match self.emit_create_dir(&destination, facts, &mut steps) {
                    Ok(()) => {},
                    Err(e) => return Err(e),
                }
                let source = match self.interpolate(source.as_str()) {
                    Ok(s) => s,
                    Err(name) => return Err(RunError::UndefinedInterpolation(name)),
                };
                let ghost before = steps_view(steps@);
                steps.push(Step::Link(Link { source, destination }));
                proof {
                    assert(steps_view(steps@) =~= before.push(steps@.last()@));
                }
                Ok(steps)
            },
            Node::Do { command, shell } => {
                let command = match self.interpolate(command.as_str()) {
                    Ok(c) => c,
                    Err(name) => return Err(RunError::UndefinedInterpolation(name)),
                };
                steps.push(Step::Action(Action { command, shell: shell.clone() }));
                proof {
                    assert(steps_view(steps@) =~= seq![steps@[0]@]);
                }
                Ok(steps)
            },
            Node::If { condition, true_branch, false_branch } => {
                assert(decreases_to!(node => true_branch));
                assert(decreases_to!(node => false_branch));
                match self.evaluate_condition(condition, facts) {
                    Ok(true) => self.run_block(true_branch, facts),
                    Ok(false) => self.run_block(false_branch, facts),
                    Err(e) => Err(e),
                }
            },
            Node::Print(expr) => {
                match self.evaluate_expression(expr, facts) {
                    Ok(Value::String(text)) => {
                        let ghost before = self.output@.map_values(|s: String| s@);
                        let ghost t = text@;
                        self.output.push(text);
                        proof {
                            assert(self.output@.map_values(|s: String| s@) =~= before.push(t));
                        }
                        Ok(steps)
                    },
                    Err(e) => Err(e),
                }
            },
            Node::Assign { variable, value: Value::String(v) } => {
                self.environment.set_variable(variable.clone(), Value::String(v.clone()));
                Ok(steps)
            },
            _ => Err(RunError::UnexpectedStatement(crate::parser::copy_node(node))),
        }
    }

    fn run_block(&mut self, nodes: &Vec<Node>, facts: &HostFacts) -> (r: Result<Vec<Step>, RunError>)
        ensures
            steps_result_is(r, run_block(old(self).state(), facts@, nodes_view(nodes@), 0, Seq::empty()).0),
            final(self).state() == run_block(old(self).state(), facts@, nodes_view(nodes@), 0, Seq::empty()).1,
        decreases nodes, 0nat,
    {
        let ghost s0 = self.state();
        let ghost nv = nodes_view(nodes@);
        let mut steps: Vec<Step> = Vec::new();
        proof {
            assert(steps_view(steps@) =~= Seq::<StepView>::empty());
        }
        let mut i: usize = 0;
        while i < nodes.len()
            invariant
                0 <= i <= nodes@.len(),
                nv == nodes_view(nodes@),
                old(self).state() == s0,
                run_block(s0, facts@, nv, 0, Seq::empty())
                    == run_block(self.state(), facts@, nv, i as int, steps_view(steps@)),
            decreases nodes@.len() - i,
        {
            assert(decreases_to!(nodes => nodes[i as int]));
            assert(nv[i as int] == nodes@[i as int]@);
            match self.run_statement(&nodes[i], facts) {
                Ok(mut more) => {
                    let ghost before = steps_view(steps@);
                    let ghost added = steps_view(more@);
                    steps.append(&mut more);
                    proof {
                        assert(steps_view(steps@) =~= before + added);
                    }
                },
                Err(e) => return Err(e),
            }
            i += 1;
        }
        Ok(steps)
    }

    /// Runs `nodes` against the host that `facts` describe and returns the steps they
    /// ask for. A question the facts do not answer ends the run with `NeedsFact`.
    pub fn run(&mut self, nodes: Vec<Node>, facts: &HostFacts) -> (r: Result<Vec<Step>, RunError>)
        ensures
            steps_result_is(r, run_block(old(self).state(), facts@, nodes_view(nodes@), 0, Seq::empty()).0),
            final(self).state() == run_block(old(self).state(), facts@, nodes_view(nodes@), 0, Seq::empty()).1,
    {
        self.run_block(&nodes, facts)
    }
}

} // verus!

verus! {

impl From<Link> for Step {
    fn from(link: Link) -> (r: Step) {
        Step::Link(link)
    }
}

impl vstd::std_specs::convert::FromSpecImpl<Link> for Step {
    open spec fn obeys_from_spec() -> bool {
        true
    }

    open spec fn from_spec(v: Link) -> Step {
        Step::Link(v)
    }
}

impl From<Action> for Step {
    fn from(action: Action) -> (r: Step) {
        Step::Action(action)
    }
}

impl vstd::std_specs::convert::FromSpecImpl<Action> for Step {
    open spec fn obeys_from_spec() -> bool {
        true
    }

    open spec fn from_spec(v: Action) -> Step {
        Step::Action(v)
    }
}

/// A node of another kind than the one asked for, handed back unchanged.
#[derive(Debug)]
pub struct UnexpectedNode(pub Node);

impl TryFrom<Node> for Link {
    type Error = UnexpectedNode;

    fn try_from(value: Node) -> (r: Result<Link, UnexpectedNode>) {
        match value {
            Node::Link { source, destination } => Ok(Link { source, destination }),
            other => Err(UnexpectedNode(other)),
        }
    }
}

impl vstd::std_specs::convert::TryFromSpecImpl<Node> for Link {
    open spec fn obeys_try_from_spec() -> bool {
        true
    }

    open spec fn try_from_spec(v: Node) -> Result<Link, UnexpectedNode> {
        match v {
            Node::Link { source, destination } => Ok(Link { source, destination }),
            other => Err(UnexpectedNode(other)),
        }
    }
}

impl TryFrom<Node> for Action {
    type Error = UnexpectedNode;

    fn try_from(value: Node) -> (r: Result<Action, UnexpectedNode>) {
        match value {
            Node::Do { command, shell } => Ok(Action { command, shell }),
            other => Err(UnexpectedNode(other)),
        }
    }
}

impl vstd::std_specs::convert::TryFromSpecImpl<Node> for Action {
    open spec fn obeys_try_from_spec() -> bool {
        true
    }

    open spec fn try_from_spec(v: Node) -> Result<Action, UnexpectedNode> {
        match v {
            Node::Do { command, shell } => Ok(Action { command, shell }),
            other => Err(UnexpectedNode(other)),
        }
    }
}

} // verus!
