//! Installing the steps of a dottyfile: the decisions made for each step, apart from
//! the file system work itself.
use vstd::prelude::*;
use crate::interpreter::{Step, StepView, steps_view};
use crate::text::{str_eq, to_lowercase, trim, trimmed, lowercase};

verus! {

/// The steps of a dottyfile and how to install them.
pub struct Dotty {
    steps: Vec<Step>,
    overwrite: bool,
    ask: bool,
}

impl Dotty {
    pub closed spec fn steps_view(&self) -> Seq<StepView> {
        steps_view(self.steps@)
    }

    pub closed spec fn overwrite_view(&self) -> bool {
        self.overwrite
    }

    pub closed spec fn ask_view(&self) -> bool {
        self.ask
    }

    /// Installs `steps`, leaving existing files alone and asking nothing.
    pub fn new(steps: Vec<Step>) -> (r: Self)
        ensures
            r.steps_view() == steps_view(steps@),
            !r.overwrite_view(),
            !r.ask_view(),
    {
        Dotty { steps, overwrite: false, ask: false }
    }

    /// The same, replacing existing files at link targets when `overwrite` holds.
    pub fn with_overwrite(self, overwrite: bool) -> (r: Self)
        ensures
            r.steps_view() == self.steps_view(),
            r.overwrite_view() == overwrite,
            r.ask_view() == self.ask_view(),
    {
        let mut r = self;
        r.overwrite = overwrite;
        r
    }

    /// The same, asking before each link when `ask` holds.
    pub fn with_ask(self, ask: bool) -> (r: Self)
        ensures
            r.steps_view() == self.steps_view(),
            r.overwrite_view() == self.overwrite_view(),
            r.ask_view() == ask,
    {
        let mut r = self;
        r.ask = ask;
        r
    }

    pub fn steps(&self) -> (r: &Vec<Step>)
        ensures
            steps_view(r@) == self.steps_view(),
    {
        &self.steps
    }

    pub fn overwrite(&self) -> (r: bool)
        ensures
            r == self.overwrite_view(),
    {
        self.overwrite
    }

    pub fn ask(&self) -> (r: bool)
        ensures
            r == self.ask_view(),
    {
        self.ask
    }
}

/// How to remove what stands at a link target.
#[derive(Debug, PartialEq, Eq)]
pub enum Removal {
    Directory,
    File,
}

/// What to do for one link.
#[derive(Debug, PartialEq, Eq)]
pub enum LinkPlan {
    /// The source is missing: skip the link.
    SkipMissingSource,
    /// Something stands at the target and overwriting is off: skip the link.
    SkipExistingTarget,
    /// Remove what stands at the target, if anything, then ask if `confirm`, then link.
    Link { remove: Option<Removal>, confirm: bool },
}

/// The plan for a link, given what the file system shows.
pub open spec fn link_plan(source_exists: bool, target_exists: bool, target_is_dir: bool, overwrite: bool, ask: bool) -> LinkPlan {
    if !source_exists {
        LinkPlan::SkipMissingSource
    } else if target_exists && !overwrite {
        LinkPlan::SkipExistingTarget
    } else {
        LinkPlan::Link {
            remove: if target_exists {
                Some(if target_is_dir { Removal::Directory } else { Removal::File })
            } else {
                None
            },
            confirm: ask,
        }
    }
}

/// Decides what to do for one link: skip it when its source is missing; when something
/// stands at the target, remove it if overwriting is on and skip the link otherwise;
/// then ask first if asking is on.
pub fn plan_link(source_exists: bool, target_exists: bool, target_is_dir: bool, overwrite: bool, ask: bool) -> (r: LinkPlan)
    ensures
        r == link_plan(source_exists, target_exists, target_is_dir, overwrite, ask),
{
    if !source_exists {
        return LinkPlan::SkipMissingSource;
    }
    let remove = if target_exists {
        if !overwrite {
            return LinkPlan::SkipExistingTarget;
        }
        Some(if target_is_dir { Removal::Directory } else { Removal::File })
    } else {
        None
    };
    LinkPlan::Link { remove, confirm: ask }
}

/// Whether an answer to "Link ...? [y/N]" accepts: `y` or `yes` in any case, with
/// whitespace around it allowed.
pub fn accepts_answer(input: &str) -> (r: bool)
    ensures
        r == (lowercase(trimmed(input@)) == seq!['y']
            || lowercase(trimmed(input@)) == seq!['y', 'e', 's']),
{
    let answer = to_lowercase(trim(input));
    proof {
        reveal_strlit("y");
        reveal_strlit("yes");
        assert("y"@ =~= seq!['y']);
        assert("yes"@ =~= seq!['y', 'e', 's']);
    }
    str_eq(answer.as_str(), "y") || str_eq(answer.as_str(), "yes")
}

/// How `readlink` of a link target turned out.
#[derive(Debug, PartialEq, Eq)]
pub enum LinkTarget {
    /// It points at the source.
    Source,
    /// It points elsewhere.
    Elsewhere,
    /// It could not be read.
    Unreadable,
}

/// The state of one link, as the status report shows it.
#[derive(Debug, PartialEq, Eq)]
pub enum LinkState {
    SourceMissing,
    NotLinked,
    Linked,
    WrongTarget,
    SymlinkError,
    ExistsButNotSymlink,
}

pub open spec fn link_state_of(source_exists: bool, target_exists: bool, target_is_symlink: bool, points_to: LinkTarget) -> LinkState {
    if !source_exists {
        LinkState::SourceMissing
    } else if !target_exists {
        LinkState::NotLinked
    } else if target_is_symlink {
        match points_to {
            LinkTarget::Source => LinkState::Linked,
            LinkTarget::Elsewhere => LinkState::WrongTarget,
            LinkTarget::Unreadable => LinkState::SymlinkError,
        }
    } else {
        LinkState::ExistsButNotSymlink
    }
}

/// The state of a link from what the file system shows: a missing source first, then a
/// missing target, then what a symlink at the target points at.
pub fn link_state(source_exists: bool, target_exists: bool, target_is_symlink: bool, points_to: LinkTarget) -> (r: LinkState)
    ensures
        r == link_state_of(source_exists, target_exists, target_is_symlink, points_to),
{
    if !source_exists {
        LinkState::SourceMissing
    } else if !target_exists {
        LinkState::NotLinked
    } else if target_is_symlink {
        match points_to {
            LinkTarget::Source => LinkState::Linked,
            LinkTarget::Elsewhere => LinkState::WrongTarget,
            LinkTarget::Unreadable => LinkState::SymlinkError,
        }
    } else {
        LinkState::ExistsButNotSymlink
    }
}

/// The program that runs an action: its shell, or `sh` when it names none.
pub fn shell_program(shell: &str) -> (r: &str)
    ensures
        shell@.len() == 0 ==> r@ == seq!['s', 'h'],
        shell@.len() > 0 ==> r@ == shell@,
{
    if shell.is_empty() {
        proof {
            reveal_strlit("sh");
            assert("sh"@ =~= seq!['s', 'h']);
        }
        "sh"
    } else {
        shell
    }
}

} // verus!

verus! {

/// The permission bits that a chmod step's mode writes in octal, if it is a valid mode.
pub fn chmod_mode(mode: &str) -> (r: Option<u32>)
    ensures
        r == crate::text::octal_u32(mode@),
{
    crate::text::parse_octal(mode)
}

/// What to report after an action succeeds: what it wrote, trimmed, or its command when it
/// wrote nothing but whitespace.
pub fn success_detail(stdout: &str, command: &str) -> (r: String)
    ensures
        trimmed(stdout@).len() > 0 ==> r@ == trimmed(stdout@),
        trimmed(stdout@).len() == 0 ==> r@ == command@,
{
    let shown = trim(stdout);
    if shown.is_empty() {
        command.to_owned()
    } else {
        shown.to_owned()
    }
}

} // verus!
