//! A whole dottyfile: parse its text, run it for a host, and list the steps it asks for.
use vstd::prelude::*;
use crate::interpreter::{
    Action, Context, HostFacts, Interpreter, Link, RunError, RunErrorView, Step, StepView,
    initial_state, opt_view, run_block, steps_view,
};
use crate::parser::{ParseError, ParseErrorView, Parser, NodeView, parse_items, source_start};

verus! {

/// The steps a dottyfile asks for on one host.
#[derive(Debug)]
pub struct DottyConfig {
    pub steps: Vec<Step>,
    /// What `print` statements wrote while the dottyfile ran, in order.
    pub printed: Vec<String>,
}

/// Why a dottyfile yields no steps.
#[derive(Debug)]
pub enum ConfigError {
    /// The text does not parse.
    Parse(ParseError),
    /// The run stops; `output` is what `print` wrote before it did.
    Run { error: RunError, output: Vec<String> },
}

pub enum ConfigErrorView {
    Parse(ParseErrorView),
    Run { error: RunErrorView, output: Seq<Seq<char>> },
}

impl View for ConfigError {
    type V = ConfigErrorView;

    open spec fn view(&self) -> ConfigErrorView {
        match self {
            ConfigError::Parse(e) => ConfigErrorView::Parse(e@),
            ConfigError::Run { error, output } => ConfigErrorView::Run {
                error: error@,
                output: output@.map_values(|s: String| s@),
            },
        }
    }
}

/// Whether reading `source` meets text the lexer cannot get past (a whitespace character
/// wider than one byte where whitespace is skipped) before the parse ends.
pub open spec fn stops_short(source: Seq<char>) -> bool {
    source_start(source).stalled || parse_items(source_start(source), Seq::empty()).1.stalled
}

/// The statements of `source`, or why it does not parse.
pub open spec fn parsed(source: Seq<char>) -> Result<Seq<NodeView>, ParseErrorView> {
    parse_items(source_start(source), Seq::empty()).0
}

/// The steps `source` asks for on the host that `os`, `hostname`, `profile` and `facts`
/// describe, with what `print` writes, or why there are none.
pub open spec fn configure(
    source: Seq<char>,
    os: Seq<char>,
    hostname: Seq<char>,
    profile: Option<Seq<char>>,
    facts: crate::interpreter::FactsView,
) -> Result<(Seq<StepView>, Seq<Seq<char>>), ConfigErrorView> {
    match parsed(source) {
        Err(e) => Err(ConfigErrorView::Parse(e)),
        Ok(nodes) => {
            let run = run_block(initial_state(os, hostname, profile), facts, nodes, 0, Seq::empty());
            match run.0 {
                Ok(steps) => Ok((steps, run.1.output)),
                Err(e) => Err(ConfigErrorView::Run { error: e, output: run.1.output }),
            }
        },
    }
}

/// The links among `steps`, in order.
pub open spec fn links_in(steps: Seq<StepView>) -> Seq<StepView>
    decreases steps.len(),
{
    if steps.len() == 0 {
        Seq::empty()
    } else {
        let earlier = links_in(steps.drop_last());
        if steps.last() is Link {
            earlier.push(steps.last())
        } else {
            earlier
        }
    }
}

/// The actions among `steps`, in order.
pub open spec fn actions_in(steps: Seq<StepView>) -> Seq<StepView>
    decreases steps.len(),
{
    if steps.len() == 0 {
        Seq::empty()
    } else {
        let earlier = actions_in(steps.drop_last());
        if steps.last() is Action {
            earlier.push(steps.last())
        } else {
            earlier
        }
    }
}

/// Whether an executable result is the one `configure` describes.
pub open spec fn config_result_is(r: Result<DottyConfig, ConfigError>, spec: Result<(Seq<StepView>, Seq<Seq<char>>), ConfigErrorView>) -> bool {
    match spec {
        Ok((steps, out)) => r matches Ok(c) && steps_view(c.steps@) == steps && c.printed_view() == out,
        Err(e) => r matches Err(x) && x@ == e,
    }
}

impl DottyConfig {
    /// What `print` statements wrote while the dottyfile ran.
    pub open spec fn printed_view(&self) -> Seq<Seq<char>> {
        self.printed@.map_values(|s: String| s@)
    }

    /// Parses `source` and runs it for the host that `context` and `facts` describe.
    /// `None` where reading the text stops short (see `stops_short`).
    pub fn parse_checked(source: &str, context: Context, facts: &HostFacts) -> (r: Option<Result<DottyConfig, ConfigError>>)
        requires
            source@.len() < usize::MAX,
        ensures
            r is None <==> stops_short(source@),
            r matches Some(res) ==> config_result_is(
                res,
                configure(source@, context.os@, context.hostname@, opt_view(context.profile), facts@),
            ),
    {
        let mut parser = Parser::start(source);
        if parser.stopped_short() {
            return None;
        }
        let nodes = parser.parse_through();
        if parser.stopped_short() {
            return None;
        }
        let nodes = match nodes {
            Ok(nodes) => nodes,
            Err(e) => return Some(Err(ConfigError::Parse(e))),
        };
        let mut interpreter = Interpreter::from_context(context);
        match interpreter.run(nodes, facts) {
            Ok(steps) => {
                let printed = interpreter.output().clone();
                Some(Ok(DottyConfig { steps, printed }))
            },
            Err(error) => {
                let output = interpreter.output().clone();
                Some(Err(ConfigError::Run { error, output }))
            },
        }
    }

    /// Parses `source` and runs it for the host that `context` and `facts` describe.
    pub fn parse_with_context(source: &str, context: Context, facts: &HostFacts) -> (r: Result<DottyConfig, ConfigError>)
        requires
            source@.len() < usize::MAX,
            !stops_short(source@),
        ensures
            config_result_is(r, configure(source@, context.os@, context.hostname@, opt_view(context.profile), facts@)),
    {
        Self::parse_checked(source, context, facts).unwrap()
    }

    /// The links among the steps, in order.
    pub fn links(&self) -> (r: Vec<&Link>)
        ensures
            r@.map_values(|l: &Link| StepView::Link { source: l.source@, destination: l.destination@ })
                == links_in(steps_view(self.steps@)),
    {
        let ghost all = steps_view(self.steps@);
        let mut r: Vec<&Link> = Vec::new();
        let mut i: usize = 0;
        while i < self.steps.len()
            invariant
                0 <= i <= self.steps@.len(),
                all == steps_view(self.steps@),
                r@.map_values(|l: &Link| StepView::Link { source: l.source@, destination: l.destination@ })
                    == links_in(all.take(i as int)),
            decreases self.steps@.len() - i,
        {
            let ghost before = r@.map_values(|l: &Link| StepView::Link { source: l.source@, destination: l.destination@ });
            proof {
                assert(all.take(i + 1).drop_last() =~= all.take(i as int));
                assert(all.take(i + 1).last() == self.steps@[i as int]@);
            }
            if let Step::Link(l) = &self.steps[i] {
                r.push(l);
                proof {
                    assert(r@.map_values(|l: &Link| StepView::Link { source: l.source@, destination: l.destination@ })
                        =~= before.push(StepView::Link { source: l.source@, destination: l.destination@ }));
                }
            }
            i += 1;
        }
        proof {
            assert(all.take(self.steps@.len() as int) =~= all);
        }
        r
    }

    /// The actions among the steps, in order.
    pub fn actions(&self) -> (r: Vec<&Action>)
        ensures
            r@.map_values(|a: &Action| StepView::Action { command: a.command@, shell: a.shell@ })
                == actions_in(steps_view(self.steps@)),
    {
        let ghost all = steps_view(self.steps@);
        let mut r: Vec<&Action> = Vec::new();
        let mut i: usize = 0;
        while i < self.steps.len()
            invariant
                0 <= i <= self.steps@.len(),
                all == steps_view(self.steps@),
                r@.map_values(|a: &Action| StepView::Action { command: a.command@, shell: a.shell@ })
                    == actions_in(all.take(i as int)),
            decreases self.steps@.len() - i,
        {
            let ghost before = r@.map_values(|a: &Action| StepView::Action { command: a.command@, shell: a.shell@ });
            proof {
                assert(all.take(i + 1).drop_last() =~= all.take(i as int));
                assert(all.take(i + 1).last() == self.steps@[i as int]@);
            }
            if let Step::Action(a) = &self.steps[i] {
                r.push(a);
                proof {
                    assert(r@.map_values(|a: &Action| StepView::Action { command: a.command@, shell: a.shell@ })
                        =~= before.push(StepView::Action { command: a.command@, shell: a.shell@ }));
                }
            }
            i += 1;
        }
        proof {
            assert(all.take(self.steps@.len() as int) =~= all);
        }
        r
    }
}

} // verus!
