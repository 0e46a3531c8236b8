//! Properties of the library as a whole, proved over the specifications that the
//! functions' contracts use.
use vstd::prelude::*;
use crate::lexer::{lex_all, lex_step, lemma_lex_step_bounds, lemma_lex_all_len, LexStep, Lexer, TokenStream};
use crate::interpreter::{
    interpolate, interpolate_from, name_char, name_end, Environment, RunState, StepView, FactsView,
    run_block, run_statement, plan_parent, initial_state, eval_condition, eval_expression, QueryView, RunErrorView,
};
use crate::install::{link_plan, LinkPlan, Removal, link_state_of, LinkState, LinkTarget};
use crate::lexer::TokenView;
use crate::parser::{
    NodeView, ParseState, is_special_variable, os_name, hostname_name, profile_name, parse_statement,
    parse_if, parse_block, parse_block_items, parse_items, consume, remaining, lemma_statement_group,
    lemma_consume, lemma_condition, parse_condition, ParseErrorView, lemma_parse_items_ends,
};
use crate::dottyfile::{configure, parsed, ConfigErrorView};

verus! {

proof fn lemma_lex_all_lines(src: Seq<char>, pos: int, line: int)
    requires
        0 <= pos <= src.len(),
        line <= pos + 1,
    ensures
        forall|i: int| 0 <= i < lex_all(src, pos, line).0.len() ==> line <= #[trigger] lex_all(src, pos, line).0[i].1,
        forall|i: int, j: int| 0 <= i < j < lex_all(src, pos, line).0.len()
            ==> #[trigger] lex_all(src, pos, line).0[i].1 <= #[trigger] lex_all(src, pos, line).0[j].1,
    decreases src.len() - pos,
{
    lemma_lex_step_bounds(src, pos, line);
    if let LexStep::Found { token, line: tl, pos: p2, next_line: l2 } = lex_step(src, pos, line) {
        lemma_lex_all_lines(src, p2, l2);
        let toks = lex_all(src, pos, line).0;
        let rest = lex_all(src, p2, l2).0;
        assert(toks == seq![(token, tl)] + rest);
        assert forall|i: int| 0 <= i < toks.len() implies line <= #[trigger] toks[i].1 by {
            if i > 0 {
                assert(toks[i] == rest[i - 1]);
            }
        }
        assert forall|i: int, j: int| 0 <= i < j < toks.len() implies #[trigger] toks[i].1 <= #[trigger] toks[j].1 by {
            assert(toks[j] == rest[j - 1]);
            if i > 0 {
                assert(toks[i] == rest[i - 1]);
            }
        }
    }
}

/// The line numbers of the tokens of a text never go down: a token never stands on an
/// earlier line than the token before it, nor on an earlier line than the one the lexer
/// starts on.
pub proof fn law_token_lines_never_decrease(source: Seq<char>, i: int, j: int)
    requires
        0 <= i < j < lex_all(source, 0, 1).0.len(),
    ensures
        1 <= lex_all(source, 0, 1).0[i].1 <= lex_all(source, 0, 1).0[j].1,
{
    lemma_lex_all_lines(source, 0, 1);
    assert(1 <= lex_all(source, 0, 1).0[i].1);
}

proof fn lemma_interpolate_plain(env: Map<Seq<char>, Seq<char>>, s: Seq<char>, i: int)
    requires
        0 <= i <= s.len(),
        forall|k: int| i <= k < s.len() ==> s[k] != '$',
    ensures
        interpolate_from(env, s, i) == Ok::<Seq<char>, Seq<char>>(s.subrange(i, s.len() as int)),
    decreases s.len() - i,
{
    if i < s.len() {
        lemma_interpolate_plain(env, s, i + 1);
        assert(seq![s[i]] + s.subrange(i + 1, s.len() as int) =~= s.subrange(i, s.len() as int));
    } else {
        assert(s.subrange(i, s.len() as int) =~= Seq::<char>::empty());
    }
}

/// A string without `$` comes out of interpolation unchanged, whatever the variables.
pub proof fn law_interpolation_keeps_plain_text(env: Map<Seq<char>, Seq<char>>, s: Seq<char>)
    requires
        !s.contains('$'),
    ensures
        interpolate(env, s) == Ok::<Seq<char>, Seq<char>>(s),
{
    assert forall|k: int| 0 <= k < s.len() implies s[k] != '$' by {
        if s[k] == '$' {
            assert(s.contains('$'));
        }
    }
    lemma_interpolate_plain(env, s, 0);
    assert(s.subrange(0, s.len() as int) =~= s);
}

/// `$name` followed by text that cannot continue a name is replaced by the value of the
/// variable `name`; the text after it, when it holds no `$`, stays as it is.
pub proof fn law_interpolation_replaces_variable(env: Map<Seq<char>, Seq<char>>, name: Seq<char>, tail: Seq<char>)
    requires
        env.contains_key(name),
        forall|k: int| 0 <= k < name.len() ==> name_char(#[trigger] name[k]),
        tail.len() == 0 || !name_char(tail[0]),
        !tail.contains('$'),
    ensures
        interpolate(env, seq!['$'] + name + tail) == Ok::<Seq<char>, Seq<char>>(env[name] + tail),
{
    let s = seq!['$'] + name + tail;
    let e: int = name.len() as int + 1;
    assert forall|k: int| 1 <= k < e implies name_char(s[k]) by {
        assert(s[k] == name[k - 1]);
    }
    lemma_name_ends(s, 1, e);
    assert(s.subrange(1, e) =~= name);
    assert forall|k: int| e <= k < s.len() implies s[k] != '$' by {
        assert(s[k] == tail[k - e]);
        if s[k] == '$' {
            assert(tail.contains('$'));
        }
    }
    lemma_interpolate_plain(env, s, e);
    assert(s.subrange(e, s.len() as int) =~= tail);
}

proof fn lemma_name_ends(s: Seq<char>, from: int, e: int)
    requires
        0 <= from <= e <= s.len(),
        forall|k: int| from <= k < e ==> name_char(#[trigger] s[k]),
        e == s.len() || !name_char(s[e]),
    ensures
        name_end(s, from) == e,
    decreases e - from,
{
    if from < e {
        lemma_name_ends(s, from + 1, e);
    }
}

/// After a variable is set, reading it gives the value set, and every other variable
/// reads as before: `before.set_variable(name, value)` leaves `after`, and
/// `after.get_variable(..)` answers from the bindings.
pub proof fn law_variable_reads_back(before: Environment, after: Environment, name: Seq<char>, value: Seq<char>, other: Seq<char>)
    requires
        after.bindings() == before.bindings().insert(name, value),
    ensures
        after.bindings().contains_key(name),
        after.bindings()[name] == value,
        other != name ==> after.bindings().contains_key(other) == before.bindings().contains_key(other),
        other != name && before.bindings().contains_key(other) ==> after.bindings()[other] == before.bindings()[other],
{
}

/// Whether a plan removes what stands at the target.
pub open spec fn removes_target(plan: LinkPlan) -> bool {
    match plan {
        LinkPlan::Link { remove: Some(_), .. } => true,
        _ => false,
    }
}

/// A link never removes what stands at its target unless overwriting is on, and a link
/// whose source is missing is never made.
pub proof fn law_no_removal_without_overwrite(source_exists: bool, target_exists: bool, target_is_dir: bool, overwrite: bool, ask: bool)
    ensures
        !overwrite ==> !removes_target(link_plan(source_exists, target_exists, target_is_dir, overwrite, ask)),
        !source_exists ==> link_plan(source_exists, target_exists, target_is_dir, overwrite, ask) == LinkPlan::SkipMissingSource,
        source_exists && !target_exists ==> link_plan(source_exists, target_exists, target_is_dir, overwrite, ask)
            == (LinkPlan::Link { remove: None, confirm: ask }),
{
}


/// The directory a step creates, if it is a `CreateDir` step.
pub open spec fn created_dir(s: StepView) -> Option<Seq<char>> {
    match s {
        StepView::CreateDir(p) => Some(p),
        _ => None,
    }
}

/// The `CreateDir` steps of `steps` name distinct directories, none of them in `before`
/// and all of them in `after`.
pub open spec fn fresh_dirs(steps: Seq<StepView>, before: Set<Seq<char>>, after: Set<Seq<char>>) -> bool {
    &&& forall|k: int| 0 <= k < steps.len() && #[trigger] created_dir(steps[k]) is Some
        ==> !before.contains(created_dir(steps[k])->0) && after.contains(created_dir(steps[k])->0)
    &&& forall|k: int, m: int| 0 <= k < m < steps.len() && #[trigger] created_dir(steps[k]) is Some
        && #[trigger] created_dir(steps[m]) is Some ==> created_dir(steps[k]) != created_dir(steps[m])
}

proof fn lemma_fresh_dirs_concat(a: Seq<StepView>, b: Seq<StepView>, s0: Set<Seq<char>>, s1: Set<Seq<char>>, s2: Set<Seq<char>>)
    requires
        fresh_dirs(a, s0, s1),
        fresh_dirs(b, s1, s2),
        s0.subset_of(s1),
        s1.subset_of(s2),
    ensures
        fresh_dirs(a + b, s0, s2),
{
    let c = a + b;
    assert forall|k: int| 0 <= k < c.len() && #[trigger] created_dir(c[k]) is Some
        implies !s0.contains(created_dir(c[k])->0) && s2.contains(created_dir(c[k])->0) by {
        if k < a.len() {
            assert(c[k] == a[k]);
        } else {
            assert(c[k] == b[k - a.len()]);
        }
    }
    assert forall|k: int, m: int| 0 <= k < m < c.len() && #[trigger] created_dir(c[k]) is Some
        && #[trigger] created_dir(c[m]) is Some implies created_dir(c[k]) != created_dir(c[m]) by {
        if m < a.len() {
            assert(c[k] == a[k] && c[m] == a[m]);
        } else if k >= a.len() {
            assert(c[k] == b[k - a.len()] && c[m] == b[m - a.len()]);
        } else {
            assert(c[k] == a[k] && c[m] == b[m - a.len()]);
        }
    }
}

proof fn lemma_plan_parent_fresh(st: RunState, facts: FactsView, destination: Seq<char>)
    ensures
        st.created.subset_of(plan_parent(st, facts, destination).1.created),
        plan_parent(st, facts, destination).1.env == st.env,
        plan_parent(st, facts, destination).0 matches Ok(dirs)
            ==> fresh_dirs(dirs, st.created, plan_parent(st, facts, destination).1.created),
{
}

proof fn lemma_run_fresh_dirs(st: RunState, facts: FactsView, nodes: Seq<NodeView>, i: int, done: Seq<StepView>)
    ensures
        st.created.subset_of(run_block(st, facts, nodes, i, done).1.created),
        run_block(st, facts, nodes, i, done).0 matches Ok(all) ==> {
            &&& done.len() <= all.len()
            &&& all.subrange(0, done.len() as int) == done
            &&& fresh_dirs(all.subrange(done.len() as int, all.len() as int), st.created, run_block(st, facts, nodes, i, done).1.created)
        },
    decreases nodes, nodes.len() - i,
{
    if 0 <= i < nodes.len() {
        let (r1, st1) = run_statement(st, facts, nodes[i]);
        lemma_run_statement_fresh(st, facts, nodes[i]);
        if let Ok(steps) = r1 {
            lemma_run_fresh_dirs(st1, facts, nodes, i + 1, done + steps);
            let (r2, st2) = run_block(st1, facts, nodes, i + 1, done + steps);
            if let Ok(all) = r2 {
                let rest = all.subrange((done.len() + steps.len()) as int, all.len() as int);
                assert(all.subrange(0, done.len() as int) =~= (done + steps).subrange(0, done.len() as int));
                assert((done + steps).subrange(0, done.len() as int) =~= done);
                let ds = done + steps;
                assert(all.subrange(0, ds.len() as int) == ds);
                assert(all.subrange(done.len() as int, ds.len() as int) =~= ds.subrange(done.len() as int, ds.len() as int));
                assert(ds.subrange(done.len() as int, ds.len() as int) =~= steps);
                lemma_fresh_dirs_concat(steps, rest, st.created, st1.created, st2.created);
                assert(all.subrange(done.len() as int, all.len() as int) =~= steps + rest);
            }
        }
    } else {
        assert(done.subrange(0, done.len() as int) =~= done);
        assert(done.subrange(done.len() as int, done.len() as int) =~= Seq::<StepView>::empty());
    }
}

proof fn lemma_run_statement_fresh(st: RunState, facts: FactsView, n: NodeView)
    ensures
        st.created.subset_of(run_statement(st, facts, n).1.created),
        run_statement(st, facts, n).0 matches Ok(steps) ==> fresh_dirs(steps, st.created, run_statement(st, facts, n).1.created),
    decreases n, 0nat,
{
    match n {
        NodeView::Link { source, destination } => {
            if let Ok(dest) = crate::interpreter::interpolate(st.env, destination) {
                lemma_plan_parent_fresh(st, facts, dest);
                let (r1, st1) = plan_parent(st, facts, dest);
                if let Ok(dirs) = r1 {
                    if let Ok(src) = crate::interpreter::interpolate(st1.env, source) {
                        let link = StepView::Link { source: src, destination: dest };
                        assert(created_dir(link) is None);
                        let steps = dirs.push(link);
                        assert forall|k: int| 0 <= k < steps.len() && #[trigger] created_dir(steps[k]) is Some
                            implies k < dirs.len() by {}
                    }
                }
            }
        },
        NodeView::If { condition, true_branch, false_branch } => {
            lemma_run_fresh_dirs(st, facts, true_branch, 0, Seq::empty());
            lemma_run_fresh_dirs(st, facts, false_branch, 0, Seq::empty());
            let a = run_block(st, facts, true_branch, 0, Seq::empty()).0;
            let b = run_block(st, facts, false_branch, 0, Seq::empty()).0;
            if let Ok(all) = a {
                assert(all.subrange(0, all.len() as int) =~= all);
            }
            if let Ok(all) = b {
                assert(all.subrange(0, all.len() as int) =~= all);
            }
        },
        _ => {},
    }
}

/// Each directory is created at most once: the `CreateDir` steps that a dottyfile yields
/// name distinct directories.
pub proof fn law_each_directory_created_once(
    source: Seq<char>,
    os: Seq<char>,
    hostname: Seq<char>,
    profile: Option<Seq<char>>,
    facts: FactsView,
    k: int,
    m: int,
)
    requires
        configure(source, os, hostname, profile, facts) is Ok,
        0 <= k < m < configure(source, os, hostname, profile, facts)->Ok_0.0.len(),
        created_dir(configure(source, os, hostname, profile, facts)->Ok_0.0[k]) is Some,
        created_dir(configure(source, os, hostname, profile, facts)->Ok_0.0[m]) is Some,
    ensures
        created_dir(configure(source, os, hostname, profile, facts)->Ok_0.0[k])
            != created_dir(configure(source, os, hostname, profile, facts)->Ok_0.0[m]),
{
    let nodes = parsed(source)->Ok_0;
    let st = initial_state(os, hostname, profile);
    lemma_run_fresh_dirs(st, facts, nodes, 0, Seq::empty());
    let all = run_block(st, facts, nodes, 0, Seq::empty()).0->Ok_0;
    assert(all.subrange(0, all.len() as int) =~= all);
}


/// A statement that assigns none of `os`, `hostname` and `profile`, in itself or in the
/// statements it holds.
pub open spec fn assigns_no_host_variable(n: NodeView) -> bool
    decreases n, 0nat,
{
    match n {
        NodeView::Assign { variable, .. } => !is_special_variable(variable),
        NodeView::If { true_branch, false_branch, .. } => block_assigns_no_host_variable(true_branch, 0)
            && block_assigns_no_host_variable(false_branch, 0),
        _ => true,
    }
}

/// The statements `nodes[i..]` assign none of `os`, `hostname` and `profile`.
pub open spec fn block_assigns_no_host_variable(nodes: Seq<NodeView>, i: int) -> bool
    decreases nodes, nodes.len() - i,
{
    if i < 0 || i >= nodes.len() {
        true
    } else {
        assigns_no_host_variable(nodes[i]) && block_assigns_no_host_variable(nodes, i + 1)
    }
}

proof fn lemma_block_all(nodes: Seq<NodeView>, i: int)
    requires
        0 <= i <= nodes.len(),
    ensures
        block_assigns_no_host_variable(nodes, i)
            <==> forall|k: int| i <= k < nodes.len() ==> assigns_no_host_variable(#[trigger] nodes[k]),
    decreases nodes.len() - i,
{
    if i < nodes.len() {
        lemma_block_all(nodes, i + 1);
    }
}

proof fn lemma_block_push(nodes: Seq<NodeView>, n: NodeView)
    requires
        block_assigns_no_host_variable(nodes, 0),
        assigns_no_host_variable(n),
    ensures
        block_assigns_no_host_variable(nodes.push(n), 0),
{
    lemma_block_all(nodes, 0);
    lemma_block_all(nodes.push(n), 0);
    assert forall|k: int| 0 <= k < nodes.push(n).len() implies assigns_no_host_variable(#[trigger] nodes.push(n)[k]) by {
        if k < nodes.len() {
            assert(nodes.push(n)[k] == nodes[k]);
        }
    }
}

proof fn lemma_parse_no_host_variable(s: ParseState, done: Seq<NodeView>)
    ensures
        parse_statement(s).0 matches Ok(n) ==> assigns_no_host_variable(n),
        parse_if(s).0 matches Ok(n) ==> assigns_no_host_variable(n),
        parse_block(s).0 matches Ok(ns) ==> block_assigns_no_host_variable(ns, 0),
        block_assigns_no_host_variable(done, 0) ==> (parse_block_items(s, done).0 matches Ok(ns)
            ==> block_assigns_no_host_variable(ns, 0)),
    decreases remaining(s),
{
    lemma_statement_group(s, done);
    lemma_consume(s);
    lemma_condition(consume(s));
    let c2 = parse_condition(consume(s)).1;
    assert(block_assigns_no_host_variable(Seq::<NodeView>::empty(), 0));
    if remaining(c2) < remaining(s) {
        lemma_parse_no_host_variable(c2, done);
        lemma_statement_group(c2, done);
        let b3 = parse_block(c2).1;
        lemma_consume(b3);
        if remaining(consume(b3)) < remaining(s) {
            lemma_parse_no_host_variable(consume(b3), done);
        }
    }
    let x1 = crate::parser::expect_token(s, crate::lexer::TokenView::LeftBrace).1;
    if remaining(x1) < remaining(s) {
        lemma_parse_no_host_variable(x1, Seq::empty());
    }
    if let (Ok(n), st1) = parse_statement(s) {
        if remaining(st1) < remaining(s) {
            if block_assigns_no_host_variable(done, 0) {
                lemma_block_push(done, n);
            }
            lemma_parse_no_host_variable(st1, done.push(n));
        }
    }
}

proof fn lemma_parse_items_no_host_variable(s: ParseState, done: Seq<NodeView>)
    requires
        block_assigns_no_host_variable(done, 0),
    ensures
        parse_items(s, done).0 matches Ok(ns) ==> block_assigns_no_host_variable(ns, 0),
    decreases remaining(s),
{
    if s.current is Some {
        lemma_parse_no_host_variable(s, done);
        lemma_statement_group(s, done);
        if let (Ok(n), st1) = parse_statement(s) {
            lemma_block_push(done, n);
            lemma_parse_items_no_host_variable(st1, done.push(n));
        }
    }
}

/// The host variables read the same in `b` as in `a`.
pub open spec fn keeps_host_variables(a: RunState, b: RunState) -> bool {
    &&& b.env.get(os_name()) == a.env.get(os_name())
    &&& b.env.get(hostname_name()) == a.env.get(hostname_name())
    &&& b.env.get(profile_name()) == a.env.get(profile_name())
}

proof fn lemma_statement_keeps_host_variables(st: RunState, facts: FactsView, n: NodeView)
    requires
        assigns_no_host_variable(n),
    ensures
        keeps_host_variables(st, run_statement(st, facts, n).1),
    decreases n, 0nat,
{
    match n {
        NodeView::Link { source, destination } => {
            if let Ok(dest) = crate::interpreter::interpolate(st.env, destination) {
                lemma_plan_parent_fresh(st, facts, dest);
            }
        },
        NodeView::If { condition, true_branch, false_branch } => {
            lemma_block_keeps_host_variables(st, facts, true_branch, 0, Seq::empty());
            lemma_block_keeps_host_variables(st, facts, false_branch, 0, Seq::empty());
        },
        NodeView::Assign { variable, value } => {
            assert(variable != os_name() && variable != hostname_name() && variable != profile_name());
        },
        _ => {},
    }
}

proof fn lemma_block_keeps_host_variables(st: RunState, facts: FactsView, nodes: Seq<NodeView>, i: int, done: Seq<StepView>)
    requires
        block_assigns_no_host_variable(nodes, i),
    ensures
        keeps_host_variables(st, run_block(st, facts, nodes, i, done).1),
    decreases nodes, nodes.len() - i,
{
    if 0 <= i < nodes.len() {
        lemma_statement_keeps_host_variables(st, facts, nodes[i]);
        let (r1, st1) = run_statement(st, facts, nodes[i]);
        if let Ok(steps) = r1 {
            lemma_block_keeps_host_variables(st1, facts, nodes, i + 1, done + steps);
        }
    }
}

/// Whatever a dottyfile says, `os`, `hostname` and `profile` keep the values the host
/// gave them: the parser refuses to assign them, so a run of what it accepts never
/// changes them.
pub proof fn law_host_variables_cannot_be_overridden(
    source: Seq<char>,
    os: Seq<char>,
    hostname: Seq<char>,
    profile: Option<Seq<char>>,
    facts: FactsView,
)
    requires
        parsed(source) is Ok,
    ensures
        ({
            let end = run_block(initial_state(os, hostname, profile), facts, parsed(source)->Ok_0, 0, Seq::empty()).1;
            &&& end.env.get(os_name()) == Some(os)
            &&& end.env.get(hostname_name()) == Some(hostname)
            &&& end.env.get(profile_name()) == Some(match profile { Some(p) => p, None => Seq::<char>::empty() })
        }),
{
    let s0 = crate::parser::source_start(source);
    assert(block_assigns_no_host_variable(Seq::<NodeView>::empty(), 0));
    lemma_parse_items_no_host_variable(s0, Seq::empty());
    let st = initial_state(os, hostname, profile);
    lemma_block_keeps_host_variables(st, facts, parsed(source)->Ok_0, 0, Seq::empty());
    assert(os_name() != hostname_name());
    assert(os_name() != profile_name());
    assert(hostname_name() != profile_name());
}

} // verus!

verus! {

/// Whether `facts` already hold the answer to `q`.
pub open spec fn answers(facts: FactsView, q: QueryView) -> bool {
    match q {
        QueryView::PathExists(p) => facts.paths.contains_key(p),
        QueryView::CommandAvailable(c) => facts.commands.contains_key(c),
        QueryView::EnvironmentVariable(v) => facts.variables.contains_key(v),
        QueryView::ParentDirectory(p) => facts.parents.contains_key(p),
    }
}

/// Whether a result, if it is a request for a fact, asks for one that `facts` lack.
pub open spec fn asks_only_missing<T>(r: Result<T, RunErrorView>, facts: FactsView) -> bool {
    r matches Err(RunErrorView::NeedsFact(q)) ==> !answers(facts, q)
}

proof fn lemma_condition_asks_only_missing(env: Map<Seq<char>, Seq<char>>, facts: FactsView, n: NodeView)
    ensures
        asks_only_missing(eval_condition(env, facts, n), facts),
    decreases n,
{
    match n {
        NodeView::Not(inner) => lemma_condition_asks_only_missing(env, facts, *inner),
        NodeView::Or { left, right } => {
            lemma_condition_asks_only_missing(env, facts, *left);
            lemma_condition_asks_only_missing(env, facts, *right);
        },
        NodeView::And { left, right } => {
            lemma_condition_asks_only_missing(env, facts, *left);
            lemma_condition_asks_only_missing(env, facts, *right);
        },
        _ => {},
    }
}

proof fn lemma_statement_asks_only_missing(st: RunState, facts: FactsView, n: NodeView)
    ensures
        asks_only_missing(run_statement(st, facts, n).0, facts),
    decreases n, 0nat,
{
    match n {
        NodeView::If { condition, true_branch, false_branch } => {
            lemma_condition_asks_only_missing(st.env, facts, *condition);
            lemma_block_asks_only_missing(st, facts, true_branch, 0, Seq::empty());
            lemma_block_asks_only_missing(st, facts, false_branch, 0, Seq::empty());
        },
        _ => {},
    }
}

proof fn lemma_block_asks_only_missing(st: RunState, facts: FactsView, nodes: Seq<NodeView>, i: int, done: Seq<StepView>)
    ensures
        asks_only_missing(run_block(st, facts, nodes, i, done).0, facts),
    decreases nodes, nodes.len() - i,
{
    if 0 <= i < nodes.len() {
        lemma_statement_asks_only_missing(st, facts, nodes[i]);
        let (r1, st1) = run_statement(st, facts, nodes[i]);
        if r1 is Ok {
            lemma_block_asks_only_missing(st1, facts, nodes, i + 1, done + r1->Ok_0);
        }
    }
}

/// A run asks the host only what the facts it was given do not answer: when a dottyfile
/// stops for a fact, that fact is missing from `facts`. Recording the answer and running
/// again therefore never meets the same question at the same point.
pub proof fn law_runs_ask_only_missing_facts(
    source: Seq<char>,
    os: Seq<char>,
    hostname: Seq<char>,
    profile: Option<Seq<char>>,
    facts: FactsView,
    q: QueryView,
)
    requires
        configure(source, os, hostname, profile, facts) matches Err(ConfigErrorView::Run { error: RunErrorView::NeedsFact(x), .. }) && x == q,
    ensures
        !answers(facts, q),
{
    let nodes = parsed(source)->Ok_0;
    lemma_block_asks_only_missing(initial_state(os, hostname, profile), facts, nodes, 0, Seq::empty());
}

} // verus!

verus! {

/// `big` holds every answer that `small` holds, and the same one.
pub open spec fn extends(small: FactsView, big: FactsView) -> bool {
    &&& small.paths.submap_of(big.paths)
    &&& small.commands.submap_of(big.commands)
    &&& small.variables.submap_of(big.variables)
    &&& small.parents.submap_of(big.parents)
}

/// Whether a result is anything but a request for a fact.
pub open spec fn settled<T>(r: Result<T, RunErrorView>) -> bool {
    !(r matches Err(RunErrorView::NeedsFact(_)))
}

proof fn lemma_expression_settled(env: Map<Seq<char>, Seq<char>>, facts: FactsView, more: FactsView, n: NodeView)
    requires
        extends(facts, more),
        settled(eval_expression(env, facts, n)),
    ensures
        eval_expression(env, more, n) == eval_expression(env, facts, n),
{
    if let NodeView::Env(var) = n {
        assert(facts.variables.contains_key(var));
        assert(more.variables[var] == facts.variables[var]);
    }
}

proof fn lemma_condition_settled(env: Map<Seq<char>, Seq<char>>, facts: FactsView, more: FactsView, n: NodeView)
    requires
        extends(facts, more),
        settled(eval_condition(env, facts, n)),
    ensures
        eval_condition(env, more, n) == eval_condition(env, facts, n),
    decreases n,
{
    match n {
        NodeView::Is { left, right } => {
            lemma_expression_settled(env, facts, more, *left);
            if eval_expression(env, facts, *left) is Ok {
                lemma_expression_settled(env, facts, more, *right);
            }
        },
        NodeView::Not(inner) => lemma_condition_settled(env, facts, more, *inner),
        NodeView::Or { left, right } => {
            lemma_condition_settled(env, facts, more, *left);
            if eval_condition(env, facts, *left) == Ok::<bool, RunErrorView>(false) {
                lemma_condition_settled(env, facts, more, *right);
            }
        },
        NodeView::And { left, right } => {
            lemma_condition_settled(env, facts, more, *left);
            if eval_condition(env, facts, *left) == Ok::<bool, RunErrorView>(true) {
                lemma_condition_settled(env, facts, more, *right);
            }
        },
        NodeView::Exists(path) => {
            assert(facts.paths.contains_key(path));
            assert(more.paths[path] == facts.paths[path]);
        },
        NodeView::Test(command) => {
            assert(facts.commands.contains_key(command));
            assert(more.commands[command] == facts.commands[command]);
        },
        _ => {},
    }
}

proof fn lemma_plan_parent_settled(st: RunState, facts: FactsView, more: FactsView, destination: Seq<char>)
    requires
        extends(facts, more),
        settled(plan_parent(st, facts, destination).0),
    ensures
        plan_parent(st, more, destination) == plan_parent(st, facts, destination),
{
    assert(facts.parents.contains_key(destination));
    assert(more.parents.contains_key(destination));
    assert(more.parents[destination] == facts.parents[destination]);
    if let Some(parent) = facts.parents[destination] {
        if parent.len() > 0 {
            assert(facts.paths.contains_key(parent));
            assert(more.paths.contains_key(parent));
            assert(more.paths[parent] == facts.paths[parent]);
        }
    }
}

proof fn lemma_statement_settled(st: RunState, facts: FactsView, more: FactsView, n: NodeView)
    requires
        extends(facts, more),
        settled(run_statement(st, facts, n).0),
    ensures
        run_statement(st, more, n) == run_statement(st, facts, n),
    decreases n, 0nat,
{
    match n {
        NodeView::Link { source, destination } => {
            if let Ok(dest) = crate::interpreter::interpolate(st.env, destination) {
                lemma_plan_parent_settled(st, facts, more, dest);
            }
        },
        NodeView::If { condition, true_branch, false_branch } => {
            lemma_condition_settled(st.env, facts, more, *condition);
            if let Ok(b) = eval_condition(st.env, facts, *condition) {
                if b {
                    lemma_block_settled(st, facts, more, true_branch, 0, Seq::empty());
                } else {
                    lemma_block_settled(st, facts, more, false_branch, 0, Seq::empty());
                }
            }
        },
        NodeView::Print(expr) => {
            lemma_expression_settled(st.env, facts, more, *expr);
        },
        _ => {},
    }
}

proof fn lemma_block_settled(st: RunState, facts: FactsView, more: FactsView, nodes: Seq<NodeView>, i: int, done: Seq<StepView>)
    requires
        extends(facts, more),
        settled(run_block(st, facts, nodes, i, done).0),
    ensures
        run_block(st, more, nodes, i, done) == run_block(st, facts, nodes, i, done),
    decreases nodes, nodes.len() - i,
{
    if 0 <= i < nodes.len() {
        let (r1, st1) = run_statement(st, facts, nodes[i]);
        lemma_statement_settled(st, facts, more, nodes[i]);
        if r1 is Ok {
            lemma_block_settled(st1, facts, more, nodes, i + 1, done + r1->Ok_0);
        }
    }
}

/// Once a dottyfile runs to an end without asking for a fact (its steps, or another
/// error), more answers about the host change nothing: with any facts that extend those
/// it ran with, it yields the same outcome. So the order in which the host's answers are
/// gathered does not matter.
pub proof fn law_more_facts_change_no_settled_outcome(
    source: Seq<char>,
    os: Seq<char>,
    hostname: Seq<char>,
    profile: Option<Seq<char>>,
    facts: FactsView,
    more: FactsView,
)
    requires
        extends(facts, more),
        !(configure(source, os, hostname, profile, facts) matches Err(ConfigErrorView::Run { error: RunErrorView::NeedsFact(_), .. })),
    ensures
        configure(source, os, hostname, profile, more) == configure(source, os, hostname, profile, facts),
{
    if parsed(source) is Ok {
        let nodes = parsed(source)->Ok_0;
        lemma_block_settled(initial_state(os, hostname, profile), facts, more, nodes, 0, Seq::empty());
    }
}

} // verus!

verus! {

/// The lexer yields at most one token per character of the text: each token takes up at
/// least one character, so at most `source.len()` calls of `next_token` return a token
/// before the first `None`.
pub proof fn law_at_most_one_token_per_character(source: Seq<char>)
    ensures
        lex_all(source, 0, 1).0.len() <= source.len(),
{
    lemma_lex_all_len(source, 0, 1);
}

/// A parse that succeeds has read the whole stream: no token is left at hand. And a
/// statement that starts with a token that cannot start one (anything but `link`, `do`,
/// `if`, `print` or a name) is refused as an unexpected token on its line.
pub proof fn law_successful_parse_reads_everything(s: ParseState)
    ensures
        parse_items(s, Seq::empty()).0 is Ok ==> parse_items(s, Seq::empty()).1.current is None,
        s.current matches Some(t) ==> !crate::parser::starts_statement(t)
            ==> parse_items(s, Seq::empty()).0 == Err::<Seq<NodeView>, ParseErrorView>(ParseErrorView::UnexpectedToken { line: s.line, token: t }),
{
    lemma_parse_items_ends(s, Seq::empty());
}

/// Over the lifetime of one interpreter no directory is planned twice: for two runs one
/// after the other (`Interpreter::run` leaves the state `run_block` gives), the
/// `CreateDir` steps of both runs together name distinct directories, none of them
/// planned before the first run.
pub proof fn law_no_directory_planned_twice_across_runs(
    st: RunState,
    facts1: FactsView,
    nodes1: Seq<NodeView>,
    facts2: FactsView,
    nodes2: Seq<NodeView>,
)
    requires
        run_block(st, facts1, nodes1, 0, Seq::empty()).0 is Ok,
        run_block(run_block(st, facts1, nodes1, 0, Seq::empty()).1, facts2, nodes2, 0, Seq::empty()).0 is Ok,
    ensures
        fresh_dirs(
            run_block(st, facts1, nodes1, 0, Seq::empty()).0->Ok_0
                + run_block(run_block(st, facts1, nodes1, 0, Seq::empty()).1, facts2, nodes2, 0, Seq::empty()).0->Ok_0,
            st.created,
            run_block(run_block(st, facts1, nodes1, 0, Seq::empty()).1, facts2, nodes2, 0, Seq::empty()).1.created,
        ),
{
    let (r1, st1) = run_block(st, facts1, nodes1, 0, Seq::empty());
    let (r2, st2) = run_block(st1, facts2, nodes2, 0, Seq::empty());
    lemma_run_fresh_dirs(st, facts1, nodes1, 0, Seq::empty());
    lemma_run_fresh_dirs(st1, facts2, nodes2, 0, Seq::empty());
    let s1 = r1->Ok_0;
    let s2 = r2->Ok_0;
    assert(s1.subrange(0, s1.len() as int) =~= s1);
    assert(s2.subrange(0, s2.len() as int) =~= s2);
    lemma_fresh_dirs_concat(s1, s2, st.created, st1.created, st2.created);
}

} // verus!

verus! {

/// However many times `next_token` is called on a lexer, each call that returns a token
/// reads at least one more character of the text (and the text stays the same), a call
/// that returns `None` is followed only by calls that return `None`, and the tokens still
/// to come never outnumber the characters still unread. So a lexer over a text of `n`
/// characters returns a token at most `n` times before its first `None`.
pub proof fn law_lexer_calls_are_bounded(lx: Lexer)
    requires
        lx.well_formed(),
    ensures
        lx.position() <= lx.text_len(),
        lx.pending().len() <= lx.text_len() - lx.position(),
{
    lx.lemma_pending_fits();
}

} // verus!

verus! {

/// How the connectives of a condition combine their operands: `a and b` holds exactly when
/// both hold, and is false as soon as `a` is; `a or b` fails exactly when both fail, and
/// holds as soon as `a` does; `not a` holds exactly when `a` fails; an error of the operand
/// read first is the error of the whole.
pub proof fn law_condition_connectives(env: Map<Seq<char>, Seq<char>>, facts: FactsView, a: NodeView, b: NodeView)
    ensures
        (eval_condition(env, facts, NodeView::And { left: Box::new(a), right: Box::new(b) }) == Ok::<bool, RunErrorView>(true))
            <==> (eval_condition(env, facts, a) == Ok::<bool, RunErrorView>(true)
                && eval_condition(env, facts, b) == Ok::<bool, RunErrorView>(true)),
        eval_condition(env, facts, a) == Ok::<bool, RunErrorView>(false)
            ==> eval_condition(env, facts, NodeView::And { left: Box::new(a), right: Box::new(b) }) == Ok::<bool, RunErrorView>(false),
        eval_condition(env, facts, a) == Ok::<bool, RunErrorView>(true) && eval_condition(env, facts, b) == Ok::<bool, RunErrorView>(false)
            ==> eval_condition(env, facts, NodeView::And { left: Box::new(a), right: Box::new(b) }) == Ok::<bool, RunErrorView>(false),
        (eval_condition(env, facts, NodeView::Or { left: Box::new(a), right: Box::new(b) }) == Ok::<bool, RunErrorView>(false))
            <==> (eval_condition(env, facts, a) == Ok::<bool, RunErrorView>(false)
                && eval_condition(env, facts, b) == Ok::<bool, RunErrorView>(false)),
        eval_condition(env, facts, a) == Ok::<bool, RunErrorView>(true)
            ==> eval_condition(env, facts, NodeView::Or { left: Box::new(a), right: Box::new(b) }) == Ok::<bool, RunErrorView>(true),
        eval_condition(env, facts, a) == Ok::<bool, RunErrorView>(false) && eval_condition(env, facts, b) == Ok::<bool, RunErrorView>(true)
            ==> eval_condition(env, facts, NodeView::Or { left: Box::new(a), right: Box::new(b) }) == Ok::<bool, RunErrorView>(true),
        (eval_condition(env, facts, NodeView::Not(Box::new(a))) == Ok::<bool, RunErrorView>(true))
            <==> (eval_condition(env, facts, a) == Ok::<bool, RunErrorView>(false)),
        (eval_condition(env, facts, NodeView::Not(Box::new(a))) == Ok::<bool, RunErrorView>(false))
            <==> (eval_condition(env, facts, a) == Ok::<bool, RunErrorView>(true)),
        eval_condition(env, facts, a) matches Err(e) ==> {
            &&& eval_condition(env, facts, NodeView::And { left: Box::new(a), right: Box::new(b) }) == Err::<bool, RunErrorView>(e)
            &&& eval_condition(env, facts, NodeView::Or { left: Box::new(a), right: Box::new(b) }) == Err::<bool, RunErrorView>(e)
            &&& eval_condition(env, facts, NodeView::Not(Box::new(a))) == Err::<bool, RunErrorView>(e)
        },
{
}

/// `a is b` holds exactly when the two values are equal, and `exists` / `test` give what
/// the host answered about the path / command.
pub proof fn law_condition_tests(env: Map<Seq<char>, Seq<char>>, facts: FactsView, a: NodeView, b: NodeView, x: Seq<char>)
    ensures
        eval_expression(env, facts, a) matches Ok(va) ==> (eval_expression(env, facts, b) matches Ok(vb) ==>
            eval_condition(env, facts, NodeView::Is { left: Box::new(a), right: Box::new(b) }) == Ok::<bool, RunErrorView>(va == vb)),
        facts.paths.contains_key(x) ==> eval_condition(env, facts, NodeView::Exists(x)) == Ok::<bool, RunErrorView>(facts.paths[x]),
        facts.commands.contains_key(x) ==> eval_condition(env, facts, NodeView::Test(x)) == Ok::<bool, RunErrorView>(facts.commands[x]),
{
}

/// An `if` runs exactly one of its branches, chosen by its condition, from the state the
/// `if` starts in.
pub proof fn law_if_runs_the_chosen_branch(st: RunState, facts: FactsView, c: NodeView, t: Seq<NodeView>, f: Seq<NodeView>)
    ensures
        eval_condition(st.env, facts, c) == Ok::<bool, RunErrorView>(true)
            ==> run_statement(st, facts, NodeView::If { condition: Box::new(c), true_branch: t, false_branch: f })
                == run_block(st, facts, t, 0, Seq::empty()),
        eval_condition(st.env, facts, c) == Ok::<bool, RunErrorView>(false)
            ==> run_statement(st, facts, NodeView::If { condition: Box::new(c), true_branch: t, false_branch: f })
                == run_block(st, facts, f, 0, Seq::empty()),
{
}

/// What a link's status rests on: a missing source first, then a missing target; where
/// the target is not a symlink, what reading it as a link gave makes no difference; only a
/// symlink is judged by where it points.
pub proof fn law_link_state(source_exists: bool, target_exists: bool, target_is_symlink: bool, p: LinkTarget, q: LinkTarget)
    ensures
        !source_exists ==> link_state_of(source_exists, target_exists, target_is_symlink, p) == LinkState::SourceMissing,
        source_exists && !target_exists ==> link_state_of(source_exists, target_exists, target_is_symlink, p) == LinkState::NotLinked,
        source_exists && target_exists && !target_is_symlink
            ==> link_state_of(source_exists, target_exists, target_is_symlink, p) == LinkState::ExistsButNotSymlink,
        !(source_exists && target_exists && target_is_symlink)
            ==> link_state_of(source_exists, target_exists, target_is_symlink, p)
                == link_state_of(source_exists, target_exists, target_is_symlink, q),
        source_exists && target_exists && target_is_symlink ==> {
            &&& (link_state_of(true, true, true, p) == LinkState::Linked <==> p == LinkTarget::Source)
            &&& (link_state_of(true, true, true, p) == LinkState::WrongTarget <==> p == LinkTarget::Elsewhere)
            &&& (link_state_of(true, true, true, p) == LinkState::SymlinkError <==> p == LinkTarget::Unreadable)
        },
{
}

/// What a plan removes at the target, if anything.
pub open spec fn removal_of(plan: LinkPlan) -> Option<Removal> {
    match plan {
        LinkPlan::Link { remove, .. } => remove,
        _ => None,
    }
}

/// How a link is installed: asking changes only whether the user is asked, never what
/// is removed or skipped; a directory at the target is removed as a directory and
/// anything else as a file, when overwriting is on; a free target is linked directly.
pub proof fn law_link_plan(source_exists: bool, target_exists: bool, target_is_dir: bool, overwrite: bool, a1: bool, a2: bool)
    ensures
        removal_of(link_plan(source_exists, target_exists, target_is_dir, overwrite, a1))
            == removal_of(link_plan(source_exists, target_exists, target_is_dir, overwrite, a2)),
        (link_plan(source_exists, target_exists, target_is_dir, overwrite, a1) is Link)
            == (link_plan(source_exists, target_exists, target_is_dir, overwrite, a2) is Link),
        link_plan(source_exists, target_exists, target_is_dir, overwrite, a1) matches LinkPlan::Link { confirm, .. }
            ==> confirm == a1,
        source_exists && target_exists && overwrite ==> {
            &&& link_plan(source_exists, target_exists, target_is_dir, overwrite, a1) is Link
            &&& (removal_of(link_plan(source_exists, target_exists, target_is_dir, overwrite, a1)) == Some(Removal::Directory)
                <==> target_is_dir)
            &&& (removal_of(link_plan(source_exists, target_exists, target_is_dir, overwrite, a1)) == Some(Removal::File)
                <==> !target_is_dir)
        },
        source_exists && !target_exists ==> link_plan(source_exists, target_exists, target_is_dir, overwrite, a1) is Link
            && removal_of(link_plan(source_exists, target_exists, target_is_dir, overwrite, a1)) is None,
        source_exists && target_exists && !overwrite
            ==> link_plan(source_exists, target_exists, target_is_dir, overwrite, a1) == LinkPlan::SkipExistingTarget,
{
}

/// A token that may start a statement: `link`, `do`, `if`, `print` or a name.
pub open spec fn opens_statement(t: TokenView) -> bool {
    t == TokenView::Link || t == TokenView::Do || t == TokenView::If || t == TokenView::Print || t is Identifier
}

/// A block accepts the same statements as the top level: where the token at hand opens a
/// statement (nested `if`s included), both read that statement and go on after it with
/// it added, and both stop with its error if it has one.
pub proof fn law_blocks_accept_every_statement(s: ParseState, done: Seq<NodeView>)
    requires
        s.current matches Some(t) && opens_statement(t),
    ensures
        parse_statement(s) matches (Ok(n), s1) ==> {
            &&& parse_block_items(s, done) == parse_block_items(s1, done.push(n))
            &&& parse_items(s, done) == parse_items(s1, done.push(n))
        },
        parse_statement(s) matches (Err(e), s1) ==> {
            &&& parse_block_items(s, done) == (Err::<Seq<NodeView>, ParseErrorView>(e), s1)
            &&& parse_items(s, done) == (Err::<Seq<NodeView>, ParseErrorView>(e), s1)
        },
{
    lemma_statement_group(s, done);
}

/// An ASCII letter, an ASCII digit or `_`.
pub open spec fn ascii_name_char(c: char) -> bool {
    ('a' <= c <= 'z') || ('A' <= c <= 'Z') || ('0' <= c <= '9') || c == '_'
}

/// Among ASCII characters, exactly the letters, the digits and `_` continue a variable
/// name after `$`.
pub proof fn law_ascii_name_chars(c: char)
    requires
        (c as u32) < 0x80,
    ensures
        name_char(c) <==> ascii_name_char(c),
{
}

/// `$name` for a name of ASCII letters, digits and `_`, followed by text that starts with
/// no such character and holds no `$`, becomes the value of `name` followed by that text.
pub proof fn law_interpolation_of_ascii_names(env: Map<Seq<char>, Seq<char>>, name: Seq<char>, tail: Seq<char>)
    requires
        env.contains_key(name),
        forall|k: int| 0 <= k < name.len() ==> ascii_name_char(#[trigger] name[k]),
        tail.len() == 0 || ((tail[0] as u32) < 0x80 && !ascii_name_char(tail[0])),
        !tail.contains('$'),
    ensures
        interpolate(env, seq!['$'] + name + tail) == Ok::<Seq<char>, Seq<char>>(env[name] + tail),
{
    assert forall|k: int| 0 <= k < name.len() implies name_char(#[trigger] name[k]) by {
        assert(ascii_name_char(name[k]));
    }
    law_interpolation_replaces_variable(env, name, tail);
}

} // verus!

verus! {

/// What a value is: a string literal is that string with its variables put in, a name is
/// the variable's value, `env "NAME"` is what the host has set it to; each error names
/// what is missing.
pub proof fn law_expression_values(env: Map<Seq<char>, Seq<char>>, facts: FactsView, s: Seq<char>, name: Seq<char>)
    ensures
        interpolate(env, s) matches Ok(v) ==> eval_expression(env, facts, NodeView::Literal(s)) == Ok::<Seq<char>, RunErrorView>(v),
        interpolate(env, s) matches Err(m) ==> eval_expression(env, facts, NodeView::Literal(s))
            == Err::<Seq<char>, RunErrorView>(RunErrorView::UndefinedInterpolation(m)),
        env.contains_key(name) ==> eval_expression(env, facts, NodeView::Variable(name)) == Ok::<Seq<char>, RunErrorView>(env[name]),
        !env.contains_key(name) ==> eval_expression(env, facts, NodeView::Variable(name))
            == Err::<Seq<char>, RunErrorView>(RunErrorView::UndefinedVariable(name)),
        facts.variables.get(name) == Some(Some(s)) ==> eval_expression(env, facts, NodeView::Env(name)) == Ok::<Seq<char>, RunErrorView>(s),
        facts.variables.get(name) == Some(None::<Seq<char>>) ==> eval_expression(env, facts, NodeView::Env(name))
            == Err::<Seq<char>, RunErrorView>(RunErrorView::EnvironmentVariableNotSet(name)),
        !facts.variables.contains_key(name) ==> eval_expression(env, facts, NodeView::Env(name))
            == Err::<Seq<char>, RunErrorView>(RunErrorView::NeedsFact(QueryView::EnvironmentVariable(name))),
{
}

/// What one link asks for, once its paths are put together and the host has answered:
/// a `CreateDir` of the destination's parent comes right before the link exactly when
/// that parent is not empty, does not exist, and was not planned before; the parent is
/// then planned. A `do` is one action with its command put together; `print` adds its
/// text to the output; an assignment binds the variable; none of these three plans a
/// directory.
pub proof fn law_statement_steps(st: RunState, facts: FactsView, source: Seq<char>, destination: Seq<char>, src: Seq<char>, dest: Seq<char>, parent: Option<Seq<char>>)
    requires
        interpolate(st.env, source) == Ok::<Seq<char>, Seq<char>>(src),
        interpolate(st.env, destination) == Ok::<Seq<char>, Seq<char>>(dest),
        facts.parents.get(dest) == Some(parent),
        parent matches Some(p) ==> (p.len() > 0 ==> facts.paths.contains_key(p)),
    ensures
        ({
            let r = run_statement(st, facts, NodeView::Link { source, destination });
            let link = StepView::Link { source: src, destination: dest };
            match parent {
                Some(p) => if p.len() > 0 && !facts.paths[p] && !st.created.contains(p) {
                    r.0 == Ok::<Seq<StepView>, RunErrorView>(seq![StepView::CreateDir(p), link])
                        && r.1.created == st.created.insert(p)
                } else {
                    r.0 == Ok::<Seq<StepView>, RunErrorView>(seq![link]) && r.1.created == st.created
                },
                None => r.0 == Ok::<Seq<StepView>, RunErrorView>(seq![link]) && r.1.created == st.created,
            }
        }),
        ({
            let r = run_statement(st, facts, NodeView::Do { command: source, shell: destination });
            r.0 == Ok::<Seq<StepView>, RunErrorView>(seq![StepView::Action { command: src, shell: destination }]) && r.1 == st
        }),
        ({
            let r = run_statement(st, facts, NodeView::Assign { variable: source, value: destination });
            r.0 == Ok::<Seq<StepView>, RunErrorView>(Seq::empty()) && r.1.env == st.env.insert(source, destination)
                && r.1.created == st.created && r.1.output == st.output
        }),
        ({
            let r = run_statement(st, facts, NodeView::Print(Box::new(NodeView::Literal(destination))));
            r.0 == Ok::<Seq<StepView>, RunErrorView>(Seq::empty()) && r.1.output == st.output.push(dest)
                && r.1.env == st.env && r.1.created == st.created
        }),
{
    assert(seq![link_of(src, dest)] =~= Seq::<StepView>::empty().push(link_of(src, dest)));
    if let Some(p) = parent {
        assert(seq![StepView::CreateDir(p), link_of(src, dest)] =~= seq![StepView::CreateDir(p)].push(link_of(src, dest)));
    }
}

spec fn link_of(src: Seq<char>, dest: Seq<char>) -> StepView {
    StepView::Link { source: src, destination: dest }
}

} // verus!
