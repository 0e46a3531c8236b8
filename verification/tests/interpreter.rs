use dotty::interpreter::{
    Action, Context, Environment, HostFacts, Interpreter, Link, Query, RunError, Step,
    UnexpectedNode,
};
use dotty::parser::{Node, Parser, Value};

fn context(os: &str, hostname: &str, profile: Option<&str>) -> Context {
    Context {
        os: os.to_string(),
        hostname: hostname.to_string(),
        profile: profile.map(|p| p.to_string()),
    }
}

fn nodes(source: &str) -> Vec<Node> {
    Parser::new(source).parse().unwrap()
}

fn value(v: Option<&Value>) -> Option<String> {
    v.map(|Value::String(s)| s.clone())
}

#[test]
fn variable_reads_back_after_set() {
    let mut env = Environment::new();
    assert_eq!(value(env.get_variable("a")), None);
    env.set_variable("a".to_string(), Value::String("1".to_string()));
    env.set_variable("b".to_string(), Value::String("2".to_string()));
    env.set_variable("a".to_string(), Value::String("3".to_string()));
    assert_eq!(value(env.get_variable("a")), Some("3".to_string()));
    assert_eq!(value(env.get_variable("b")), Some("2".to_string()));
    assert_eq!(value(env.get_variable("c")), None);
}

#[test]
fn recorded_facts_are_answered() {
    let mut facts = HostFacts::new();
    assert_eq!(facts.path_exists("/p"), None);
    facts.record_path("/p".to_string(), true);
    facts.record_path("/q".to_string(), false);
    facts.record_command("git".to_string(), true);
    facts.record_variable("HOME".to_string(), Some("/home/u".to_string()));
    facts.record_variable("UNSET".to_string(), None);
    assert_eq!(facts.path_exists("/p"), Some(true));
    assert_eq!(facts.path_exists("/q"), Some(false));
    assert_eq!(facts.command_available("git"), Some(true));
    assert_eq!(facts.command_available("zap"), None);
    assert_eq!(facts.variable("HOME"), Some(Some("/home/u".to_string())));
    assert_eq!(facts.variable("UNSET"), Some(None));
    assert_eq!(facts.variable("OTHER"), None);
    facts.record_path("/p".to_string(), false);
    assert_eq!(facts.path_exists("/p"), Some(false));
}

#[test]
fn parents_come_from_the_path() {
    let mut facts = HostFacts::new();
    assert_eq!(facts.parent("a/b/c"), None);
    facts.learn_parent("a/b/c");
    facts.learn_parent("c");
    facts.learn_parent("/");
    assert_eq!(facts.parent("a/b/c"), Some(Some("a/b".to_string())));
    assert_eq!(facts.parent("c"), Some(Some(String::new())));
    assert_eq!(facts.parent("/"), Some(None));
}

#[test]
fn host_variables_are_set_from_the_context() {
    let interpreter = Interpreter::from_context(context("linux", "box", None));
    assert_eq!(interpreter.interpolate("$os/$hostname/[$profile]"), Ok("linux/box/[]".to_string()));
    let with = Interpreter::from_context(context("linux", "box", None).with_profile("work".to_string()));
    assert_eq!(with.interpolate("$profile"), Ok("work".to_string()));
}

#[test]
fn interpolation_keeps_plain_text_and_replaces_variables() {
    let mut interpreter = Interpreter::from_context(context("linux", "box", None));
    interpreter
        .run(nodes("common = \"hosts/common\""), &HostFacts::new())
        .unwrap();
    assert_eq!(interpreter.interpolate("plain/text"), Ok("plain/text".to_string()));
    assert_eq!(
        interpreter.interpolate("$common/config/git"),
        Ok("hosts/common/config/git".to_string())
    );
    assert_eq!(interpreter.interpolate("$common_x"), Err("common_x".to_string()));
    assert_eq!(interpreter.interpolate("a$"), Err(String::new()));
    assert_eq!(interpreter.interpolate("$commoné"), Err("commoné".to_string()));
}

#[test]
fn conditions_choose_one_branch() {
    let mut interpreter = Interpreter::from_context(context("macos", "box", None));
    let steps = interpreter
        .run(
            nodes("if os is \"linux\" { do \"a\" } else { do \"b\" }\nif os is not \"linux\" and hostname is \"box\" { do \"c\" }"),
            &HostFacts::new(),
        )
        .unwrap();
    let commands: Vec<String> = steps
        .iter()
        .map(|s| match s {
            Step::Action(Action { command, .. }) => command.clone(),
            other => panic!("unexpected step {:?}", other),
        })
        .collect();
    assert_eq!(commands, vec!["b".to_string(), "c".to_string()]);
}

#[test]
fn or_stops_at_the_first_true_operand() {
    // The second operand would need an answer about the host; `or` never asks.
    let mut interpreter = Interpreter::from_context(context("linux", "box", None));
    let steps = interpreter
        .run(nodes("if os is \"linux\" or test \"zap\" { do \"a\" }"), &HostFacts::new())
        .unwrap();
    assert_eq!(steps.len(), 1);
}

#[test]
fn questions_the_facts_do_not_answer_stop_the_run() {
    let mut interpreter = Interpreter::from_context(context("linux", "box", None));
    match interpreter.run(nodes("if test \"zap\" {}"), &HostFacts::new()) {
        Err(RunError::NeedsFact(Query::CommandAvailable(c))) => assert_eq!(c, "zap"),
        other => panic!("unexpected result {:?}", other),
    }
    match interpreter.run(nodes("if exists \"/etc\" {}"), &HostFacts::new()) {
        Err(RunError::NeedsFact(Query::PathExists(p))) => assert_eq!(p, "/etc"),
        other => panic!("unexpected result {:?}", other),
    }
    match interpreter.run(nodes("print env \"HOME\""), &HostFacts::new()) {
        Err(RunError::NeedsFact(Query::EnvironmentVariable(v))) => assert_eq!(v, "HOME"),
        other => panic!("unexpected result {:?}", other),
    }
    match interpreter.run(nodes("link \"a\" to \"d/b\""), &HostFacts::new()) {
        Err(RunError::NeedsFact(Query::ParentDirectory(p))) => assert_eq!(p, "d/b"),
        other => panic!("unexpected result {:?}", other),
    }
    let mut facts = HostFacts::new();
    facts.learn_parent("d/b");
    match interpreter.run(nodes("link \"a\" to \"d/b\""), &facts) {
        Err(RunError::NeedsFact(Query::PathExists(p))) => assert_eq!(p, "d"),
        other => panic!("unexpected result {:?}", other),
    }
}

#[test]
fn each_directory_is_created_once() {
    let mut facts = HostFacts::new();
    facts.learn_parent("d/a");
    facts.learn_parent("d/b");
    facts.learn_parent("e/c");
    facts.learn_parent("top");
    facts.record_path("d".to_string(), false);
    facts.record_path("e".to_string(), true);
    let mut interpreter = Interpreter::from_context(context("linux", "box", None));
    let steps = interpreter
        .run(
            nodes("link \"x\" to \"d/a\"\nlink \"y\" to \"d/b\"\nlink \"z\" to \"e/c\"\nlink \"w\" to \"top\""),
            &facts,
        )
        .unwrap();
    let created: Vec<&String> = steps
        .iter()
        .filter_map(|s| match s {
            Step::CreateDir(d) => Some(d),
            _ => None,
        })
        .collect();
    assert_eq!(created, vec!["d"]);
    assert_eq!(steps.len(), 5);
    match &steps[0] {
        Step::CreateDir(d) => assert_eq!(d, "d"),
        other => panic!("unexpected step {:?}", other),
    }
    match &steps[1] {
        Step::Link(Link { source, destination }) => {
            assert_eq!(source, "x");
            assert_eq!(destination, "d/a");
        }
        other => panic!("unexpected step {:?}", other),
    }
}

#[test]
fn print_writes_to_the_output() {
    let mut facts = HostFacts::new();
    facts.record_variable("SHELL".to_string(), Some("/bin/zsh".to_string()));
    let mut interpreter = Interpreter::from_context(context("linux", "box", None));
    let steps = interpreter
        .run(nodes("print \"on $os\"\nprint hostname\nprint env \"SHELL\""), &facts)
        .unwrap();
    assert!(steps.is_empty());
    assert_eq!(
        interpreter.output(),
        &vec!["on linux".to_string(), "box".to_string(), "/bin/zsh".to_string()]
    );
}

#[test]
fn run_errors() {
    let mut facts = HostFacts::new();
    facts.record_variable("UNSET".to_string(), None);
    let mut interpreter = Interpreter::from_context(context("linux", "box", None));
    match interpreter.run(nodes("print nope"), &facts) {
        Err(RunError::UndefinedVariable(n)) => assert_eq!(n, "nope"),
        other => panic!("unexpected result {:?}", other),
    }
    match interpreter.run(nodes("do \"echo $nope\""), &facts) {
        Err(RunError::UndefinedInterpolation(n)) => assert_eq!(n, "nope"),
        other => panic!("unexpected result {:?}", other),
    }
    match interpreter.run(nodes("print env \"UNSET\""), &facts) {
        Err(RunError::EnvironmentVariableNotSet(n)) => assert_eq!(n, "UNSET"),
        other => panic!("unexpected result {:?}", other),
    }
    match interpreter.run(nodes("if \"a\" {}"), &facts) {
        Err(RunError::ExpectedCondition(n)) => {
            assert_eq!(n, Node::Literal(Value::String("a".to_string())))
        }
        other => panic!("unexpected result {:?}", other),
    }
    match interpreter.run(nodes("print test \"x\""), &facts) {
        Err(RunError::ExpectedValue(n)) => assert_eq!(n, Node::Test("x".to_string())),
        other => panic!("unexpected result {:?}", other),
    }
    match interpreter.run(vec![Node::Variable("v".to_string())], &facts) {
        Err(RunError::UnexpectedStatement(n)) => assert_eq!(n, Node::Variable("v".to_string())),
        other => panic!("unexpected result {:?}", other),
    }
}

#[test]
fn steps_from_nodes() {
    let link = Link {
        source: "a".to_string(),
        destination: "b".to_string(),
    };
    match Step::from(link) {
        Step::Link(l) => assert_eq!((l.source.as_str(), l.destination.as_str()), ("a", "b")),
        other => panic!("unexpected step {:?}", other),
    }
    let action = Action {
        command: "c".to_string(),
        shell: "sh".to_string(),
    };
    assert!(matches!(Step::from(action), Step::Action(_)));
    let made = Link::try_from(Node::Link {
        source: "s".to_string(),
        destination: "d".to_string(),
    })
    .unwrap();
    assert_eq!(made.destination, "d");
    match Link::try_from(Node::Env("x".to_string())) {
        Err(UnexpectedNode(n)) => assert_eq!(n, Node::Env("x".to_string())),
        Ok(_) => panic!("a link from an env node"),
    }
    let act = Action::try_from(Node::Do {
        command: "ls".to_string(),
        shell: "/bin/sh".to_string(),
    })
    .unwrap();
    assert_eq!(act.command, "ls");
    assert!(Action::try_from(Node::Env("x".to_string())).is_err());
}

#[test]
fn parents_of_plain_paths() {
    let mut facts = HostFacts::new();
    facts.learn_parent("");
    facts.learn_parent("ab/cd");
    facts.learn_parent("file.txt");
    facts.learn_parent("nested/deep/target.txt");
    assert_eq!(facts.parent(""), Some(None));
    assert_eq!(facts.parent("ab/cd"), Some(Some("ab".to_string())));
    assert_eq!(facts.parent("file.txt"), Some(Some(String::new())));
    assert_eq!(facts.parent("nested/deep/target.txt"), Some(Some("nested/deep".to_string())));
}

#[test]
fn no_directory_is_planned_twice_across_runs() {
    let mut facts = HostFacts::new();
    facts.learn_parent("d/a");
    facts.learn_parent("d/b");
    facts.record_path("d".to_string(), false);
    let mut interpreter = Interpreter::from_context(context("linux", "box", None));
    let first = interpreter.run(nodes("link \"x\" to \"d/a\""), &facts).unwrap();
    let second = interpreter.run(nodes("link \"y\" to \"d/b\""), &facts).unwrap();
    assert!(matches!(&first[0], Step::CreateDir(d) if d == "d"));
    assert_eq!(first.len(), 2);
    assert_eq!(second.len(), 1);
    assert!(matches!(&second[0], Step::Link(_)));
}

#[test]
fn interpolation_of_ascii_names() {
    let mut interpreter = Interpreter::from_context(context("linux", "box", None));
    interpreter.run(nodes("d = \"src\""), &HostFacts::new()).unwrap();
    assert_eq!(interpreter.interpolate("cd $d && make"), Ok("cd src && make".to_string()));
    assert_eq!(interpreter.interpolate("$os-x"), Ok("linux-x".to_string()));
    assert_eq!(interpreter.interpolate("$d_x"), Err("d_x".to_string()));
}

#[test]
fn parents_of_absolute_and_home_paths() {
    let mut facts = HostFacts::new();
    facts.learn_parent("/a/b");
    facts.learn_parent("/a");
    facts.learn_parent("/");
    facts.learn_parent("~/.ssh/config");
    assert_eq!(facts.parent("/a/b"), Some(Some("/a".to_string())));
    assert_eq!(facts.parent("/a"), Some(Some("/".to_string())));
    assert_eq!(facts.parent("/"), Some(None));
    assert_eq!(facts.parent("~/.ssh/config"), Some(Some("~/.ssh".to_string())));
}

#[test]
fn a_missing_parent_of_an_absolute_target_is_created_first() {
    let target = "/no_such_dir_here/nested/deep/target.txt";
    let mut facts = HostFacts::new();
    facts.learn_parent(target);
    facts.record_path("/no_such_dir_here/nested/deep".to_string(), false);
    let mut interpreter = Interpreter::from_context(context("linux", "box", None));
    let steps = interpreter
        .run(nodes(&format!("link \"/src/source.txt\" to \"{}\"", target)), &facts)
        .unwrap();
    assert_eq!(steps.len(), 2);
    assert!(matches!(&steps[0], Step::CreateDir(d) if d == "/no_such_dir_here/nested/deep"));
    assert!(matches!(&steps[1], Step::Link(Link { destination, .. }) if destination == target));
}
