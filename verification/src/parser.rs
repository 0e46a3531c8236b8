//! Builds the syntax tree of a dottyfile from its tokens.
use vstd::prelude::*;
use crate::lexer::{Lexer, Token, TokenList, TokenStream, TokenView, lex_all};
use crate::text::str_eq;

verus! {

/// The name of the variable that holds the operating system.
pub open spec fn os_name() -> Seq<char> {
    seq!['o', 's']
}

/// The name of the variable that holds the host name.
pub open spec fn hostname_name() -> Seq<char> {
    seq!['h', 'o', 's', 't', 'n', 'a', 'm', 'e']
}

/// The name of the variable that holds the selected profile.
pub open spec fn profile_name() -> Seq<char> {
    seq!['p', 'r', 'o', 'f', 'i', 'l', 'e']
}

/// The variables that the host sets and a dottyfile may not assign.
pub open spec fn is_special_variable(name: Seq<char>) -> bool {
    name == os_name() || name == hostname_name() || name == profile_name()
}

/// The shell that runs a `do` command when none is named.
pub open spec fn default_shell() -> Seq<char> {
    seq!['/', 'b', 'i', 'n', '/', 's', 'h']
}

/// A value of the language.
#[derive(Debug, PartialEq)]
pub enum Value {
    String(String),
}

impl View for Value {
    type V = Seq<char>;

    open spec fn view(&self) -> Seq<char> {
        match self {
            Value::String(s) => s@,
        }
    }
}

/// A node of the syntax tree.
#[derive(Debug, PartialEq)]
pub enum Node {
    Link { source: String, destination: String },
    Do { command: String, shell: String },
    If { condition: Box<Node>, true_branch: Vec<Node>, false_branch: Vec<Node> },
    Is { left: Box<Node>, right: Box<Node> },
    Or { left: Box<Node>, right: Box<Node> },
    And { left: Box<Node>, right: Box<Node> },
    Assign { variable: String, value: Value },
    Env(String),
    Not(Box<Node>),
    Exists(String),
    Test(String),
    Print(Box<Node>),
    Variable(String),
    Literal(Value),
}

/// The mathematical value of a syntax tree.
pub enum NodeView {
    Link { source: Seq<char>, destination: Seq<char> },
    Do { command: Seq<char>, shell: Seq<char> },
    If { condition: Box<NodeView>, true_branch: Seq<NodeView>, false_branch: Seq<NodeView> },
    Is { left: Box<NodeView>, right: Box<NodeView> },
    Or { left: Box<NodeView>, right: Box<NodeView> },
    And { left: Box<NodeView>, right: Box<NodeView> },
    Assign { variable: Seq<char>, value: Seq<char> },
    Env(Seq<char>),
    Not(Box<NodeView>),
    Exists(Seq<char>),
    Test(Seq<char>),
    Print(Box<NodeView>),
    Variable(Seq<char>),
    Literal(Seq<char>),
}

/// The values of a sequence of nodes.
pub open spec fn nodes_view(v: Seq<Node>) -> Seq<NodeView>
    decreases v,
{
    Seq::new(
        v.len(),
        |i: int|
            if 0 <= i < v.len() {
                v[i].view_node()
            } else {
                NodeView::Literal(Seq::empty())
            },
    )
}

impl Node {
    pub open spec fn view_node(self) -> NodeView
        decreases self,
    {
        match self {
            Node::Link { source, destination } => NodeView::Link {
                source: source@,
                destination: destination@,
            },
            Node::Do { command, shell } => NodeView::Do { command: command@, shell: shell@ },
            Node::If { condition, true_branch, false_branch } => NodeView::If {
                condition: Box::new(condition.view_node()),
                true_branch: nodes_view(true_branch@),
                false_branch: nodes_view(false_branch@),
            },
            Node::Is { left, right } => NodeView::Is {
                left: Box::new(left.view_node()),
                right: Box::new(right.view_node()),
            },
            Node::Or { left, right } => NodeView::Or {
                left: Box::new(left.view_node()),
                right: Box::new(right.view_node()),
            },
            Node::And { left, right } => NodeView::And {
                left: Box::new(left.view_node()),
                right: Box::new(right.view_node()),
            },
            Node::Assign { variable, value } => NodeView::Assign {
                variable: variable@,
                value: value@,
            },
            Node::Env(s) => NodeView::Env(s@),
            Node::Not(n) => NodeView::Not(Box::new(n.view_node())),
            Node::Exists(s) => NodeView::Exists(s@),
            Node::Test(s) => NodeView::Test(s@),
            Node::Print(n) => NodeView::Print(Box::new(n.view_node())),
            Node::Variable(s) => NodeView::Variable(s@),
            Node::Literal(v) => NodeView::Literal(v@),
        }
    }
}

impl View for Node {
    type V = NodeView;

    open spec fn view(&self) -> NodeView {
        self.view_node()
    }
}

pub proof fn lemma_nodes_view_push(v: Seq<Node>, n: Node)
    ensures
        nodes_view(v.push(n)) == nodes_view(v).push(n@),
{
    assert(nodes_view(v.push(n)) =~= nodes_view(v).push(n@));
}

pub proof fn lemma_nodes_view_empty()
    ensures
        nodes_view(Seq::<Node>::empty()) == Seq::<NodeView>::empty(),
{
    assert(nodes_view(Seq::<Node>::empty()) =~= Seq::<NodeView>::empty());
}

/// Why a dottyfile does not parse. `line` is the line of the token at hand.
#[derive(Debug)]
#[allow(inconsistent_fields)]
pub enum ParseError {
    /// A token that cannot start a statement.
    UnexpectedToken { line: usize, token: Token },
    /// A token that cannot start a statement inside a block.
    UnexpectedTokenInBlock { line: usize, token: Token },
    /// A token other than the one the grammar asks for, or the end of the text (`None`).
    ExpectedToken { line: usize, expected: Token, found: Option<Token> },
    /// No value where a value belongs.
    ExpectedValue { line: usize, found: Option<Token> },
    /// No string where a string belongs.
    ExpectedString { line: usize, found: Option<Token> },
    /// The source of a link is not a string.
    LinkSourceNotString { line: usize, found: Node },
    /// The destination of a link is not a string.
    LinkDestinationNotString { line: usize, found: Node },
    /// An assignment to `os`, `hostname` or `profile`.
    AssignToSpecialVariable { line: usize, name: String },
}

/// The mathematical value of a parse error.
#[allow(inconsistent_fields)]
pub enum ParseErrorView {
    UnexpectedToken { line: int, token: TokenView },
    UnexpectedTokenInBlock { line: int, token: TokenView },
    ExpectedToken { line: int, expected: TokenView, found: Option<TokenView> },
    ExpectedValue { line: int, found: Option<TokenView> },
    ExpectedString { line: int, found: Option<TokenView> },
    LinkSourceNotString { line: int, found: NodeView },
    LinkDestinationNotString { line: int, found: NodeView },
    AssignToSpecialVariable { line: int, name: Seq<char> },
}

pub open spec fn token_option_view(t: Option<Token>) -> Option<TokenView> {
    match t {
        Some(t) => Some(t@),
        None => None,
    }
}

impl View for ParseError {
    type V = ParseErrorView;

    open spec fn view(&self) -> ParseErrorView {
        match self {
            ParseError::UnexpectedToken { line, token } => ParseErrorView::UnexpectedToken {
                line: *line as int,
                token: token@,
            },
            ParseError::UnexpectedTokenInBlock { line, token } =>
                ParseErrorView::UnexpectedTokenInBlock { line: *line as int, token: token@ },
            ParseError::ExpectedToken { line, expected, found } => ParseErrorView::ExpectedToken {
                line: *line as int,
                expected: expected@,
                found: token_option_view(*found),
            },
            ParseError::ExpectedValue { line, found } => ParseErrorView::ExpectedValue {
                line: *line as int,
                found: token_option_view(*found),
            },
            ParseError::ExpectedString { line, found } => ParseErrorView::ExpectedString {
                line: *line as int,
                found: token_option_view(*found),
            },
            ParseError::LinkSourceNotString { line, found } =>
                ParseErrorView::LinkSourceNotString { line: *line as int, found: found@ },
            ParseError::LinkDestinationNotString { line, found } =>
                ParseErrorView::LinkDestinationNotString { line: *line as int, found: found@ },
            ParseError::AssignToSpecialVariable { line, name } =>
                ParseErrorView::AssignToSpecialVariable { line: *line as int, name: name@ },
        }
    }
}

/// The state of the parser: the token at hand and its line, the tokens still to come,
/// whether the stream then stops short, and whether the parser has asked for a token at
/// such a point.
#[verifier::ext_equal]
pub struct ParseState {
    pub current: Option<TokenView>,
    pub line: int,
    pub pending: Seq<(TokenView, int)>,
    pub halts: bool,
    pub stalled: bool,
}

/// How many tokens are left, counting the one at hand.
pub open spec fn remaining(s: ParseState) -> nat {
    s.pending.len() + if s.current is Some { 1nat } else { 0nat }
}

/// Moving on to the next token. At the end the line stays where it was.
pub open spec fn consume(s: ParseState) -> ParseState {
    if s.pending.len() > 0 {
        ParseState {
            current: Some(s.pending[0].0),
            line: s.pending[0].1,
            pending: s.pending.drop_first(),
            ..s
        }
    } else {
        ParseState { current: None, stalled: s.stalled || s.halts, ..s }
    }
}

/// Whether two tokens are of the same kind (strings and identifiers of any text count
/// as one kind each).
pub open spec fn same_kind(t: TokenView, e: TokenView) -> bool {
    match (t, e) {
        (TokenView::String(_), TokenView::String(_)) => true,
        (TokenView::Identifier(_), TokenView::Identifier(_)) => true,
        _ => t == e,
    }
}

pub open spec fn expect_token(s: ParseState, expected: TokenView) -> (Result<(), ParseErrorView>, ParseState) {
    match s.current {
        Some(t) => if same_kind(t, expected) {
            (Ok(()), consume(s))
        } else {
            (Err(ParseErrorView::ExpectedToken { line: s.line, expected, found: Some(t) }), s)
        },
        None => (Err(ParseErrorView::ExpectedToken { line: s.line, expected, found: None }), s),
    }
}

pub open spec fn expect_string(s: ParseState) -> (Result<Seq<char>, ParseErrorView>, ParseState) {
    match s.current {
        Some(TokenView::String(v)) => (Ok(v), consume(s)),
        _ => (Err(ParseErrorView::ExpectedString { line: s.line, found: s.current }), s),
    }
}

/// A single value: `env "NAME"`, `test "cmd"`, `exists "path"`, a string or a variable.
pub open spec fn parse_atom(s: ParseState) -> (Result<NodeView, ParseErrorView>, ParseState) {
    match s.current {
        None => (Err(ParseErrorView::ExpectedValue { line: s.line, found: None }), s),
        Some(t) => match t {
            TokenView::Env => match expect_string(consume(s)) {
                (Ok(v), s2) => (Ok(NodeView::Env(v)), s2),
                (Err(e), s2) => (Err(e), s2),
            },
            TokenView::Test => match expect_string(consume(s)) {
                (Ok(v), s2) => (Ok(NodeView::Test(v)), s2),
                (Err(e), s2) => (Err(e), s2),
            },
            TokenView::Exists => match expect_string(consume(s)) {
                (Ok(v), s2) => (Ok(NodeView::Exists(v)), s2),
                (Err(e), s2) => (Err(e), s2),
            },
            TokenView::String(v) => (Ok(NodeView::Literal(v)), consume(s)),
            TokenView::Identifier(n) => (Ok(NodeView::Variable(n)), consume(s)),
            _ => (Err(ParseErrorView::ExpectedValue { line: s.line, found: Some(t) }), s),
        },
    }
}

/// `not ATOM`, `ATOM is ATOM`, `ATOM is not ATOM`, or an atom alone.
pub open spec fn parse_comparison(s: ParseState) -> (Result<NodeView, ParseErrorView>, ParseState) {
    if s.current == Some(TokenView::Not) {
        match parse_atom(consume(s)) {
            (Ok(n), s2) => (Ok(NodeView::Not(Box::new(n))), s2),
            (Err(e), s2) => (Err(e), s2),
        }
    } else {
        match parse_atom(s) {
            (Err(e), s1) => (Err(e), s1),
            (Ok(left), s1) => if s1.current == Some(TokenView::Is) {
                match parse_atom(consume(s1)) {
                    (Ok(right), s3) => (Ok(NodeView::Is { left: Box::new(left), right: Box::new(right) }), s3),
                    (Err(e), s3) => (Err(e), s3),
                }
            } else if s1.current == Some(TokenView::IsNot) {
                match parse_atom(consume(s1)) {
                    (Ok(right), s3) => (Ok(NodeView::Not(Box::new(NodeView::Is { left: Box::new(left), right: Box::new(right) }))), s3),
                    (Err(e), s3) => (Err(e), s3),
                }
            } else {
                (Ok(left), s1)
            },
        }
    }
}

pub proof fn lemma_consume(s: ParseState)
    ensures
        remaining(consume(s)) <= remaining(s),
        s.current is Some ==> remaining(consume(s)) < remaining(s),
{
}

pub proof fn lemma_atom(s: ParseState)
    ensures
        remaining(parse_atom(s).1) <= remaining(s),
        parse_atom(s).0 is Ok ==> remaining(parse_atom(s).1) < remaining(s),
{
    lemma_consume(s);
    lemma_consume(consume(s));
}

pub proof fn lemma_comparison(s: ParseState)
    ensures
        remaining(parse_comparison(s).1) <= remaining(s),
        parse_comparison(s).0 is Ok ==> remaining(parse_comparison(s).1) < remaining(s),
{
    lemma_consume(s);
    lemma_atom(s);
    lemma_atom(consume(s));
    let s1 = parse_atom(s).1;
    lemma_consume(s1);
    lemma_atom(consume(s1));
}

/// Comparisons joined by `or` and `and`, grouped to the right: `a or b and c` reads as
/// `a or (b and c)`.
pub open spec fn parse_condition(s: ParseState) -> (Result<NodeView, ParseErrorView>, ParseState)
    decreases remaining(s),
{
    match parse_comparison(s) {
        (Err(e), s1) => (Err(e), s1),
        (Ok(left), s1) => {
            proof {
                lemma_comparison(s);
                lemma_consume(s1);
            }
            if s1.current == Some(TokenView::Or) {
                match parse_condition(consume(s1)) {
                    (Ok(right), s3) => (Ok(NodeView::Or { left: Box::new(left), right: Box::new(right) }), s3),
                    (Err(e), s3) => (Err(e), s3),
                }
            } else if s1.current == Some(TokenView::And) {
                match parse_condition(consume(s1)) {
                    (Ok(right), s3) => (Ok(NodeView::And { left: Box::new(left), right: Box::new(right) }), s3),
                    (Err(e), s3) => (Err(e), s3),
                }
            } else {
                (Ok(left), s1)
            }
        },
    }
}

pub proof fn lemma_condition(s: ParseState)
    ensures
        remaining(parse_condition(s).1) <= remaining(s),
        parse_condition(s).0 is Ok ==> remaining(parse_condition(s).1) < remaining(s),
    decreases remaining(s),
{
    lemma_comparison(s);
    let s1 = parse_comparison(s).1;
    lemma_consume(s1);
    if parse_comparison(s).0 is Ok && (s1.current == Some(TokenView::Or) || s1.current == Some(TokenView::And)) {
        lemma_condition(consume(s1));
    }
}

} // verus!

verus! {

/// `link SOURCE to DESTINATION`, both strings.
pub open spec fn parse_link(s: ParseState) -> (Result<NodeView, ParseErrorView>, ParseState) {
    let line = s.line;
    match parse_atom(consume(s)) {
        (Err(e), s2) => (Err(e), s2),
        (Ok(NodeView::Literal(source)), s2) => match expect_token(s2, TokenView::To) {
            (Err(e), s3) => (Err(e), s3),
            (Ok(_), s3) => match parse_atom(s3) {
                (Err(e), s4) => (Err(e), s4),
                (Ok(NodeView::Literal(destination)), s4) => (Ok(NodeView::Link { source, destination }), s4),
                (Ok(found), s4) => (Err(ParseErrorView::LinkDestinationNotString { line, found }), s4),
            },
        },
        (Ok(found), s2) => (Err(ParseErrorView::LinkSourceNotString { line, found }), s2),
    }
}

/// `do COMMAND`, run by the default shell, or `do SHELL COMMAND`.
pub open spec fn parse_do(s: ParseState) -> (Result<NodeView, ParseErrorView>, ParseState) {
    match expect_string(consume(s)) {
        (Err(e), s2) => (Err(e), s2),
        (Ok(first), s2) => match expect_string(s2) {
            (Ok(command), s3) => (Ok(NodeView::Do { command, shell: first }), s3),
            (Err(_), s3) => (Ok(NodeView::Do { command: first, shell: default_shell() }), s3),
        },
    }
}

/// `print ATOM`.
pub open spec fn parse_print(s: ParseState) -> (Result<NodeView, ParseErrorView>, ParseState) {
    match parse_atom(consume(s)) {
        (Ok(n), s2) => (Ok(NodeView::Print(Box::new(n))), s2),
        (Err(e), s2) => (Err(e), s2),
    }
}

/// `NAME = STRING`, where the token at hand is the identifier `name`.
pub open spec fn parse_assignment(s: ParseState, name: Seq<char>) -> (Result<NodeView, ParseErrorView>, ParseState) {
    if is_special_variable(name) {
        (Err(ParseErrorView::AssignToSpecialVariable { line: s.line, name }), s)
    } else {
        match expect_token(consume(s), TokenView::Assign) {
            (Err(e), s2) => (Err(e), s2),
            (Ok(_), s2) => match expect_string(s2) {
                (Ok(value), s3) => (Ok(NodeView::Assign { variable: name, value }), s3),
                (Err(e), s3) => (Err(e), s3),
            },
        }
    }
}

/// Whether a token starts a statement.
pub open spec fn starts_statement(t: TokenView) -> bool {
    match t {
        TokenView::Link | TokenView::Do | TokenView::If | TokenView::Print | TokenView::Identifier(_) => true,
        _ => false,
    }
}

/// One statement, chosen by the token at hand.
pub open spec fn parse_statement(s: ParseState) -> (Result<NodeView, ParseErrorView>, ParseState)
    decreases remaining(s), 2nat,
{
    match s.current {
        Some(TokenView::Link) => parse_link(s),
        Some(TokenView::Do) => parse_do(s),
        Some(TokenView::If) => parse_if(s),
        Some(TokenView::Print) => parse_print(s),
        Some(TokenView::Identifier(name)) => parse_assignment(s, name),
        Some(t) => (Err(ParseErrorView::UnexpectedToken { line: s.line, token: t }), s),
        None => (Err(ParseErrorView::ExpectedValue { line: s.line, found: None }), s),
    }
}

/// `if CONDITION { ... }`, with an optional `else { ... }`.
pub open spec fn parse_if(s: ParseState) -> (Result<NodeView, ParseErrorView>, ParseState)
    decreases remaining(s), 1nat,
{
    let s1 = consume(s);
    match parse_condition(s1) {
        (Err(e), s2) => (Err(e), s2),
        (Ok(condition), s2) => {
            proof {
                lemma_consume(s);
                lemma_condition(s1);
            }
            match parse_block(s2) {
                (Err(e), s3) => (Err(e), s3),
                (Ok(true_branch), s3) => if s3.current == Some(TokenView::Else) {
                    let s4 = consume(s3);
                    if remaining(s4) < remaining(s) {
                        match parse_block(s4) {
                            (Err(e), s5) => (Err(e), s5),
                            (Ok(false_branch), s5) => (Ok(NodeView::If {
                                condition: Box::new(condition),
                                true_branch,
                                false_branch,
                            }), s5),
                        }
                    } else {
                        (Ok(NodeView::If { condition: Box::new(condition), true_branch, false_branch: Seq::empty() }), s4)
                    }
                } else {
                    (Ok(NodeView::If {
                        condition: Box::new(condition),
                        true_branch,
                        false_branch: Seq::empty(),
                    }), s3)
                },
            }
        },
    }
}

/// `{` then statements up to the matching `}` (or to the end of the tokens).
pub open spec fn parse_block(s: ParseState) -> (Result<Seq<NodeView>, ParseErrorView>, ParseState)
    decreases remaining(s), 0nat,
{
    match expect_token(s, TokenView::LeftBrace) {
        (Err(e), s1) => (Err(e), s1),
        (Ok(_), s1) => {
            proof {
                lemma_consume(s);
            }
            parse_block_items(s1, Seq::empty())
        },
    }
}

/// The statements of a block after its `{`, added to `done`.
pub open spec fn parse_block_items(s: ParseState, done: Seq<NodeView>) -> (Result<Seq<NodeView>, ParseErrorView>, ParseState)
    decreases remaining(s), 3nat,
{
    match s.current {
        None => (Ok(done), s),
        Some(TokenView::RightBrace) => (Ok(done), consume(s)),
        Some(t) => if starts_statement(t) {
            match parse_statement(s) {
                (Err(e), s1) => (Err(e), s1),
                (Ok(n), s1) => if remaining(s1) < remaining(s) {
                    parse_block_items(s1, done.push(n))
                } else {
                    (Ok(done.push(n)), s1)
                },
            }
        } else {
            (Err(ParseErrorView::UnexpectedTokenInBlock { line: s.line, token: t }), s)
        },
    }
}

pub proof fn lemma_statement_group(s: ParseState, done: Seq<NodeView>)
    ensures
        remaining(parse_statement(s).1) <= remaining(s),
        parse_statement(s).0 is Ok ==> remaining(parse_statement(s).1) < remaining(s),
        remaining(parse_if(s).1) <= remaining(s),
        parse_if(s).0 is Ok ==> remaining(parse_if(s).1) < remaining(s),
        remaining(parse_block(s).1) <= remaining(s),
        parse_block(s).0 is Ok ==> remaining(parse_block(s).1) < remaining(s),
        remaining(parse_block_items(s, done).1) <= remaining(s),
    decreases remaining(s),
{
    lemma_consume(s);
    lemma_atom(consume(s));
    lemma_consume(consume(s));
    lemma_condition(consume(s));
    let a2 = parse_atom(consume(s)).1;
    lemma_consume(a2);
    lemma_atom(consume(a2));
    let e2 = expect_string(consume(s)).1;
    lemma_consume(e2);
    let c2 = parse_condition(consume(s)).1;
    if remaining(c2) < remaining(s) {
        lemma_statement_group(c2, done);
        let b3 = parse_block(c2).1;
        lemma_consume(b3);
        if remaining(consume(b3)) < remaining(s) {
            lemma_statement_group(consume(b3), done);
        }
    }
    let x1 = expect_token(s, TokenView::LeftBrace).1;
    if remaining(x1) < remaining(s) {
        lemma_statement_group(x1, Seq::empty());
    }
    let st1 = parse_statement(s).1;
    if remaining(st1) < remaining(s) {
        lemma_statement_group(st1, done.push(parse_statement(s).0->Ok_0));
    }
}

/// The guard on the `else` block in `parse_if` always holds: the `else` that follows a
/// parsed block stands later in the stream than the `if`. (The guard is there because
/// termination cannot use what `parse_block` is proved to do; it never decides a result.)
pub proof fn lemma_else_guard_holds(s: ParseState)
    ensures
        ({
            let s2 = parse_condition(consume(s)).1;
            let s3 = parse_block(s2).1;
            parse_condition(consume(s)).0 is Ok && s3.current == Some(TokenView::Else)
                ==> remaining(consume(s3)) < remaining(s)
        }),
{
    lemma_consume(s);
    lemma_condition(consume(s));
    let s2 = parse_condition(consume(s)).1;
    lemma_statement_group(s2, Seq::empty());
    lemma_consume(parse_block(s2).1);
}

} // verus!

verus! {

/// The statements up to the end of the tokens, added to `done`.
pub open spec fn parse_items(s: ParseState, done: Seq<NodeView>) -> (Result<Seq<NodeView>, ParseErrorView>, ParseState)
    decreases remaining(s),
{
    match s.current {
        None => (Ok(done), s),
        Some(_) => match parse_statement(s) {
            (Err(e), s1) => (Err(e), s1),
            (Ok(n), s1) => {
                proof {
                    lemma_statement_group(s, done);
                }
                parse_items(s1, done.push(n))
            },
        },
    }
}

/// A parse that succeeds ends with no token at hand, and a statement that cannot start
/// with the token at hand is refused at once.
pub proof fn lemma_parse_items_ends(s: ParseState, done: Seq<NodeView>)
    ensures
        parse_items(s, done).0 is Ok ==> parse_items(s, done).1.current is None,
        s.current matches Some(t) ==> !starts_statement(t)
            ==> parse_items(s, done).0 == Err::<Seq<NodeView>, ParseErrorView>(ParseErrorView::UnexpectedToken { line: s.line, token: t }),
    decreases remaining(s),
{
    if s.current is Some {
        lemma_statement_group(s, done);
        if let (Ok(n), s1) = parse_statement(s) {
            lemma_parse_items_ends(s1, done.push(n));
        }
    }
}

/// A number for each kind of token; strings share one, identifiers another.
pub open spec fn kind_code(t: TokenView) -> u8 {
    match t {
        TokenView::Link => 0,
        TokenView::To => 1,
        TokenView::Is => 2,
        TokenView::IsNot => 3,
        TokenView::Or => 4,
        TokenView::And => 5,
        TokenView::LeftBrace => 6,
        TokenView::RightBrace => 7,
        TokenView::Env => 8,
        TokenView::If => 9,
        TokenView::Else => 10,
        TokenView::ElseIf => 11,
        TokenView::Exists => 12,
        TokenView::Do => 13,
        TokenView::Assign => 14,
        TokenView::Not => 15,
        TokenView::Test => 16,
        TokenView::Print => 17,
        TokenView::Clone => 18,
        TokenView::Copy => 19,
        TokenView::Chmod => 20,
        TokenView::String(_) => 21,
        TokenView::Identifier(_) => 22,
    }
}

fn token_kind(t: &Token) -> (r: u8)
    ensures
        r == kind_code(t@),
{
    match t {
        Token::Link => 0,
        Token::To => 1,
        Token::Is => 2,
        Token::IsNot => 3,
        Token::Or => 4,
        Token::And => 5,
        Token::LeftBrace => 6,
        Token::RightBrace => 7,
        Token::Env => 8,
        Token::If => 9,
        Token::Else => 10,
        Token::ElseIf => 11,
        Token::Exists => 12,
        Token::Do => 13,
        Token::Assign => 14,
        Token::Not => 15,
        Token::Test => 16,
        Token::Print => 17,
        Token::Clone => 18,
        Token::Copy => 19,
        Token::Chmod => 20,
        Token::String(_) => 21,
        Token::Identifier(_) => 22,
    }
}

pub proof fn lemma_kind_code(t: TokenView, e: TokenView)
    ensures
        same_kind(t, e) == (kind_code(t) == kind_code(e)),
{
}

/// A copy of a token.
pub fn copy_token(t: &Token) -> (r: Token)
    ensures
        r@ == t@,
{
    match t {
        Token::Link => Token::Link,
        Token::To => Token::To,
        Token::Is => Token::Is,
        Token::IsNot => Token::IsNot,
        Token::Or => Token::Or,
        Token::And => Token::And,
        Token::LeftBrace => Token::LeftBrace,
        Token::RightBrace => Token::RightBrace,
        Token::Env => Token::Env,
        Token::If => Token::If,
        Token::Else => Token::Else,
        Token::ElseIf => Token::ElseIf,
        Token::Exists => Token::Exists,
        Token::Do => Token::Do,
        Token::Assign => Token::Assign,
        Token::Not => Token::Not,
        Token::Test => Token::Test,
        Token::Print => Token::Print,
        Token::Clone => Token::Clone,
        Token::Copy => Token::Copy,
        Token::Chmod => Token::Chmod,
        Token::String(s) => Token::String(s.clone()),
        Token::Identifier(s) => Token::Identifier(s.clone()),
    }
}

fn copy_token_option(t: &Option<Token>) -> (r: Option<Token>)
    ensures
        token_option_view(r) == token_option_view(*t),
{
    match t {
        Some(t) => Some(copy_token(t)),
        None => None,
    }
}

/// Parses a dottyfile from a stream of tokens.
pub struct Parser<TS: TokenStream> {
    token_stream: TS,
    current_token: Option<Token>,
    current_line: usize,
}

/// The state before the first token is read, with `line` as the line to report when
/// there is no token at all.
pub open spec fn before_start(pending: Seq<(TokenView, int)>, halts: bool, stalled: bool, line: int) -> ParseState {
    ParseState { current: None, line, pending, halts, stalled }
}

/// The parser's state once it has read the first token of `source`.
pub open spec fn source_start(source: Seq<char>) -> ParseState {
    consume(before_start(lex_all(source, 0, 1).0, lex_all(source, 0, 1).1, false, 1))
}

impl<TS: TokenStream> Parser<TS> {
    pub closed spec fn state(&self) -> ParseState {
        ParseState {
            current: token_option_view(self.current_token),
            line: self.current_line as int,
            pending: self.token_stream.pending(),
            halts: self.token_stream.halts_abruptly(),
            stalled: self.token_stream.stalled(),
        }
    }

    pub closed spec fn well_formed(&self) -> bool {
        self.token_stream.well_formed()
    }

    /// A parser over `stream`, at its first token; line 0 when there is none.
    pub fn from_stream(stream: TS) -> (r: Self)
        requires
            stream.well_formed(),
        ensures
            r.well_formed(),
            r.state() == consume(before_start(stream.pending(), stream.halts_abruptly(), stream.stalled(), 0)),
    {
        let mut stream = stream;
        let ghost old_pending = stream.pending();
        let ghost halts = stream.halts_abruptly();
        let ghost stalled = stream.stalled();
        match stream.next_token() {
            Some((t, l)) => Parser { token_stream: stream, current_token: Some(t), current_line: l },
            None => {
                let r = Parser { token_stream: stream, current_token: None, current_line: 0 };
                proof {
                    assert(r.state().pending =~= before_start(old_pending, halts, stalled, 0).pending);
                }
                r
            },
        }
    }

    fn consume(&mut self)
        requires
            old(self).well_formed(),
        ensures
            final(self).well_formed(),
            final(self).state() == consume(old(self).state()),
    {
        match self.token_stream.next_token() {
            Some((t, l)) => {
                self.current_token = Some(t);
                self.current_line = l;
            },
            None => {
                self.current_token = None;
                proof {
                    assert(self.token_stream.pending() =~= old(self).token_stream.pending());
                }
            },
        }
    }

    fn expect_token(&mut self, expected: Token) -> (r: Result<(), ParseError>)
        requires
            old(self).well_formed(),
        ensures
            final(self).well_formed(),
            match expect_token(old(self).state(), expected@) {
                (Ok(_), st) => r is Ok && final(self).state() == st,
                (Err(e), st) => r matches Err(er) && er@ == e && final(self).state() == st,
            },
    {
        match &self.current_token {
            Some(token) => {
                proof {
                    lemma_kind_code(token@, expected@);
                }
                if token_kind(token) == token_kind(&expected) {
                    self.consume();
                    Ok(())
                } else {
                    Err(ParseError::ExpectedToken { line: self.current_line, expected, found: Some(copy_token(token)) })
                }
            },
            None => Err(ParseError::ExpectedToken { line: self.current_line, expected, found: None }),
        }
    }

    fn expect_string(&mut self) -> (r: Result<String, ParseError>)
        requires
            old(self).well_formed(),
        ensures
            final(self).well_formed(),
            match expect_string(old(self).state()) {
                (Ok(v), st) => r matches Ok(s) && s@ == v && final(self).state() == st,
                (Err(e), st) => r matches Err(er) && er@ == e && final(self).state() == st,
            },
    {
        if let Some(Token::String(value)) = &self.current_token {
            let value = value.clone();
            self.consume();
            Ok(value)
        } else {
            Err(ParseError::ExpectedString { line: self.current_line, found: copy_token_option(&self.current_token) })
        }
    }

    /// The string at hand, consumed, if the token at hand is one.
    fn optionally_expect_string(&mut self) -> (r: Option<String>)
        requires
            old(self).well_formed(),
        ensures
            final(self).well_formed(),
            final(self).state() == expect_string(old(self).state()).1,
            match expect_string(old(self).state()).0 {
                Ok(v) => r matches Some(s) && s@ == v,
                Err(_) => r is None,
            },
    {
        match self.expect_string() {
            Ok(s) => Some(s),
            Err(_) => None,
        }
    }
}

} // verus!

verus! {

/// Whether an executable result is the one a spec result describes.
pub open spec fn node_result_is(r: Result<Node, ParseError>, spec: Result<NodeView, ParseErrorView>) -> bool {
    match spec {
        Ok(n) => r matches Ok(x) && x@ == n,
        Err(e) => r matches Err(x) && x@ == e,
    }
}

/// Whether an executable result is the one a spec result describes.
pub open spec fn nodes_result_is(r: Result<Vec<Node>, ParseError>, spec: Result<Seq<NodeView>, ParseErrorView>) -> bool {
    match spec {
        Ok(ns) => r matches Ok(x) && nodes_view(x@) == ns,
        Err(e) => r matches Err(x) && x@ == e,
    }
}

impl<TS: TokenStream> Parser<TS> {
    fn parse_atom(&mut self) -> (r: Result<Node, ParseError>)
        requires
            old(self).well_formed(),
        ensures
            final(self).well_formed(),
            node_result_is(r, parse_atom(old(self).state()).0),
            final(self).state() == parse_atom(old(self).state()).1,
    {
        let line = self.current_line;
        match &self.current_token {
            None => Err(ParseError::ExpectedValue { line, found: None }),
            Some(Token::Env) => {
                self.consume();
                match self.expect_string() {
                    Ok(v) => Ok(Node::Env(v)),
                    Err(e) => Err(e),
                }
            },
            Some(Token::Test) => {
                self.consume();
                match self.expect_string() {
                    Ok(v) => Ok(Node::Test(v)),
                    Err(e) => Err(e),
                }
            },
            Some(Token::Exists) => {
                self.consume();
                match self.expect_string() {
                    Ok(v) => Ok(Node::Exists(v)),
                    Err(e) => Err(e),
                }
            },
            Some(Token::String(value)) => {
                let value = value.clone();
                self.consume();
                Ok(Node::Literal(Value::String(value)))
            },
            Some(Token::Identifier(name)) => {
                let name = name.clone();
                self.consume();
                Ok(Node::Variable(name))
            },
            Some(token) => Err(ParseError::ExpectedValue { line, found: Some(copy_token(token)) }),
        }
    }

    fn current_is(&self, kind: u8) -> (r: bool)
        ensures
            r == (self.state().current matches Some(t) && kind_code(t) == kind),
    {
        match &self.current_token {
            Some(t) => token_kind(t) == kind,
            None => false,
        }
    }

    fn parse_comparison(&mut self) -> (r: Result<Node, ParseError>)
        requires
            old(self).well_formed(),
        ensures
            final(self).well_formed(),
            node_result_is(r, parse_comparison(old(self).state()).0),
            final(self).state() == parse_comparison(old(self).state()).1,
    {
        if self.current_is(15) {
            self.consume();
            return match self.parse_atom() {
                Ok(inner) => Ok(Node::Not(Box::new(inner))),
                Err(e) => Err(e),
            };
        }
        let left = match self.parse_atom() {
            Ok(left) => left,
            Err(e) => return Err(e),
        };
        if self.current_is(2) {
            self.consume();
            match self.parse_atom() {
                Ok(right) => Ok(Node::Is { left: Box::new(left), right: Box::new(right) }),
                Err(e) => Err(e),
            }
        } else if self.current_is(3) {
            self.consume();
            match self.parse_atom() {
                Ok(right) => {
                    let is = Node::Is { left: Box::new(left), right: Box::new(right) };
                    assert(is@ == NodeView::Is { left: Box::new(left@), right: Box::new(right@) });
                    Ok(Node::Not(Box::new(is)))
                },
                Err(e) => Err(e),
            }
        } else {
            Ok(left)
        }
    }

    fn parse_condition(&mut self) -> (r: Result<Node, ParseError>)
        requires
            old(self).well_formed(),
        ensures
            final(self).well_formed(),
            node_result_is(r, parse_condition(old(self).state()).0),
            final(self).state() == parse_condition(old(self).state()).1,
        decreases remaining(old(self).state()),
    {
        let ghost s0 = self.state();
        proof {
            lemma_comparison(s0);
        }
        let left = match self.parse_comparison() {
            Ok(left) => left,
            Err(e) => return Err(e),
        };
        proof {
            lemma_consume(self.state());
        }
        if self.current_is(4) {
            self.consume();
            match self.parse_condition() {
                Ok(right) => Ok(Node::Or { left: Box::new(left), right: Box::new(right) }),
                Err(e) => Err(e),
            }
        } else if self.current_is(5) {
            self.consume();
            match self.parse_condition() {
                Ok(right) => Ok(Node::And { left: Box::new(left), right: Box::new(right) }),
                Err(e) => Err(e),
            }
        } else {
            Ok(left)
        }
    }
}

} // verus!

verus! {

/// The shell that runs a `do` command when none is named.
pub const DEFAULT_SHELL: &'static str = "/bin/sh";

/// The name of the variable that holds the operating system.
pub const OS: &'static str = "os";

/// The name of the variable that holds the host name.
pub const HOSTNAME: &'static str = "hostname";

/// The name of the variable that holds the selected profile.
pub const PROFILE: &'static str = "profile";

/// Whether `name` is one of the variables the host sets.
fn is_special(name: &String) -> (r: bool)
    ensures
        r == is_special_variable(name@),
{
    proof {
        reveal_strlit("os");
        reveal_strlit("hostname");
        reveal_strlit("profile");
        assert(OS@ =~= os_name());
        assert(HOSTNAME@ =~= hostname_name());
        assert(PROFILE@ =~= profile_name());
    }
    str_eq(name.as_str(), OS) || str_eq(name.as_str(), HOSTNAME) || str_eq(name.as_str(), PROFILE)
}

/// The default shell as a string.
fn default_shell_string() -> (r: String)
    ensures
        r@ == default_shell(),
{
    proof {
        reveal_strlit("/bin/sh");
    }
    let r = DEFAULT_SHELL.to_owned();
    assert(r@ =~= default_shell());
    r
}

impl<TS: TokenStream> Parser<TS> {
    fn handle_link(&mut self) -> (r: Result<Node, ParseError>)
        requires
            old(self).well_formed(),
        ensures
            final(self).well_formed(),
            node_result_is(r, parse_link(old(self).state()).0),
            final(self).state() == parse_link(old(self).state()).1,
    {
        let line = self.current_line;
        self.consume();
        let source = match self.parse_atom() {
            Ok(Node::Literal(Value::String(source))) => source,
            Ok(found) => return Err(ParseError::LinkSourceNotString { line, found }),
            Err(e) => return Err(e),
        };
        match self.expect_token(Token::To) {
            Ok(()) => {},
            Err(e) => return Err(e),
        }
        let destination = match self.parse_atom() {
            Ok(Node::Literal(Value::String(destination))) => destination,
            Ok(found) => return Err(ParseError::LinkDestinationNotString { line, found }),
            Err(e) => return Err(e),
        };
        Ok(Node::Link { source, destination })
    }

    fn handle_do(&mut self) -> (r: Result<Node, ParseError>)
        requires
            old(self).well_formed(),
        ensures
            final(self).well_formed(),
            node_result_is(r, parse_do(old(self).state()).0),
            final(self).state() == parse_do(old(self).state()).1,
    {
        self.consume();
        let first = match self.expect_string() {
            Ok(first) => first,
            Err(e) => return Err(e),
        };
        match self.optionally_expect_string() {
            Some(command) => Ok(Node::Do { command, shell: first }),
            None => Ok(Node::Do { command: first, shell: default_shell_string() }),
        }
    }

    fn handle_print(&mut self) -> (r: Result<Node, ParseError>)
        requires
            old(self).well_formed(),
        ensures
            final(self).well_formed(),
            node_result_is(r, parse_print(old(self).state()).0),
            final(self).state() == parse_print(old(self).state()).1,
    {
        self.consume();
        match self.parse_atom() {
            Ok(expr) => Ok(Node::Print(Box::new(expr))),
            Err(e) => Err(e),
        }
    }

    fn handle_assignment(&mut self, variable: String) -> (r: Result<Node, ParseError>)
        requires
            old(self).well_formed(),
        ensures
            final(self).well_formed(),
            node_result_is(r, parse_assignment(old(self).state(), variable@).0),
            final(self).state() == parse_assignment(old(self).state(), variable@).1,
    {
        let line = self.current_line;
        if is_special(&variable) {
            return Err(ParseError::AssignToSpecialVariable { line, name: variable });
        }
        self.consume();
        match self.expect_token(Token::Assign) {
            Ok(()) => {},
            Err(e) => return Err(e),
        }
        match self.expect_string() {
            Ok(value) => Ok(Node::Assign { variable, value: Value::String(value) }),
            Err(e) => Err(e),
        }
    }
}

} // verus!

verus! {

impl<TS: TokenStream> Parser<TS> {
    fn statement(&mut self) -> (r: Result<Node, ParseError>)
        requires
            old(self).well_formed(),
        ensures
            final(self).well_formed(),
            node_result_is(r, parse_statement(old(self).state()).0),
            final(self).state() == parse_statement(old(self).state()).1,
        decreases remaining(old(self).state()), 2nat,
    {
        let line = self.current_line;
        match &self.current_token {
            Some(Token::Link) => self.handle_link(),
            Some(Token::Do) => self.handle_do(),
            Some(Token::If) => self.handle_if(),
            Some(Token::Print) => self.handle_print(),
            Some(Token::Identifier(name)) => {
                let name = name.clone();
                self.handle_assignment(name)
            },
            Some(token) => Err(ParseError::UnexpectedToken { line, token: copy_token(token) }),
            None => Err(ParseError::ExpectedValue { line, found: None }),
        }
    }

    fn handle_if(&mut self) -> (r: Result<Node, ParseError>)
        requires
            old(self).well_formed(),
        ensures
            final(self).well_formed(),
            node_result_is(r, parse_if(old(self).state()).0),
            final(self).state() == parse_if(old(self).state()).1,
        decreases remaining(old(self).state()), 1nat,
    {
        let ghost s0 = self.state();
        proof {
            lemma_consume(s0);
            lemma_condition(consume(s0));
        }
        self.consume();
        let condition = match self.parse_condition() {
            Ok(condition) => condition,
            Err(e) => return Err(e),
        };
        let ghost s2 = self.state();
        proof {
            lemma_statement_group(s2, Seq::empty());
            lemma_consume(parse_block(s2).1);
        }
        let true_branch = match self.parse_block_items() {
            Ok(nodes) => nodes,
            Err(e) => return Err(e),
        };
        let false_branch = if self.current_is(10) {
            self.consume();
            match self.parse_block_items() {
                Ok(nodes) => nodes,
                Err(e) => return Err(e),
            }
        } else {
            proof {
                lemma_nodes_view_empty();
            }
            Vec::new()
        };
        Ok(Node::If { condition: Box::new(condition), true_branch, false_branch })
    }

    /// `{`, then statements up to the matching `}`.
    fn parse_block_items(&mut self) -> (r: Result<Vec<Node>, ParseError>)
        requires
            old(self).well_formed(),
        ensures
            final(self).well_formed(),
            nodes_result_is(r, parse_block(old(self).state()).0),
            final(self).state() == parse_block(old(self).state()).1,
        decreases remaining(old(self).state()), 0nat,
    {
        let ghost s0 = self.state();
        match self.expect_token(Token::LeftBrace) {
            Ok(()) => {},
            Err(e) => return Err(e),
        }
        proof {
            lemma_consume(s0);
            lemma_nodes_view_empty();
        }
        let ghost s1 = self.state();
        let mut nodes: Vec<Node> = Vec::new();
        loop
            invariant
                self.well_formed(),
                old(self).state() == s0,
                remaining(self.state()) <= remaining(s1) < remaining(s0),
                parse_block_items(self.state(), nodes_view(nodes@)) == parse_block_items(s1, Seq::empty()),
                parse_block(s0) == parse_block_items(s1, Seq::empty()),
            decreases remaining(self.state()),
        {
            let ghost si = self.state();
            let line = self.current_line;
            match &self.current_token {
                None => return Ok(nodes),
                Some(Token::RightBrace) => {
                    self.consume();
                    return Ok(nodes);
                },
                Some(Token::Identifier(_)) | Some(Token::Link) | Some(Token::Do) | Some(Token::If) | Some(Token::Print) => {},
                Some(token) => return Err(ParseError::UnexpectedTokenInBlock { line, token: copy_token(token) }),
            }
            proof {
                lemma_statement_group(si, nodes_view(nodes@));
            }
            match self.statement() {
                Ok(node) => {
                    proof {
                        lemma_nodes_view_push(nodes@, node);
                    }
                    nodes.push(node);
                },
                Err(e) => return Err(e),
            }
        }
    }

    /// Parses the statements of a block: `{`, then statements up to the matching `}` (or
    /// to the end of the tokens).
    pub fn parse_block(&mut self) -> (r: Result<Vec<Node>, ParseError>)
        requires
            old(self).well_formed(),
            !parse_block(old(self).state()).1.stalled,
        ensures
            final(self).well_formed(),
            nodes_result_is(r, parse_block(old(self).state()).0),
            final(self).state() == parse_block(old(self).state()).1,
    {
        self.parse_block_items()
    }

    /// All statements up to the end of the tokens; a statement that does not parse ends
    /// the parse with its error.
    fn parse_all(&mut self) -> (r: Result<Vec<Node>, ParseError>)
        requires
            old(self).well_formed(),
        ensures
            final(self).well_formed(),
            nodes_result_is(r, parse_items(old(self).state(), Seq::empty()).0),
            final(self).state() == parse_items(old(self).state(), Seq::empty()).1,
    {
        let ghost s0 = self.state();
        proof {
            lemma_nodes_view_empty();
        }
        let mut nodes: Vec<Node> = Vec::new();
        loop
            invariant
                self.well_formed(),
                old(self).state() == s0,
                parse_items(self.state(), nodes_view(nodes@)) == parse_items(s0, Seq::empty()),
            decreases remaining(self.state()),
        {
            let ghost si = self.state();
            if self.current_token.is_none() {
                return Ok(nodes);
            }
            proof {
                lemma_statement_group(si, nodes_view(nodes@));
            }
            match self.statement() {
                Ok(node) => {
                    proof {
                        lemma_nodes_view_push(nodes@, node);
                    }
                    nodes.push(node);
                },
                Err(e) => return Err(e),
            }
        }
    }

    /// Parses all statements up to the end of the tokens.
    pub fn parse(&mut self) -> (r: Result<Vec<Node>, ParseError>)
        requires
            old(self).well_formed(),
            !parse_items(old(self).state(), Seq::empty()).1.stalled,
        ensures
            final(self).well_formed(),
            nodes_result_is(r, parse_items(old(self).state(), Seq::empty()).0),
            final(self).state() == parse_items(old(self).state(), Seq::empty()).1,
            r is Ok ==> final(self).state().current is None,
            old(self).state().current matches Some(t) ==> !starts_statement(t)
                ==> (r matches Err(e) && e@ == (ParseErrorView::UnexpectedToken { line: old(self).state().line, token: t })),
    {
        proof {
            lemma_parse_items_ends(old(self).state(), Seq::empty());
        }
        self.parse_all()
    }

    /// Whether the token stream has been asked for a token at text it cannot get past.
    pub fn stopped_short(&self) -> (r: bool)
        ensures
            r == self.state().stalled,
    {
        self.token_stream.has_stalled()
    }
}

impl Parser<Lexer> {
    /// A parser over the text of a dottyfile, at its first token.
    pub fn new(source: &str) -> (r: Self)
        requires
            source@.len() < usize::MAX,
            !source_start(source@).stalled,
        ensures
            r.well_formed(),
            r.state() == source_start(source@),
    {
        Self::start(source)
    }

    /// A parser over the text of a dottyfile, at its first token, even where reading
    /// that token stops short.
    pub fn start(source: &str) -> (r: Self)
        requires
            source@.len() < usize::MAX,
        ensures
            r.well_formed(),
            r.state() == source_start(source@),
    {
        let lexer = Lexer::new(source);
        let mut lexer = lexer;
        let ghost pending = lexer.pending();
        match lexer.next_token() {
            Some((t, l)) => Parser { token_stream: lexer, current_token: Some(t), current_line: l },
            None => {
                let r = Parser { token_stream: lexer, current_token: None, current_line: 1 };
                proof {
                    assert(r.state().pending =~= pending);
                }
                r
            },
        }
    }

    /// Parses the whole text, even where the lexer stops short; `stopped_short` then
    /// tells whether it did.
    pub fn parse_through(&mut self) -> (r: Result<Vec<Node>, ParseError>)
        requires
            old(self).well_formed(),
        ensures
            final(self).well_formed(),
            nodes_result_is(r, parse_items(old(self).state(), Seq::empty()).0),
            final(self).state() == parse_items(old(self).state(), Seq::empty()).1,
    {
        self.parse_all()
    }
}

} // verus!

verus! {

/// A copy of a sequence of nodes.
pub fn copy_nodes(v: &Vec<Node>) -> (r: Vec<Node>)
    ensures
        nodes_view(r@) == nodes_view(v@),
    decreases v, 0nat,
{
    let mut r: Vec<Node> = Vec::new();
    let mut i: usize = 0;
    proof {
        lemma_nodes_view_empty();
    }
    while i < v.len()
        invariant
            0 <= i <= v@.len(),
            nodes_view(r@) == nodes_view(v@.subrange(0, i as int)),
        decreases v@.len() - i,
    {
        let n = copy_node(&v[i]);
        proof {
            lemma_nodes_view_push(r@, n);
            lemma_nodes_view_push(v@.subrange(0, i as int), v@[i as int]);
            assert(v@.subrange(0, i as int).push(v@[i as int]) =~= v@.subrange(0, i + 1));
        }
        r.push(n);
        i += 1;
    }
    proof {
        assert(v@.subrange(0, v@.len() as int) =~= v@);
    }
    r
}

/// A copy of a node.
pub fn copy_node(n: &Node) -> (r: Node)
    ensures
        r@ == n@,
    decreases n, 1nat,
{
    match n {
        Node::Link { source, destination } => Node::Link { source: source.clone(), destination: destination.clone() },
        Node::Do { command, shell } => Node::Do { command: command.clone(), shell: shell.clone() },
        Node::If { condition, true_branch, false_branch } => Node::If {
            condition: Box::new(copy_node(condition)),
            true_branch: copy_nodes(true_branch),
            false_branch: copy_nodes(false_branch),
        },
        Node::Is { left, right } => Node::Is { left: Box::new(copy_node(left)), right: Box::new(copy_node(right)) },
        Node::Or { left, right } => Node::Or { left: Box::new(copy_node(left)), right: Box::new(copy_node(right)) },
        Node::And { left, right } => Node::And { left: Box::new(copy_node(left)), right: Box::new(copy_node(right)) },
        Node::Assign { variable, value: Value::String(v) } => Node::Assign { variable: variable.clone(), value: Value::String(v.clone()) },
        Node::Env(s) => Node::Env(s.clone()),
        Node::Not(inner) => Node::Not(Box::new(copy_node(inner))),
        Node::Exists(s) => Node::Exists(s.clone()),
        Node::Test(s) => Node::Test(s.clone()),
        Node::Print(inner) => Node::Print(Box::new(copy_node(inner))),
        Node::Variable(s) => Node::Variable(s.clone()),
        Node::Literal(Value::String(v)) => Node::Literal(Value::String(v.clone())),
    }
}

} // verus!

verus! {

/// A state whose stream ends properly and that has not stalled.
pub open spec fn steady(s: ParseState) -> bool {
    !s.halts && !s.stalled
}

proof fn lemma_steady_simple(s: ParseState)
    requires
        steady(s),
    ensures
        steady(consume(s)),
        steady(expect_string(s).1),
        steady(parse_atom(s).1),
        steady(parse_comparison(s).1),
        steady(parse_link(s).1),
        steady(parse_do(s).1),
        steady(parse_print(s).1),
        forall|e: TokenView| #[trigger] expect_token(s, e).1 == s || expect_token(s, e).1 == consume(s),
        forall|name: Seq<char>| steady(#[trigger] parse_assignment(s, name).1),
{
    let s1 = consume(s);
    let s2 = consume(s1);
    let s3 = consume(s2);
    let a1 = parse_atom(s);
    let b1 = parse_atom(s1);
    assert(steady(s1) && steady(s2) && steady(s3));
    assert(steady(expect_string(s1).1));
    assert(steady(expect_string(s2).1));
    assert(steady(b1.1));
    assert(steady(parse_atom(consume(b1.1)).1)) by {
        assert(steady(consume(b1.1)));
        assert(steady(expect_string(consume(consume(b1.1))).1));
    }
    assert(steady(a1.1));
    assert(steady(consume(a1.1)));
    assert(steady(parse_atom(consume(a1.1)).1)) by {
        assert(steady(consume(consume(a1.1))));
    }
    let e2 = expect_token(b1.1, TokenView::To).1;
    assert(steady(e2));
    assert(steady(parse_atom(e2).1)) by {
        assert(steady(consume(e2)));
        assert(steady(consume(consume(e2))));
    }
    assert(steady(expect_string(expect_string(s1).1).1));
    assert forall|name: Seq<char>| steady(#[trigger] parse_assignment(s, name).1) by {
        let x = expect_token(s1, TokenView::Assign).1;
        assert(steady(x));
        assert(steady(expect_string(x).1));
    }
}

proof fn lemma_steady_condition(s: ParseState)
    requires
        steady(s),
    ensures
        steady(parse_condition(s).1),
    decreases remaining(s),
{
    lemma_steady_simple(s);
    lemma_comparison(s);
    let s1 = parse_comparison(s).1;
    lemma_consume(s1);
    lemma_steady_simple(s1);
    if parse_comparison(s).0 is Ok && (s1.current == Some(TokenView::Or) || s1.current == Some(TokenView::And)) {
        lemma_steady_condition(consume(s1));
    }
}

proof fn lemma_steady_statements(s: ParseState, done: Seq<NodeView>)
    requires
        steady(s),
    ensures
        steady(parse_statement(s).1),
        steady(parse_if(s).1),
        steady(parse_block(s).1),
        steady(parse_block_items(s, done).1),
    decreases remaining(s),
{
    lemma_statement_group(s, done);
    lemma_steady_simple(s);
    lemma_consume(s);
    let s1 = consume(s);
    lemma_steady_simple(s1);
    lemma_condition(s1);
    lemma_steady_condition(s1);
    let c2 = parse_condition(s1).1;
    if remaining(c2) < remaining(s) {
        lemma_steady_statements(c2, done);
        lemma_statement_group(c2, done);
        let b3 = parse_block(c2).1;
        lemma_steady_simple(b3);
        lemma_consume(b3);
        if remaining(consume(b3)) < remaining(s) {
            lemma_steady_statements(consume(b3), done);
        }
    }
    let x1 = expect_token(s, TokenView::LeftBrace).1;
    if remaining(x1) < remaining(s) {
        lemma_steady_statements(x1, Seq::empty());
    }
    let st1 = parse_statement(s).1;
    if remaining(st1) < remaining(s) && parse_statement(s).0 is Ok {
        lemma_steady_statements(st1, done.push(parse_statement(s).0->Ok_0));
    }
}

/// When the tokens end properly (as a fixed list of tokens always does), no parse stalls.
pub proof fn lemma_steady_parse(s: ParseState, done: Seq<NodeView>)
    requires
        steady(s),
    ensures
        steady(parse_items(s, done).1),
        steady(parse_block(s).1),
    decreases remaining(s),
{
    lemma_steady_statements(s, done);
    if s.current is Some {
        lemma_statement_group(s, done);
        if let (Ok(n), st1) = parse_statement(s) {
            lemma_steady_parse(st1, done.push(n));
        }
    }
}

} // verus!
