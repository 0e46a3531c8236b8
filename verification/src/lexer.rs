//! Turns the text of a dottyfile into tokens.
use vstd::prelude::*;
use std::collections::VecDeque;
use crate::text::{is_whitespace, unicode_white_space, spells, string_of, chars_of};

verus! {

/// A token of the dottyfile language.
#[derive(Debug, PartialEq)]
pub enum Token {
    Link,
    To,
    Is,
    IsNot,
    Or,
    And,
    LeftBrace,
    RightBrace,
    Env,
    If,
    Else,
    ElseIf,
    Exists,
    Do,
    Assign,
    Not,
    Test,
    Print,
    Clone,
    Copy,
    Chmod,
    String(String),
    Identifier(String),
}

/// The mathematical value of a token: its text, where it has one, as a sequence of characters.
pub enum TokenView {
    Link,
    To,
    Is,
    IsNot,
    Or,
    And,
    LeftBrace,
    RightBrace,
    Env,
    If,
    Else,
    ElseIf,
    Exists,
    Do,
    Assign,
    Not,
    Test,
    Print,
    Clone,
    Copy,
    Chmod,
    String(Seq<char>),
    Identifier(Seq<char>),
}

impl View for Token {
    type V = TokenView;

    open spec fn view(&self) -> TokenView {
        match self {
            Token::Link => TokenView::Link,
            Token::To => TokenView::To,
            Token::Is => TokenView::Is,
            Token::IsNot => TokenView::IsNot,
            Token::Or => TokenView::Or,
            Token::And => TokenView::And,
            Token::LeftBrace => TokenView::LeftBrace,
            Token::RightBrace => TokenView::RightBrace,
            Token::Env => TokenView::Env,
            Token::If => TokenView::If,
            Token::Else => TokenView::Else,
            Token::ElseIf => TokenView::ElseIf,
            Token::Exists => TokenView::Exists,
            Token::Do => TokenView::Do,
            Token::Assign => TokenView::Assign,
            Token::Not => TokenView::Not,
            Token::Test => TokenView::Test,
            Token::Print => TokenView::Print,
            Token::Clone => TokenView::Clone,
            Token::Copy => TokenView::Copy,
            Token::Chmod => TokenView::Chmod,
            Token::String(s) => TokenView::String(s@),
            Token::Identifier(s) => TokenView::Identifier(s@),
        }
    }
}

/// The token that a keyword or operator word stands for, if the word is one.
pub open spec fn keyword(w: Seq<char>) -> Option<TokenView> {
    if w == seq!['l', 'i', 'n', 'k'] {
        Some(TokenView::Link)
    } else if w == seq!['t', 'o'] {
        Some(TokenView::To)
    } else if w == seq!['i', 's'] {
        Some(TokenView::Is)
    } else if w == seq!['o', 'r'] {
        Some(TokenView::Or)
    } else if w == seq!['a', 'n', 'd'] {
        Some(TokenView::And)
    } else if w == seq!['e', 'n', 'v'] {
        Some(TokenView::Env)
    } else if w == seq!['i', 'f'] {
        Some(TokenView::If)
    } else if w == seq!['e', 'l', 's', 'e'] {
        Some(TokenView::Else)
    } else if w == seq!['e', 'x', 'i', 's', 't', 's'] {
        Some(TokenView::Exists)
    } else if w == seq!['d', 'o'] {
        Some(TokenView::Do)
    } else if w == seq!['='] {
        Some(TokenView::Assign)
    } else if w == seq!['n', 'o', 't'] {
        Some(TokenView::Not)
    } else if w == seq!['t', 'e', 's', 't'] {
        Some(TokenView::Test)
    } else if w == seq!['p', 'r', 'i', 'n', 't'] {
        Some(TokenView::Print)
    } else if w == seq!['c', 'l', 'o', 'n', 'e'] {
        Some(TokenView::Clone)
    } else if w == seq!['c', 'o', 'p', 'y'] {
        Some(TokenView::Copy)
    } else if w == seq!['c', 'h', 'm', 'o', 'd'] {
        Some(TokenView::Chmod)
    } else {
        None
    }
}

/// A character that ends a comment.
pub open spec fn is_eol(c: char) -> bool {
    c == '\n' || c == '\r'
}

/// A character that ends a bare word.
pub open spec fn ends_word(c: char) -> bool {
    unicode_white_space(c) || c == '{' || c == '}'
}

/// A whitespace character that takes more than one byte in UTF-8. Stepping over one of
/// these byte by byte lands inside the character, so the lexer cannot go past it.
pub open spec fn is_wide_whitespace(c: char) -> bool {
    unicode_white_space(c) && (c as u32) > 0x7f
}

/// Skips whitespace from `pos`, counting newlines into `line`. `None` when a wide
/// whitespace character stops the lexer.
pub open spec fn skip_ws(src: Seq<char>, pos: int, line: int) -> Option<(int, int)>
    decreases src.len() - pos,
{
    if 0 <= pos < src.len() && unicode_white_space(src[pos]) {
        if is_wide_whitespace(src[pos]) {
            None
        } else {
            skip_ws(src, pos + 1, if src[pos] == '\n' { line + 1 } else { line })
        }
    } else {
        Some((pos, line))
    }
}

/// The first position at or after `from` that holds an end of line, or the end of `src`.
pub open spec fn find_eol(src: Seq<char>, from: int) -> int
    decreases src.len() - from,
{
    if from < 0 || from >= src.len() {
        src.len() as int
    } else if is_eol(src[from]) {
        from
    } else {
        find_eol(src, from + 1)
    }
}

/// The first position at or after `from` that holds `c`, if there is one.
pub open spec fn find_char(src: Seq<char>, from: int, c: char) -> Option<int>
    decreases src.len() - from,
{
    if from < 0 || from >= src.len() {
        None
    } else if src[from] == c {
        Some(from)
    } else {
        find_char(src, from + 1, c)
    }
}

/// The first position at or after `from` that ends a bare word, or the end of `src`.
pub open spec fn find_word_end(src: Seq<char>, from: int) -> int
    decreases src.len() - from,
{
    if from < 0 || from >= src.len() {
        src.len() as int
    } else if ends_word(src[from]) {
        from
    } else {
        find_word_end(src, from + 1)
    }
}

/// The outcome of asking the lexer for one token.
pub enum LexStep {
    /// No token: the text is exhausted, or a quote is never closed. The lexer rests at `pos`.
    Done { pos: int, line: int },
    /// A wide whitespace character stops the lexer.
    Stuck,
    /// A token found on `line`; the lexer moves on to `pos` and `next_line`.
    Found { token: TokenView, line: int, pos: int, next_line: int },
}

pub proof fn lemma_skip_ws(src: Seq<char>, pos: int, line: int)
    requires
        0 <= pos <= src.len(),
        line <= pos + 1,
    ensures
        skip_ws(src, pos, line) matches Some((p, l)) ==> {
            &&& pos <= p <= src.len()
            &&& line <= l <= p + 1
            &&& (p < src.len() ==> !unicode_white_space(src[p]))
        },
    decreases src.len() - pos,
{
    if 0 <= pos < src.len() && unicode_white_space(src[pos]) && !is_wide_whitespace(src[pos]) {
        lemma_skip_ws(src, pos + 1, if src[pos] == '\n' { line + 1 } else { line });
    }
}

pub proof fn lemma_find_eol(src: Seq<char>, from: int)
    requires
        0 <= from <= src.len(),
    ensures
        from <= find_eol(src, from) <= src.len(),
        from < src.len() && !is_eol(src[from]) ==> from < find_eol(src, from),
    decreases src.len() - from,
{
    if from < src.len() && !is_eol(src[from]) {
        lemma_find_eol(src, from + 1);
    }
}

pub proof fn lemma_find_char(src: Seq<char>, from: int, c: char)
    requires
        0 <= from <= src.len(),
    ensures
        find_char(src, from, c) matches Some(q) ==> from <= q < src.len() && src[q] == c,
    decreases src.len() - from,
{
    if from < src.len() && src[from] != c {
        lemma_find_char(src, from + 1, c);
    }
}

pub proof fn lemma_find_word_end(src: Seq<char>, from: int)
    requires
        0 <= from <= src.len(),
    ensures
        from <= find_word_end(src, from) <= src.len(),
        find_word_end(src, from) < src.len() ==> ends_word(src[find_word_end(src, from)]),
    decreases src.len() - from,
{
    if from < src.len() && !ends_word(src[from]) {
        lemma_find_word_end(src, from + 1);
    }
}

/// One call of the lexer from position `pos` on line `line`: skip whitespace, then read a
/// brace, a comment (skipped), a quoted string, or a bare word. `else` followed by `if`
/// reads as `ElseIf`, and `is` followed by `not` as `IsNot`; the position then moves three
/// or four characters past the first word.
pub open spec fn lex_step(src: Seq<char>, pos: int, line: int) -> LexStep
    decreases src.len() - pos,
{
    if pos < 0 || pos > src.len() || line > pos + 1 {
        LexStep::Stuck
    } else {
        match skip_ws(src, pos, line) {
            None => LexStep::Stuck,
            Some((p, l)) => {
                proof {
                    lemma_skip_ws(src, pos, line);
                }
                if p >= src.len() {
                    LexStep::Done { pos: p, line: l }
                } else if src[p] == '{' {
                    LexStep::Found { token: TokenView::LeftBrace, line: l, pos: p + 1, next_line: l }
                } else if src[p] == '}' {
                    LexStep::Found { token: TokenView::RightBrace, line: l, pos: p + 1, next_line: l }
                } else if src[p] == '#' {
                    proof {
                        lemma_find_eol(src, p);
                    }
                    lex_step(src, find_eol(src, p), l)
                } else if src[p] == '"' || src[p] == '\'' {
                    proof {
                        lemma_find_char(src, p + 1, src[p]);
                    }
                    match find_char(src, p + 1, src[p]) {
                        Some(q) => LexStep::Found {
                            token: TokenView::String(src.subrange(p + 1, q)),
                            line: l,
                            pos: q + 1,
                            next_line: l,
                        },
                        None => LexStep::Done { pos: p, line: l },
                    }
                } else {
                    let e = find_word_end(src, p);
                    proof {
                        lemma_find_word_end(src, p);
                    }
                    let w = src.subrange(p, e);
                    match keyword(w) {
                        Some(t) => {
                            if t == TokenView::Else || t == TokenView::Is {
                                match lex_step(src, e, l) {
                                    LexStep::Stuck => LexStep::Stuck,
                                    LexStep::Found { token: TokenView::If, .. } if t == TokenView::Else => {
                                        LexStep::Found { token: TokenView::ElseIf, line: l, pos: e + 3, next_line: l }
                                    },
                                    LexStep::Found { token: TokenView::Not, .. } if t == TokenView::Is => {
                                        LexStep::Found { token: TokenView::IsNot, line: l, pos: e + 4, next_line: l }
                                    },
                                    _ => LexStep::Found { token: t, line: l, pos: e, next_line: l },
                                }
                            } else {
                                LexStep::Found { token: t, line: l, pos: e, next_line: l }
                            }
                        },
                        None => LexStep::Found { token: TokenView::Identifier(w), line: l, pos: e, next_line: l },
                    }
                }
            },
        }
    }
}

} // verus!

verus! {

pub proof fn lemma_lex_step_bounds(src: Seq<char>, pos: int, line: int)
    requires
        0 <= pos <= src.len(),
        line <= pos + 1,
    ensures
        lex_step(src, pos, line) matches LexStep::Found { token, line: tl, pos: p2, next_line: l2 } ==> {
            &&& pos < p2 <= src.len()
            &&& line <= tl
            &&& tl == l2
            &&& l2 <= p2 + 1
            &&& (token == TokenView::If ==> p2 - 2 >= pos && (p2 - 2 > pos || !unicode_white_space(src[pos])))
            &&& (token == TokenView::Not ==> p2 - 3 >= pos && (p2 - 3 > pos || !unicode_white_space(src[pos])))
        },
        lex_step(src, pos, line) matches LexStep::Done { pos: p, line: l } ==> {
            &&& pos <= p <= src.len()
            &&& line <= l <= p + 1
            &&& lex_step(src, p, l) == lex_step(src, pos, line)
        },
    decreases src.len() - pos,
{
    lemma_skip_ws(src, pos, line);
    match skip_ws(src, pos, line) {
        None => {},
        Some((p, l)) => {
            if p >= src.len() {
                assert(skip_ws(src, p, l) == Some((p, l)));
            } else if src[p] == '{' || src[p] == '}' {
            } else if src[p] == '#' {
                lemma_find_eol(src, p);
                let e = find_eol(src, p);
                lemma_lex_step_bounds(src, e, l);
                if let LexStep::Found { token, .. } = lex_step(src, e, l) {
                    if pos < src.len() && unicode_white_space(src[pos]) {
                    } else {
                        assert(p == pos);
                    }
                }
            } else if src[p] == '"' || src[p] == '\'' {
                lemma_find_char(src, p + 1, src[p]);
                assert(skip_ws(src, p, l) == Some((p, l)));
            } else {
                let e = find_word_end(src, p);
                lemma_find_word_end(src, p);
                let w = src.subrange(p, e);
                assert(pos < src.len() && unicode_white_space(src[pos]) ==> p > pos) by {
                    if pos < src.len() && unicode_white_space(src[pos]) && p == pos {
                        assert(!unicode_white_space(src[p]));
                    }
                }
                match keyword(w) {
                    Some(t) => {
                        if t == TokenView::Else || t == TokenView::Is {
                            lemma_lex_step_bounds(src, e, l);
                            if e < src.len() {
                                assert(ends_word(src[e]));
                                if !unicode_white_space(src[e]) {
                                    lemma_skip_ws(src, e, l);
                                    assert(skip_ws(src, e, l) == Some((e, l)));
                                }
                            }
                        }
                        if t == TokenView::If {
                            assert(w.len() == 2);
                        }
                        if t == TokenView::Not {
                            assert(w.len() == 3);
                        }
                    },
                    None => {},
                }
            }
        },
    }
}

/// The tokens that the lexer yields from `pos` on line `line`, each with its line, and
/// whether the lexer then stops short at a wide whitespace character (rather than at the
/// end of the text or at an unclosed quote).
pub open spec fn lex_all(src: Seq<char>, pos: int, line: int) -> (Seq<(TokenView, int)>, bool)
    decreases src.len() - pos,
{
    if pos < 0 || pos > src.len() || line > pos + 1 {
        (Seq::empty(), true)
    } else {
        match lex_step(src, pos, line) {
            LexStep::Stuck => (Seq::empty(), true),
            LexStep::Done { .. } => (Seq::empty(), false),
            LexStep::Found { token, line: tl, pos: p2, next_line: l2 } => {
                proof {
                    lemma_lex_step_bounds(src, pos, line);
                }
                let rest = lex_all(src, p2, l2);
                (seq![(token, tl)] + rest.0, rest.1)
            },
        }
    }
}

/// Each token takes up at least one character.
pub proof fn lemma_lex_all_len(src: Seq<char>, pos: int, line: int)
    requires
        0 <= pos <= src.len(),
        line <= pos + 1,
    ensures
        lex_all(src, pos, line).0.len() <= src.len() - pos,
    decreases src.len() - pos,
{
    lemma_lex_step_bounds(src, pos, line);
    if let LexStep::Found { line: tl, pos: p2, next_line: l2, .. } = lex_step(src, pos, line) {
        lemma_lex_all_len(src, p2, l2);
    }
}

/// A source of tokens, each paired with the line it stands on.
pub trait TokenStream: Sized {
    /// The tokens still to come, in order.
    spec fn pending(&self) -> Seq<(TokenView, int)>;

    /// Whether the stream, once `pending` is used up, stops at text it cannot get past
    /// rather than at a proper end.
    spec fn halts_abruptly(&self) -> bool;

    /// Whether the stream has already been asked for a token at such a point.
    spec fn stalled(&self) -> bool;

    spec fn well_formed(&self) -> bool;

    fn next_token(&mut self) -> (r: Option<(Token, usize)>)
        requires
            old(self).well_formed(),
        ensures
            final(self).well_formed(),
            final(self).halts_abruptly() == old(self).halts_abruptly(),
            old(self).pending().len() > 0 ==> {
                &&& r matches Some((t, l)) && (t@, l as int) == old(self).pending()[0]
                &&& final(self).pending() == old(self).pending().drop_first()
                &&& final(self).stalled() == old(self).stalled()
            },
            old(self).pending().len() == 0 ==> {
                &&& r is None
                &&& final(self).pending().len() == 0
                &&& final(self).stalled() == (old(self).stalled() || old(self).halts_abruptly())
            },
    ;

    fn has_stalled(&self) -> (b: bool)
        ensures
            b == self.stalled(),
    ;
}

/// What one step of the lexer produced.
enum Lexed {
    Done,
    Stuck,
    Found(Token, usize),
}

/// Reads tokens out of the text of a dottyfile.
pub struct Lexer {
    chars: Vec<char>,
    position: usize,
    line: usize,
    stalled: bool,
}

impl Lexer {
    pub closed spec fn wf(&self) -> bool {
        &&& self.position <= self.chars@.len()
        &&& self.chars@.len() < usize::MAX
        &&& self.line <= self.position + 1
    }

    pub closed spec fn lexed(&self) -> (Seq<(TokenView, int)>, bool) {
        lex_all(self.chars@, self.position as int, self.line as int)
    }

    /// How many characters the text has.
    pub closed spec fn text_len(&self) -> nat {
        self.chars@.len()
    }

    /// How many characters of the text the lexer has read.
    pub closed spec fn position(&self) -> nat {
        self.position as nat
    }

    /// The tokens still to come are no more than the characters still unread.
    pub proof fn lemma_pending_fits(&self)
        requires
            self.well_formed(),
        ensures
            self.position() <= self.text_len(),
            self.pending().len() <= self.text_len() - self.position(),
    {
        lemma_lex_all_len(self.chars@, self.position as int, self.line as int);
    }

    /// A lexer at the start of `source`, on line 1.
    pub fn new(source: &str) -> (r: Self)
        requires
            source@.len() < usize::MAX,
        ensures
            r.well_formed(),
            r.pending() == lex_all(source@, 0, 1).0,
            r.halts_abruptly() == lex_all(source@, 0, 1).1,
            !r.stalled(),
    {
        Lexer { chars: chars_of(source), position: 0, line: 1, stalled: false }
    }
}

fn find_eol_from(chars: &Vec<char>, from: usize) -> (r: usize)
    requires
        from <= chars@.len(),
    ensures
        r == find_eol(chars@, from as int),
{
    let mut i: usize = from;
    while i < chars.len() && chars[i] != '\n' && chars[i] != '\r'
        invariant
            from <= i <= chars@.len(),
            find_eol(chars@, i as int) == find_eol(chars@, from as int),
        decreases chars@.len() - i,
    {
        i += 1;
    }
    i
}

fn find_char_from(chars: &Vec<char>, from: usize, c: char) -> (r: Option<usize>)
    requires
        from <= chars@.len(),
    ensures
        r matches Some(q) ==> find_char(chars@, from as int, c) == Some(q as int),
        r is None ==> find_char(chars@, from as int, c) is None,
{
    let mut i: usize = from;
    while i < chars.len()
        invariant
            from <= i <= chars@.len(),
            find_char(chars@, i as int, c) == find_char(chars@, from as int, c),
        decreases chars@.len() - i,
    {
        if chars[i] == c {
            return Some(i);
        }
        i += 1;
    }
    None
}

fn find_word_end_from(chars: &Vec<char>, from: usize) -> (r: usize)
    requires
        from <= chars@.len(),
    ensures
        r == find_word_end(chars@, from as int),
{
    let mut i: usize = from;
    while i < chars.len()
        invariant
            from <= i <= chars@.len(),
            find_word_end(chars@, i as int) == find_word_end(chars@, from as int),
        decreases chars@.len() - i,
    {
        let c = chars[i];
        if is_whitespace(c) || c == '{' || c == '}' {
            return i;
        }
        i += 1;
    }
    i
}

} // verus!

verus! {

/// The token for the word `chars[from..to]` when it is a keyword or operator.
fn keyword_token(chars: &Vec<char>, from: usize, to: usize) -> (r: Option<Token>)
    requires
        from <= to <= chars@.len(),
    ensures
        match keyword(chars@.subrange(from as int, to as int)) {
            Some(t) => r matches Some(tok) && tok@ == t,
            None => r is None,
        },
{
    let w0: [char; 4] = ['l', 'i', 'n', 'k'];
    proof { assert(w0@ =~= seq!['l', 'i', 'n', 'k']); }
    let w1: [char; 2] = ['t', 'o'];
    proof { assert(w1@ =~= seq!['t', 'o']); }
    let w2: [char; 2] = ['i', 's'];
    proof { assert(w2@ =~= seq!['i', 's']); }
    let w3: [char; 2] = ['o', 'r'];
    proof { assert(w3@ =~= seq!['o', 'r']); }
    let w4: [char; 3] = ['a', 'n', 'd'];
    proof { assert(w4@ =~= seq!['a', 'n', 'd']); }
    let w5: [char; 3] = ['e', 'n', 'v'];
    proof { assert(w5@ =~= seq!['e', 'n', 'v']); }
    let w6: [char; 2] = ['i', 'f'];
    proof { assert(w6@ =~= seq!['i', 'f']); }
    let w7: [char; 4] = ['e', 'l', 's', 'e'];
    proof { assert(w7@ =~= seq!['e', 'l', 's', 'e']); }
    let w8: [char; 6] = ['e', 'x', 'i', 's', 't', 's'];
    proof { assert(w8@ =~= seq!['e', 'x', 'i', 's', 't', 's']); }
    let w9: [char; 2] = ['d', 'o'];
    proof { assert(w9@ =~= seq!['d', 'o']); }
    let w10: [char; 1] = ['='];
    proof { assert(w10@ =~= seq!['=']); }
    let w11: [char; 3] = ['n', 'o', 't'];
    proof { assert(w11@ =~= seq!['n', 'o', 't']); }
    let w12: [char; 4] = ['t', 'e', 's', 't'];
    proof { assert(w12@ =~= seq!['t', 'e', 's', 't']); }
    let w13: [char; 5] = ['p', 'r', 'i', 'n', 't'];
    proof { assert(w13@ =~= seq!['p', 'r', 'i', 'n', 't']); }
    let w14: [char; 5] = ['c', 'l', 'o', 'n', 'e'];
    proof { assert(w14@ =~= seq!['c', 'l', 'o', 'n', 'e']); }
    let w15: [char; 4] = ['c', 'o', 'p', 'y'];
    proof { assert(w15@ =~= seq!['c', 'o', 'p', 'y']); }
    let w16: [char; 5] = ['c', 'h', 'm', 'o', 'd'];
    proof { assert(w16@ =~= seq!['c', 'h', 'm', 'o', 'd']); }
    if spells(chars, from, to, &w0) {
        Some(Token::Link)
    } else if spells(chars, from, to, &w1) {
        Some(Token::To)
    } else if spells(chars, from, to, &w2) {
        Some(Token::Is)
    } else if spells(chars, from, to, &w3) {
        Some(Token::Or)
    } else if spells(chars, from, to, &w4) {
        Some(Token::And)
    } else if spells(chars, from, to, &w5) {
        Some(Token::Env)
    } else if spells(chars, from, to, &w6) {
        Some(Token::If)
    } else if spells(chars, from, to, &w7) {
        Some(Token::Else)
    } else if spells(chars, from, to, &w8) {
        Some(Token::Exists)
    } else if spells(chars, from, to, &w9) {
        Some(Token::Do)
    } else if spells(chars, from, to, &w10) {
        Some(Token::Assign)
    } else if spells(chars, from, to, &w11) {
        Some(Token::Not)
    } else if spells(chars, from, to, &w12) {
        Some(Token::Test)
    } else if spells(chars, from, to, &w13) {
        Some(Token::Print)
    } else if spells(chars, from, to, &w14) {
        Some(Token::Clone)
    } else if spells(chars, from, to, &w15) {
        Some(Token::Copy)
    } else if spells(chars, from, to, &w16) {
        Some(Token::Chmod)
    } else {
        None
    }
}

/// Skips whitespace in `chars` from `pos`, as `skip_ws` describes it.
fn skip_whitespace(chars: &Vec<char>, pos: usize, line: usize) -> (r: Option<(usize, usize)>)
    requires
        pos <= chars@.len() < usize::MAX,
        line <= pos + 1,
    ensures
        match skip_ws(chars@, pos as int, line as int) {
            None => r is None,
            Some((p, l)) => r == Some((p as usize, l as usize)),
        },
{
    let mut p = pos;
    let mut l = line;
    while p < chars.len() && is_whitespace(chars[p])
        invariant
            p <= chars@.len() < usize::MAX,
            l <= p + 1,
            skip_ws(chars@, p as int, l as int) == skip_ws(chars@, pos as int, line as int),
        decreases chars@.len() - p,
    {
        let c = chars[p];
        if (c as u32) > 0x7f {
            return None;
        }
        if c == '\n' {
            l = l + 1;
        }
        p = p + 1;
    }
    Some((p, l))
}

/// One step of the lexer over `chars` from `pos` on line `line`, as `lex_step` describes
/// it. Returns what was read, with the position and line the lexer moves on to.
fn lex_at(chars: &Vec<char>, pos: usize, line: usize) -> (r: (Lexed, usize, usize))
    requires
        pos <= chars@.len() < usize::MAX,
        line <= pos + 1,
    ensures
        r.1 <= chars@.len(),
        r.2 <= r.1 + 1,
        match lex_step(chars@, pos as int, line as int) {
            LexStep::Stuck => r.0 is Stuck,
            LexStep::Done { pos, line } => r.0 is Done && r.1 == pos && r.2 == line,
            LexStep::Found { token, line, pos, next_line } => r.0 matches Lexed::Found(t, l)
                && t@ == token && l == line && r.1 == pos && r.2 == next_line,
        },
    decreases chars@.len() - pos,
{
    let ghost src = chars@;
    proof {
        lemma_skip_ws(src, pos as int, line as int);
        lemma_lex_step_bounds(src, pos as int, line as int);
    }
    let (p, line) = match skip_whitespace(chars, pos, line) {
        None => return (Lexed::Stuck, pos, line),
        Some(pl) => pl,
    };
    if p >= chars.len() {
        return (Lexed::Done, p, line);
    }
    let c = chars[p];
    if c == '{' {
        return (Lexed::Found(Token::LeftBrace, line), p + 1, line);
    }
    if c == '}' {
        return (Lexed::Found(Token::RightBrace, line), p + 1, line);
    }
    if c == '#' {
        proof {
            lemma_find_eol(src, p as int);
        }
        let e = find_eol_from(chars, p);
        return lex_at(chars, e, line);
    }
    if c == '"' || c == '\'' {
        proof {
            lemma_find_char(src, p + 1, c);
        }
        return match find_char_from(chars, p + 1, c) {
            Some(q) => (Lexed::Found(Token::String(string_of(chars, p + 1, q)), line), q + 1, line),
            None => (Lexed::Done, p, line),
        };
    }
    proof {
        lemma_find_word_end(src, p as int);
    }
    let e = find_word_end_from(chars, p);
    match keyword_token(chars, p, e) {
        Some(t) => {
            let follows = match t {
                Token::Else => 1u8,
                Token::Is => 2u8,
                _ => 0u8,
            };
            if follows == 0 {
                return (Lexed::Found(t, line), e, line);
            }
            proof {
                lemma_lex_step_bounds(src, e as int, line as int);
            }
            let (peeked, _, _) = lex_at(chars, e, line);
            match peeked {
                Lexed::Stuck => (Lexed::Stuck, e, line),
                Lexed::Found(Token::If, _) if follows == 1 => (Lexed::Found(Token::ElseIf, line), e + 3, line),
                Lexed::Found(Token::Not, _) if follows == 2 => (Lexed::Found(Token::IsNot, line), e + 4, line),
                _ => (Lexed::Found(t, line), e, line),
            }
        },
        None => (Lexed::Found(Token::Identifier(string_of(chars, p, e)), line), e, line),
    }
}

impl TokenStream for Lexer {
    closed spec fn pending(&self) -> Seq<(TokenView, int)> {
        if self.stalled {
            Seq::empty()
        } else {
            self.lexed().0
        }
    }

    closed spec fn halts_abruptly(&self) -> bool {
        self.stalled || self.lexed().1
    }

    closed spec fn stalled(&self) -> bool {
        self.stalled
    }

    closed spec fn well_formed(&self) -> bool {
        self.wf()
    }

    fn next_token(&mut self) -> (r: Option<(Token, usize)>)
        ensures
            final(self).text_len() == old(self).text_len(),
            r is Some ==> old(self).position() < final(self).position() <= final(self).text_len(),
    {
        if self.stalled {
            return None;
        }
        let ghost src = self.chars@;
        let ghost pos0 = self.position as int;
        let ghost line0 = self.line as int;
        proof {
            lemma_lex_step_bounds(src, pos0, line0);
        }
        let (lexed, pos, line) = lex_at(&self.chars, self.position, self.line);
        self.position = pos;
        self.line = line;
        match lexed {
            Lexed::Stuck => {
                self.stalled = true;
                None
            },
            Lexed::Done => {
                proof {
                    lemma_lex_step_bounds(src, pos as int, line as int);
                }
                None
            },
            Lexed::Found(t, l) => Some((t, l)),
        }
    }

    fn has_stalled(&self) -> (b: bool) {
        self.stalled
    }
}

} // verus!

verus! {

/// A fixed list of tokens, handed out in order, each on line 0.
pub struct TokenList {
    /// The tokens still to come, in order.
    tokens: VecDeque<Token>,
}

impl TokenList {
    /// A stream that yields `tokens` in order.
    pub fn new(tokens: Vec<Token>) -> (r: Self)
        ensures
            r.well_formed(),
            r.pending() == tokens@.map_values(|t: Token| (t@, 0int)),
            !r.halts_abruptly(),
            !r.stalled(),
    {
        let mut rest = tokens;
        let mut queue: VecDeque<Token> = VecDeque::new();
        while rest.len() > 0
            invariant
                rest@ + queue@ == tokens@,
            decreases rest@.len(),
        {
            let ghost before_rest = rest@;
            let ghost before_queue = queue@;
            let t = rest.pop().unwrap();
            queue.push_front(t);
            proof {
                assert(before_rest =~= rest@ + seq![t]);
                assert(rest@ + queue@ =~= before_rest + before_queue);
            }
        }
        proof {
            assert(queue@ =~= tokens@);
        }
        TokenList { tokens: queue }
    }
}

} // verus!

verus! {

impl TokenStream for TokenList {
    closed spec fn pending(&self) -> Seq<(TokenView, int)> {
        self.tokens@.map_values(|t: Token| (t@, 0int))
    }

    closed spec fn halts_abruptly(&self) -> bool {
        false
    }

    closed spec fn stalled(&self) -> bool {
        false
    }

    closed spec fn well_formed(&self) -> bool {
        true
    }

    fn next_token(&mut self) -> (r: Option<(Token, usize)>) {
        match self.tokens.pop_front() {
            Some(t) => {
                proof {
                    assert(self.pending() =~= old(self).pending().drop_first());
                }
                Some((t, 0))
            },
            None => None,
        }
    }

    fn has_stalled(&self) -> (b: bool) {
        false
    }
}

} // verus!
