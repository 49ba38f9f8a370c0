//! The recursive-descent parser. It builds the syntax tree and keeps a scope
//! chain that resolves every variable reference while parsing.
//!
//! ```text
//! program     -> declaration* END
//! declaration -> "var" IDENT ("=" expression)? ";" | statement
//! statement   -> "print" expression ";" | block | ifStmt | expression ";"
//! block       -> "{" declaration* "}"
//! ifStmt      -> "if" expression statement ("else" statement)?
//! expression  -> assignment
//! assignment  -> IDENT "=" assignment | logic_or
//! logic_or    -> logic_and ("or" logic_and)*
//! logic_and   -> equality ("and" equality)*
//! equality    -> comparison (("!=" | "==") comparison)*
//! comparison  -> term ((">" | ">=" | "<" | "<=") term)*
//! term        -> factor (("-" | "+") factor)*
//! factor      -> unary (("/" | "*") unary)*
//! unary       -> ("!" | "-") unary | primary
//! primary     -> NUMBER | STRING | "true" | "false" | "nil" | "(" expression ")" | IDENT
//! ```
//!
//! The end of the input stands in for a missing `;`.
//!
//! Each rule is first defined as a spec function over token models and a
//! parser state, and each method of [`Parser`] is proved to compute it. Where
//! a rule goes on after a sub-rule, the definition asks that the position
//! moved forward ([`progress`]); the methods prove that it always does, and
//! the test lets the definitions terminate.
use vstd::prelude::*;

use crate::ast::{nodes_model, AstNode, BinaryOp, Node, UnaryOp};
use crate::scope::{assign, declare, enter, leave, lookup, Env, Scope};
use crate::token::{copy_token, toks, KeyWord, Tok, TokenType};

verus! {

/// The grammar rules that a parse error can be met in.
#[derive(Debug, Clone, Copy, PartialEq, Eq, Structural)]
pub enum Rule {
    VarDeclaration,
    PrintStatement,
    ExpressionStatement,
    Block,
    Group,
    Primary,
}

/// Why parsing stopped.
#[derive(Debug, PartialEq)]
pub enum ParseError {
    /// A token (or the end of input, `None`) that the rule cannot take.
    Unexpected { found: Option<TokenType>, rule: Rule },
    /// A reference to, or assignment of, a name that no enclosing scope binds.
    UndeclaredVariable(String),
    /// `=` after an expression that is not a variable name.
    InvalidAssignmentTarget,
}

/// The model of a parse error.
pub enum ParseFailure {
    Unexpected { found: Option<Tok>, rule: Rule },
    UndeclaredVariable(Seq<char>),
    InvalidAssignmentTarget,
}

impl View for ParseError {
    type V = ParseFailure;

    open spec fn view(&self) -> ParseFailure {
        match self {
            ParseError::Unexpected { found, rule } => ParseFailure::Unexpected {
                found: match found {
                    Some(t) => Some(t@),
                    None => None,
                },
                rule: *rule,
            },
            ParseError::UndeclaredVariable(n) => ParseFailure::UndeclaredVariable(n@),
            ParseError::InvalidAssignmentTarget => ParseFailure::InvalidAssignmentTarget,
        }
    }
}

/// Where the parser stands: the position of the next token and the scope chain.
pub struct PState {
    pub pos: int,
    pub env: Env,
}

/// The outcome of a rule: the node built and the state after it, or an error.
pub type Parsed = Result<(Node, PState), ParseFailure>;

pub open spec fn peek(ts: Seq<Tok>, p: int) -> Option<Tok> {
    if 0 <= p < ts.len() { Some(ts[p]) } else { None }
}

pub open spec fn at(ts: Seq<Tok>, p: int, t: Tok) -> bool {
    0 <= p < ts.len() && ts[p] == t
}

/// Whether `st2` lies past `st` and within the input.
pub open spec fn progress(ts: Seq<Tok>, st: PState, st2: PState) -> bool {
    st.pos < st2.pos <= ts.len()
}

pub open spec fn adv(st: PState, n: int) -> PState {
    PState { pos: st.pos + n, ..st }
}

/// A statement's `;`, which the end of the input may stand in for.
pub open spec fn terminated(ts: Seq<Tok>, st: PState, n: Node, rule: Rule) -> Parsed {
    if at(ts, st.pos, Tok::Semicolon) {
        Ok((n, adv(st, 1)))
    } else if st.pos >= ts.len() {
        Ok((n, st))
    } else {
        Err(ParseFailure::Unexpected { found: peek(ts, st.pos), rule })
    }
}

/// How a binary level joins its operands.
#[derive(Debug, Clone, Copy, PartialEq, Eq, Structural)]
pub enum Joiner {
    Op(BinaryOp),
    And,
    Or,
}

pub open spec fn join(j: Joiner, l: Node, r: Node) -> Node {
    match j {
        Joiner::Op(op) => Node::Binary { left: Box::new(l), operator: op, right: Box::new(r) },
        Joiner::And => Node::And { left: Box::new(l), right: Box::new(r) },
        Joiner::Or => Node::Or { left: Box::new(l), right: Box::new(r) },
    }
}

/// The operator that token `t` stands for at a binary level: 3 factor,
/// 4 term, 5 comparison, 6 equality, 7 logic_and, 8 logic_or.
pub open spec fn level_op(level: nat, t: Tok) -> Option<Joiner> {
    if level == 3 {
        match t {
            Tok::Star => Some(Joiner::Op(BinaryOp::Mul)),
            Tok::Slash => Some(Joiner::Op(BinaryOp::Div)),
            _ => None,
        }
    } else if level == 4 {
        match t {
            Tok::Plus => Some(Joiner::Op(BinaryOp::Add)),
            Tok::Minus => Some(Joiner::Op(BinaryOp::Sub)),
            _ => None,
        }
    } else if level == 5 {
        match t {
            Tok::Greater => Some(Joiner::Op(BinaryOp::Greater)),
            Tok::GreaterEqual => Some(Joiner::Op(BinaryOp::GreaterEqual)),
            Tok::Less => Some(Joiner::Op(BinaryOp::Less)),
            Tok::LessEqual => Some(Joiner::Op(BinaryOp::LessEqual)),
            _ => None,
        }
    } else if level == 6 {
        match t {
            Tok::EqualEqual => Some(Joiner::Op(BinaryOp::EqualEqual)),
            Tok::BangEqual => Some(Joiner::Op(BinaryOp::BangEqual)),
            _ => None,
        }
    } else if level == 7 {
        if t == Tok::KeyWord(KeyWord::And) { Some(Joiner::And) } else { None }
    } else {
        if t == Tok::KeyWord(KeyWord::Or) { Some(Joiner::Or) } else { None }
    }
}

pub open spec fn level_op_at(ts: Seq<Tok>, p: int, level: nat) -> Option<Joiner> {
    match peek(ts, p) {
        Some(t) => level_op(level, t),
        None => None,
    }
}

/// primary -> NUMBER | STRING | "true" | "false" | "nil" | "(" expression ")" | IDENT
pub open spec fn primary(ts: Seq<Tok>, st: PState) -> Parsed
    decreases ts.len() - st.pos, 1nat,
{
    match peek(ts, st.pos) {
        Some(Tok::Number(n)) => Ok((Node::Number(n), adv(st, 1))),
        Some(Tok::Str(s)) => Ok((Node::Str(s), adv(st, 1))),
        Some(Tok::KeyWord(KeyWord::True)) => Ok((Node::Boolean(true), adv(st, 1))),
        Some(Tok::KeyWord(KeyWord::False)) => Ok((Node::Boolean(false), adv(st, 1))),
        Some(Tok::KeyWord(KeyWord::Nil)) => Ok((Node::Nil, adv(st, 1))),
        Some(Tok::LeftParen) => if st.pos >= 0 {
            match expression(ts, adv(st, 1)) {
                Ok((e, st2)) => if at(ts, st2.pos, Tok::RightParen) {
                    Ok((Node::Group(Box::new(e)), adv(st2, 1)))
                } else {
                    Err(ParseFailure::Unexpected { found: peek(ts, st2.pos), rule: Rule::Group })
                },
                Err(e) => Err(e),
            }
        } else {
            Err(ParseFailure::Unexpected { found: None, rule: Rule::Primary })
        },
        Some(Tok::Identifier(name)) => match lookup(st.env, name) {
            Some(n) => Ok((n, adv(st, 1))),
            None => Err(ParseFailure::UndeclaredVariable(name)),
        },
        found => Err(ParseFailure::Unexpected { found, rule: Rule::Primary }),
    }
}

/// unary -> ("!" | "-") unary | primary
pub open spec fn unary(ts: Seq<Tok>, st: PState) -> Parsed
    decreases ts.len() - st.pos, 2nat,
{
    let op = if at(ts, st.pos, Tok::Bang) {
        Some(UnaryOp::Not)
    } else if at(ts, st.pos, Tok::Minus) {
        Some(UnaryOp::Negate)
    } else {
        None
    };
    match op {
        Some(operator) => match unary(ts, adv(st, 1)) {
            Ok((e, st2)) => Ok((Node::Unary { operator, operand: Box::new(e) }, st2)),
            Err(e) => Err(e),
        },
        None => primary(ts, st),
    }
}

/// The operand rule of a binary level: the next level down, or unary.
pub open spec fn operand(ts: Seq<Tok>, st: PState, level: nat) -> Parsed
    decreases ts.len() - st.pos, 2 * level + 3,
{
    if 3 < level <= 8 {
        binary_level(ts, st, (level - 1) as nat)
    } else {
        unary(ts, st)
    }
}

/// A left-associative binary level: operand (OP operand)*.
pub open spec fn binary_level(ts: Seq<Tok>, st: PState, level: nat) -> Parsed
    decreases ts.len() - st.pos, 2 * level + 4,
{
    match operand(ts, st, level) {
        Ok((l, st2)) => if progress(ts, st, st2) {
            binary_rest(ts, l, st2, level)
        } else {
            Ok((l, st2))
        },
        Err(e) => Err(e),
    }
}

/// The `(OP operand)*` part of a binary level, with `left` parsed so far.
pub open spec fn binary_rest(ts: Seq<Tok>, left: Node, st: PState, level: nat) -> Parsed
    decreases ts.len() - st.pos, 0nat,
{
    match level_op_at(ts, st.pos, level) {
        Some(j) => if 0 <= st.pos < ts.len() {
            match operand(ts, adv(st, 1), level) {
                Ok((r, st2)) => if progress(ts, st, st2) {
                    binary_rest(ts, join(j, left, r), st2, level)
                } else {
                    Ok((join(j, left, r), st2))
                },
                Err(e) => Err(e),
            }
        } else {
            Ok((left, st))
        },
        None => Ok((left, st)),
    }
}

/// assignment -> IDENT "=" assignment | logic_or
pub open spec fn assignment(ts: Seq<Tok>, st: PState) -> Parsed
    decreases ts.len() - st.pos, 22nat,
{
    match peek(ts, st.pos) {
        Some(Tok::Identifier(name)) => if at(ts, st.pos + 1, Tok::Equal) {
            if lookup(st.env, name) is None {
                Err(ParseFailure::UndeclaredVariable(name))
            } else {
                match assignment(ts, adv(st, 2)) {
                    Ok((v, st2)) => {
                        let n = Node::Variable { name, value: Some(Box::new(v)) };
                        Ok((n, PState { env: assign(st2.env, name, n), ..st2 }))
                    },
                    Err(e) => Err(e),
                }
            }
        } else {
            assignment_target_checked(ts, st)
        },
        _ => assignment_target_checked(ts, st),
    }
}

/// logic_or, which must not be followed by `=`.
pub open spec fn assignment_target_checked(ts: Seq<Tok>, st: PState) -> Parsed
    decreases ts.len() - st.pos, 21nat,
{
    match binary_level(ts, st, 8) {
        Ok((e, st2)) => if at(ts, st2.pos, Tok::Equal) {
            Err(ParseFailure::InvalidAssignmentTarget)
        } else {
            Ok((e, st2))
        },
        Err(e) => Err(e),
    }
}

/// expression -> assignment
pub open spec fn expression(ts: Seq<Tok>, st: PState) -> Parsed
    decreases ts.len() - st.pos, 23nat,
{
    assignment(ts, st)
}

/// "if" expression statement ("else" statement)?, after the `if`.
pub open spec fn if_statement(ts: Seq<Tok>, st: PState) -> Parsed
    decreases ts.len() - st.pos, 24nat,
{
    match expression(ts, adv(st, 1)) {
        Ok((c, st2)) => if progress(ts, st, st2) {
            match statement(ts, st2) {
                Ok((t, st3)) => if at(ts, st3.pos, Tok::KeyWord(KeyWord::Else)) && progress(ts, st, st3) {
                    match statement(ts, adv(st3, 1)) {
                        Ok((e, st4)) => Ok((
                            Node::If {
                                condition: Box::new(c),
                                then_branch: Box::new(t),
                                else_branch: Some(Box::new(e)),
                            },
                            st4,
                        )),
                        Err(e) => Err(e),
                    }
                } else {
                    Ok((
                        Node::If { condition: Box::new(c), then_branch: Box::new(t), else_branch: None },
                        st3,
                    ))
                },
                Err(e) => Err(e),
            }
        } else {
            Ok((c, st2))
        },
        Err(e) => Err(e),
    }
}

/// The declarations of a block up to its `}`, with `acc` parsed so far.
pub open spec fn block_items(ts: Seq<Tok>, st: PState, acc: Seq<Node>) -> Parsed
    decreases ts.len() - st.pos, 27nat,
{
    if at(ts, st.pos, Tok::RightBrace) {
        Ok((Node::Block(acc), PState { pos: st.pos + 1, env: leave(st.env) }))
    } else if st.pos >= ts.len() || st.pos < 0 {
        Err(ParseFailure::Unexpected { found: None, rule: Rule::Block })
    } else {
        match declaration(ts, st) {
            Ok((d, st2)) => if progress(ts, st, st2) {
                block_items(ts, st2, acc.push(d))
            } else {
                Ok((d, st2))
            },
            Err(e) => Err(e),
        }
    }
}

/// statement -> "print" expression ";" | block | ifStmt | expression ";"
pub open spec fn statement(ts: Seq<Tok>, st: PState) -> Parsed
    decreases ts.len() - st.pos, 25nat,
{
    if at(ts, st.pos, Tok::KeyWord(KeyWord::Print)) {
        match expression(ts, adv(st, 1)) {
            Ok((e, st2)) => terminated(ts, st2, Node::Print(Box::new(e)), Rule::PrintStatement),
            Err(e) => Err(e),
        }
    } else if at(ts, st.pos, Tok::LeftBrace) {
        block_items(ts, PState { pos: st.pos + 1, env: enter(st.env) }, Seq::empty())
    } else if at(ts, st.pos, Tok::KeyWord(KeyWord::If)) {
        if_statement(ts, st)
    } else {
        match expression(ts, st) {
            Ok((e, st2)) => terminated(ts, st2, e, Rule::ExpressionStatement),
            Err(e) => Err(e),
        }
    }
}

/// declaration -> "var" IDENT ("=" expression)? ";" | statement
pub open spec fn declaration(ts: Seq<Tok>, st: PState) -> Parsed
    decreases ts.len() - st.pos, 26nat,
{
    if at(ts, st.pos, Tok::KeyWord(KeyWord::Var)) {
        match peek(ts, st.pos + 1) {
            Some(Tok::Identifier(name)) => if at(ts, st.pos + 2, Tok::Equal) {
                match expression(ts, adv(st, 3)) {
                    Ok((v, st2)) => {
                        let n = Node::Variable { name, value: Some(Box::new(v)) };
                        terminated(
                            ts,
                            PState { env: declare(st2.env, name, n), ..st2 },
                            n,
                            Rule::VarDeclaration,
                        )
                    },
                    Err(e) => Err(e),
                }
            } else {
                let n = Node::Variable { name, value: None };
                terminated(
                    ts,
                    PState { pos: st.pos + 2, env: declare(st.env, name, n) },
                    n,
                    Rule::VarDeclaration,
                )
            },
            found => Err(ParseFailure::Unexpected { found, rule: Rule::VarDeclaration }),
        }
    } else {
        statement(ts, st)
    }
}

/// The declarations from `st` to the end of the input, after `acc`.
pub open spec fn program_from(ts: Seq<Tok>, st: PState, acc: Seq<Node>) -> Result<
    Seq<Node>,
    ParseFailure,
>
    decreases ts.len() - st.pos,
{
    if st.pos >= ts.len() || st.pos < 0 {
        Ok(acc)
    } else {
        match declaration(ts, st) {
            Ok((d, st2)) => if progress(ts, st, st2) {
                program_from(ts, st2, acc.push(d))
            } else {
                Ok(acc.push(d))
            },
            Err(e) => Err(e),
        }
    }
}

/// The top-level statements of a program, or the first error. Parsing starts
/// with no bindings at depth 0.
pub open spec fn parse_program(ts: Seq<Tok>) -> Result<Seq<Node>, ParseFailure> {
    program_from(ts, PState { pos: 0, env: Env { binds: Seq::empty(), depth: 0 } }, Seq::empty())
}

/// Whether two tokens are the same.
pub fn same_token(a: &TokenType, b: &TokenType) -> (r: bool)
    ensures
        r == (a@ == b@),
{
    match (a, b) {
        (TokenType::LeftParen, TokenType::LeftParen) => true,
        (TokenType::RightParen, TokenType::RightParen) => true,
        (TokenType::LeftBrace, TokenType::LeftBrace) => true,
        (TokenType::RightBrace, TokenType::RightBrace) => true,
        (TokenType::Comma, TokenType::Comma) => true,
        (TokenType::Dot, TokenType::Dot) => true,
        (TokenType::Minus, TokenType::Minus) => true,
        (TokenType::Plus, TokenType::Plus) => true,
        (TokenType::Semicolon, TokenType::Semicolon) => true,
        (TokenType::Star, TokenType::Star) => true,
        (TokenType::Bang, TokenType::Bang) => true,
        (TokenType::BangEqual, TokenType::BangEqual) => true,
        (TokenType::Equal, TokenType::Equal) => true,
        (TokenType::EqualEqual, TokenType::EqualEqual) => true,
        (TokenType::Greater, TokenType::Greater) => true,
        (TokenType::GreaterEqual, TokenType::GreaterEqual) => true,
        (TokenType::Less, TokenType::Less) => true,
        (TokenType::LessEqual, TokenType::LessEqual) => true,
        (TokenType::Slash, TokenType::Slash) => true,
        (TokenType::Space, TokenType::Space) => true,
        (TokenType::Tab, TokenType::Tab) => true,
        (TokenType::NewLine, TokenType::NewLine) => true,
        (TokenType::String(x), TokenType::String(y)) => *x == *y,
        (TokenType::Number(x), TokenType::Number(y)) => *x == *y,
        (TokenType::Identifier(x), TokenType::Identifier(y)) => *x == *y,
        (TokenType::KeyWord(x), TokenType::KeyWord(y)) => *x == *y,
        _ => false,
    }
}

fn level_op_exec(level: u8, t: &TokenType) -> (r: Option<Joiner>)
    ensures
        r == level_op(level as nat, t@),
{
    if level == 3 {
        match t {
            TokenType::Star => Some(Joiner::Op(BinaryOp::Mul)),
            TokenType::Slash => Some(Joiner::Op(BinaryOp::Div)),
            _ => None,
        }
    } else if level == 4 {
        match t {
            TokenType::Plus => Some(Joiner::Op(BinaryOp::Add)),
            TokenType::Minus => Some(Joiner::Op(BinaryOp::Sub)),
            _ => None,
        }
    } else if level == 5 {
        match t {
            TokenType::Greater => Some(Joiner::Op(BinaryOp::Greater)),
            TokenType::GreaterEqual => Some(Joiner::Op(BinaryOp::GreaterEqual)),
            TokenType::Less => Some(Joiner::Op(BinaryOp::Less)),
            TokenType::LessEqual => Some(Joiner::Op(BinaryOp::LessEqual)),
            _ => None,
        }
    } else if level == 6 {
        match t {
            TokenType::EqualEqual => Some(Joiner::Op(BinaryOp::EqualEqual)),
            TokenType::BangEqual => Some(Joiner::Op(BinaryOp::BangEqual)),
            _ => None,
        }
    } else if level == 7 {
        match t {
            TokenType::KeyWord(KeyWord::And) => Some(Joiner::And),
            _ => None,
        }
    } else {
        match t {
            TokenType::KeyWord(KeyWord::Or) => Some(Joiner::Or),
            _ => None,
        }
    }
}

fn join_exec(j: Joiner, l: AstNode, r: AstNode) -> (n: AstNode)
    ensures
        n@ == join(j, l@, r@),
{
    match j {
        Joiner::Op(op) => AstNode::Binary { left: Box::new(l), operator: op, right: Box::new(r) },
        Joiner::And => AstNode::And { left: Box::new(l), right: Box::new(r) },
        Joiner::Or => AstNode::Or { left: Box::new(l), right: Box::new(r) },
    }
}

/// Whether the exec outcome `r`, with the parser state `after`, is `s`.
pub open spec fn outcome(r: Result<AstNode, ParseError>, after: PState, s: Parsed) -> bool {
    match s {
        Ok((n, st)) => r is Ok && r->Ok_0@ == n && after == st,
        Err(e) => r is Err && r->Err_0@ == e,
    }
}

/// A recursive-descent parser over a token sequence without whitespace.
pub struct Parser {
    tokens: Vec<TokenType>,
    current: usize,
    scope: Scope,
}

impl Parser {
    /// The models of the tokens.
    pub closed spec fn token_models(&self) -> Seq<Tok> {
        toks(self.tokens@)
    }

    /// The position and the scope chain.
    pub closed spec fn state(&self) -> PState {
        PState { pos: self.current as int, env: self.scope@ }
    }

    /// The position is within the input, and each open block was entered
    /// through one token.
    pub closed spec fn wf(&self) -> bool {
        self.scope@.depth <= self.current <= self.tokens@.len() <= usize::MAX
    }

    /// A parser at the first token, with no bindings.
    pub fn new(tokens: Vec<TokenType>) -> (r: Parser)
        ensures
            r.wf(),
            r.token_models() == toks(tokens@),
            r.state() == (PState { pos: 0, env: Env { binds: Seq::empty(), depth: 0 } }),
    {
        let _ = tokens.len();
        Parser { tokens, current: 0, scope: Scope::new() }
    }

    fn at(&self, p: usize, t: TokenType) -> (r: bool)
        ensures
            r == at(toks(self.tokens@), p as int, t@),
            r ==> p < self.tokens@.len(),
            toks(self.tokens@).len() == self.tokens@.len(),
    {
        p < self.tokens.len() && same_token(&self.tokens[p], &t)
    }

    fn peek_copy(&self, p: usize) -> (r: Option<TokenType>)
        ensures
            match r {
                Some(t) => peek(toks(self.tokens@), p as int) == Some(t@),
                None => peek(toks(self.tokens@), p as int) is None,
            },
    {
        if p < self.tokens.len() {
            Some(copy_token(&self.tokens[p]))
        } else {
            None
        }
    }

    fn identifier_at(&self, p: usize) -> (r: Option<String>)
        ensures
            match r {
                Some(name) => peek(toks(self.tokens@), p as int) == Some(Tok::Identifier(name@))
                    && p < self.tokens@.len(),
                None => !(peek(toks(self.tokens@), p as int) matches Some(Tok::Identifier(_))),
            },
    {
        if p < self.tokens.len() {
            match &self.tokens[p] {
                TokenType::Identifier(name) => Some(name.clone()),
                _ => None,
            }
        } else {
            None
        }
    }

    /// Opens a block scope.
    pub fn forward_scope(&mut self)
        requires
            old(self).wf(),
            old(self).state().env.depth < old(self).state().pos,
        ensures
            final(self).wf(),
            final(self).token_models() == old(self).token_models(),
            final(self).state() == (PState { env: enter(old(self).state().env), ..old(self).state() }),
    {
        self.scope.forward();
    }

    /// Closes the innermost block scope.
    pub fn expire_scope(&mut self)
        requires
            old(self).wf(),
        ensures
            final(self).wf(),
            final(self).token_models() == old(self).token_models(),
            final(self).state() == (PState { env: leave(old(self).state().env), ..old(self).state() }),
    {
        self.scope.expire();
    }

    fn primary(&mut self) -> (r: Result<AstNode, ParseError>)
        requires
            old(self).wf(),
        ensures
            final(self).tokens@ == old(self).tokens@,
            outcome(r, final(self).state(), primary(toks(old(self).tokens@), old(self).state())),
            r is Ok ==> final(self).wf() && old(self).current < final(self).current,
        decreases old(self).tokens@.len() - old(self).current, 1nat,
    {
        let p = self.current;
        if p >= self.tokens.len() {
            return Err(ParseError::Unexpected { found: None, rule: Rule::Primary });
        }
        match &self.tokens[p] {
            TokenType::Number(n) => {
                let n = *n;
                self.current = p + 1;
                Ok(AstNode::Number(n))
            },
            TokenType::String(s) => {
                let s = s.clone();
                self.current = p + 1;
                Ok(AstNode::String(s))
            },
            TokenType::KeyWord(KeyWord::True) => {
                self.current = p + 1;
                Ok(AstNode::Boolean(true))
            },
            TokenType::KeyWord(KeyWord::False) => {
                self.current = p + 1;
                Ok(AstNode::Boolean(false))
            },
            TokenType::KeyWord(KeyWord::Nil) => {
                self.current = p + 1;
                Ok(AstNode::Nil)
            },
            TokenType::LeftParen => {
                self.current = p + 1;
                match self.expression() {
                    Ok(e) => {
                        if self.at(self.current, TokenType::RightParen) {
                            self.current = self.current + 1;
                            Ok(AstNode::Group(Box::new(e)))
                        } else {
                            Err(ParseError::Unexpected { found: self.peek_copy(self.current), rule: Rule::Group })
                        }
                    },
                    Err(e) => Err(e),
                }
            },
            TokenType::Identifier(name) => {
                match self.scope.get_var(name) {
                    Some(n) => {
                        self.current = p + 1;
                        Ok(n)
                    },
                    None => Err(ParseError::UndeclaredVariable(name.clone())),
                }
            },
            t => Err(ParseError::Unexpected { found: Some(copy_token(t)), rule: Rule::Primary }),
        }
    }

    fn unary(&mut self) -> (r: Result<AstNode, ParseError>)
        requires
            old(self).wf(),
        ensures
            final(self).tokens@ == old(self).tokens@,
            outcome(r, final(self).state(), unary(toks(old(self).tokens@), old(self).state())),
            r is Ok ==> final(self).wf() && old(self).current < final(self).current,
        decreases old(self).tokens@.len() - old(self).current, 2nat,
    {
        let op = if self.at(self.current, TokenType::Bang) {
            Some(UnaryOp::Not)
        } else if self.at(self.current, TokenType::Minus) {
            Some(UnaryOp::Negate)
        } else {
            None
        };
        match op {
            Some(operator) => {
                self.current = self.current + 1;
                match self.unary() {
                    Ok(e) => Ok(AstNode::Unary { operator, operand: Box::new(e) }),
                    Err(e) => Err(e),
                }
            },
            None => self.primary(),
        }
    }

    fn operand(&mut self, level: u8) -> (r: Result<AstNode, ParseError>)
        requires
            old(self).wf(),
        ensures
            final(self).tokens@ == old(self).tokens@,
            outcome(r, final(self).state(), operand(toks(old(self).tokens@), old(self).state(), level as nat)),
            r is Ok ==> final(self).wf() && old(self).current < final(self).current,
        decreases old(self).tokens@.len() - old(self).current, 2 * level + 3,
    {
        if 3 < level && level <= 8 {
            self.binary_level(level - 1)
        } else {
            self.unary()
        }
    }

    fn binary_level(&mut self, level: u8) -> (r: Result<AstNode, ParseError>)
        requires
            old(self).wf(),
        ensures
            final(self).tokens@ == old(self).tokens@,
            outcome(r, final(self).state(), binary_level(toks(old(self).tokens@), old(self).state(), level as nat)),
            r is Ok ==> final(self).wf() && old(self).current < final(self).current,
        decreases old(self).tokens@.len() - old(self).current, 2 * level + 4,
    {
        match self.operand(level) {
            Ok(l) => self.binary_rest(l, level),
            Err(e) => Err(e),
        }
    }

    fn binary_rest(&mut self, left: AstNode, level: u8) -> (r: Result<AstNode, ParseError>)
        requires
            old(self).wf(),
        ensures
            final(self).tokens@ == old(self).tokens@,
            outcome(r, final(self).state(), binary_rest(toks(old(self).tokens@), left@, old(self).state(), level as nat)),
            r is Ok ==> final(self).wf() && old(self).current <= final(self).current,
        decreases old(self).tokens@.len() - old(self).current, 0nat,
    {
        if self.current >= self.tokens.len() {
            return Ok(left);
        }
        match level_op_exec(level, &self.tokens[self.current]) {
            Some(j) => {
                self.current = self.current + 1;
                match self.operand(level) {
                    Ok(r) => self.binary_rest(join_exec(j, left, r), level),
                    Err(e) => Err(e),
                }
            },
            None => Ok(left),
        }
    }

    fn assignment(&mut self) -> (r: Result<AstNode, ParseError>)
        requires
            old(self).wf(),
        ensures
            final(self).tokens@ == old(self).tokens@,
            outcome(r, final(self).state(), assignment(toks(old(self).tokens@), old(self).state())),
            r is Ok ==> final(self).wf() && old(self).current < final(self).current,
        decreases old(self).tokens@.len() - old(self).current, 22nat,
    {
        match self.identifier_at(self.current) {
            Some(name) => {
                if self.at(self.current + 1, TokenType::Equal) {
                    match self.scope.get_var(&name) {
                        None => Err(ParseError::UndeclaredVariable(name)),
                        Some(_) => {
                            self.current = self.current + 2;
                            match self.assignment() {
                                Ok(v) => {
                                    let n = AstNode::Variable { name: name.clone(), value: Some(Box::new(v)) };
                                    self.scope.set_var(name, n.copy());
                                    Ok(n)
                                },
                                Err(e) => Err(e),
                            }
                        },
                    }
                } else {
                    self.assignment_target_checked()
                }
            },
            None => self.assignment_target_checked(),
        }
    }

    fn assignment_target_checked(&mut self) -> (r: Result<AstNode, ParseError>)
        requires
            old(self).wf(),
        ensures
            final(self).tokens@ == old(self).tokens@,
            outcome(r, final(self).state(), assignment_target_checked(toks(old(self).tokens@), old(self).state())),
            r is Ok ==> final(self).wf() && old(self).current < final(self).current,
        decreases old(self).tokens@.len() - old(self).current, 21nat,
    {
        match self.binary_level(8) {
            Ok(e) => if self.at(self.current, TokenType::Equal) {
                Err(ParseError::InvalidAssignmentTarget)
            } else {
                Ok(e)
            },
            Err(e) => Err(e),
        }
    }

    fn expression(&mut self) -> (r: Result<AstNode, ParseError>)
        requires
            old(self).wf(),
        ensures
            final(self).tokens@ == old(self).tokens@,
            outcome(r, final(self).state(), expression(toks(old(self).tokens@), old(self).state())),
            r is Ok ==> final(self).wf() && old(self).current < final(self).current,
        decreases old(self).tokens@.len() - old(self).current, 23nat,
    {
        self.assignment()
    }

    fn terminated(&mut self, n: AstNode, rule: Rule) -> (r: Result<AstNode, ParseError>)
        requires
            old(self).wf(),
        ensures
            final(self).tokens@ == old(self).tokens@,
            outcome(r, final(self).state(), terminated(toks(old(self).tokens@), old(self).state(), n@, rule)),
            r is Ok ==> final(self).wf() && old(self).current <= final(self).current,
    {
        if self.at(self.current, TokenType::Semicolon) {
            self.current = self.current + 1;
            Ok(n)
        } else if self.current >= self.tokens.len() {
            Ok(n)
        } else {
            Err(ParseError::Unexpected { found: self.peek_copy(self.current), rule })
        }
    }

    #[verifier::rlimit(40)]
    fn if_statement(&mut self) -> (r: Result<AstNode, ParseError>)
        requires
            old(self).wf(),
            old(self).current < old(self).tokens@.len(),
        ensures
            final(self).tokens@ == old(self).tokens@,
            outcome(r, final(self).state(), if_statement(toks(old(self).tokens@), old(self).state())),
            r is Ok ==> final(self).wf() && old(self).current < final(self).current,
        decreases old(self).tokens@.len() - old(self).current, 24nat,
    {
        self.current = self.current + 1;
        let c = match self.expression() {
            Ok(c) => c,
            Err(e) => return Err(e),
        };
        let t = match self.statement() {
            Ok(t) => t,
            Err(e) => return Err(e),
        };
        if self.at(self.current, TokenType::KeyWord(KeyWord::Else)) {
            self.current = self.current + 1;
            match self.statement() {
                Ok(e) => Ok(AstNode::If {
                    condition: Box::new(c),
                    then_branch: Box::new(t),
                    else_branch: Some(Box::new(e)),
                }),
                Err(e) => Err(e),
            }
        } else {
            Ok(AstNode::If { condition: Box::new(c), then_branch: Box::new(t), else_branch: None })
        }
    }

    fn block_items(&mut self, acc: Vec<AstNode>) -> (r: Result<AstNode, ParseError>)
        requires
            old(self).wf(),
        ensures
            final(self).tokens@ == old(self).tokens@,
            outcome(r, final(self).state(), block_items(toks(old(self).tokens@), old(self).state(), nodes_model(acc@))),
            r is Ok ==> final(self).wf() && old(self).current < final(self).current,
        decreases old(self).tokens@.len() - old(self).current, 27nat,
    {
        if self.at(self.current, TokenType::RightBrace) {
            self.current = self.current + 1;
            self.scope.expire();
            Ok(AstNode::Block(acc))
        } else if self.current >= self.tokens.len() {
            Err(ParseError::Unexpected { found: None, rule: Rule::Block })
        } else {
            match self.declaration() {
                Ok(d) => {
                    let mut acc = acc;
                    let ghost before = acc@;
                    let ghost dm = d@;
                    acc.push(d);
                    assert(acc@.drop_last() =~= before);
                    assert(nodes_model(acc@) == nodes_model(before).push(dm));
                    self.block_items(acc)
                },
                Err(e) => Err(e),
            }
        }
    }

    #[verifier::rlimit(40)]
    fn statement(&mut self) -> (r: Result<AstNode, ParseError>)
        requires
            old(self).wf(),
        ensures
            final(self).tokens@ == old(self).tokens@,
            outcome(r, final(self).state(), statement(toks(old(self).tokens@), old(self).state())),
            r is Ok ==> final(self).wf() && old(self).current < final(self).current,
        decreases old(self).tokens@.len() - old(self).current, 25nat,
    {
        if self.at(self.current, TokenType::KeyWord(KeyWord::Print)) {
            self.current = self.current + 1;
            match self.expression() {
                Ok(e) => self.terminated(AstNode::Print(Box::new(e)), Rule::PrintStatement),
                Err(e) => Err(e),
            }
        } else if self.at(self.current, TokenType::LeftBrace) {
            self.current = self.current + 1;
            self.scope.forward();
            self.block_items(Vec::new())
        } else if self.at(self.current, TokenType::KeyWord(KeyWord::If)) {
            self.if_statement()
        } else {
            match self.expression() {
                Ok(e) => self.terminated(e, Rule::ExpressionStatement),
                Err(e) => Err(e),
            }
        }
    }

    fn declaration(&mut self) -> (r: Result<AstNode, ParseError>)
        requires
            old(self).wf(),
        ensures
            final(self).tokens@ == old(self).tokens@,
            outcome(r, final(self).state(), declaration(toks(old(self).tokens@), old(self).state())),
            r is Ok ==> final(self).wf() && old(self).current < final(self).current,
        decreases old(self).tokens@.len() - old(self).current, 26nat,
    {
        if self.at(self.current, TokenType::KeyWord(KeyWord::Var)) {
            match self.identifier_at(self.current + 1) {
                Some(name) => {
                    if self.at(self.current + 2, TokenType::Equal) {
                        self.current = self.current + 3;
                        match self.expression() {
                            Ok(v) => {
                                let n = AstNode::Variable { name: name.clone(), value: Some(Box::new(v)) };
                                self.scope.add_var(name, n.copy());
                                self.terminated(n, Rule::VarDeclaration)
                            },
                            Err(e) => Err(e),
                        }
                    } else {
                        let n = AstNode::Variable { name: name.clone(), value: None };
                        self.current = self.current + 2;
                        self.scope.add_var(name, n.copy());
                        self.terminated(n, Rule::VarDeclaration)
                    }
                },
                None => Err(ParseError::Unexpected { found: self.peek_copy(self.current + 1), rule: Rule::VarDeclaration }),
            }
        } else {
            self.statement()
        }
    }

    /// Parses declarations from the current position to the end of the input.
    #[verifier::rlimit(40)]
    pub fn parse(&mut self) -> (r: Result<Vec<AstNode>, ParseError>)
        requires
            old(self).wf(),
        ensures
            match r {
                Ok(ns) => program_from(old(self).token_models(), old(self).state(), Seq::empty())
                    == Ok::<Seq<Node>, ParseFailure>(nodes_model(ns@)),
                Err(e) => program_from(old(self).token_models(), old(self).state(), Seq::empty())
                    == Err::<Seq<Node>, ParseFailure>(e@),
            },
    {
        let ghost ts = toks(self.tokens@);
        let ghost st0 = self.state();
        let mut out: Vec<AstNode> = Vec::new();
        assert(nodes_model(out@) =~= Seq::<Node>::empty());
        while self.current < self.tokens.len()
            invariant
                self.wf(),
                ts == toks(self.tokens@),
                ts == old(self).token_models(),
                st0 == old(self).state(),
                program_from(ts, st0, Seq::empty()) == program_from(ts, self.state(), nodes_model(out@)),
            decreases self.tokens@.len() - self.current,
        {
            let ghost stb = self.state();
            match self.declaration() {
                Ok(d) => {
                    let ghost before = out@;
                    let ghost dm = d@;
                    out.push(d);
                    assert(out@.drop_last() =~= before);
                    assert(nodes_model(out@) == nodes_model(before).push(dm));
                },
                Err(e) => {
                    assert(program_from(ts, stb, nodes_model(out@)) == Err::<Seq<Node>, ParseFailure>(e@));
                    return Err(e);
                },
            }
        }
        Ok(out)
    }
}

/// Parses a whole program: the top-level statements of `tokens`, which hold
/// no whitespace tokens, or the first error.
pub fn parse_tokens(tokens: Vec<TokenType>) -> (r: Result<Vec<AstNode>, ParseError>)
    ensures
        match r {
            Ok(ns) => parse_program(toks(tokens@)) == Ok::<Seq<Node>, ParseFailure>(nodes_model(ns@)),
            Err(e) => parse_program(toks(tokens@)) == Err::<Seq<Node>, ParseFailure>(e@),
        },
{
    let mut parser = Parser::new(tokens);
    parser.parse()
}

proof fn lemma_level_undeclared(ts: Seq<Tok>, st: PState, level: nat, name: Seq<char>)
    requires
        peek(ts, st.pos) == Some(Tok::Identifier(name)),
        lookup(st.env, name) is None,
    ensures
        binary_level(ts, st, level) == Err::<(Node, PState), ParseFailure>(
            ParseFailure::UndeclaredVariable(name),
        ),
        operand(ts, st, level) == Err::<(Node, PState), ParseFailure>(
            ParseFailure::UndeclaredVariable(name),
        ),
    decreases level,
{
    if 3 < level <= 8 {
        lemma_level_undeclared(ts, st, (level - 1) as nat, name);
    } else {
        assert(primary(ts, st) == Err::<(Node, PState), ParseFailure>(
            ParseFailure::UndeclaredVariable(name),
        ));
        assert(unary(ts, st) == primary(ts, st));
    }
    assert(operand(ts, st, level) == Err::<(Node, PState), ParseFailure>(
        ParseFailure::UndeclaredVariable(name),
    ));
}

/// Names resolve while parsing: an expression that starts with a name that no
/// enclosing scope binds at that point fails with `UndeclaredVariable`, also
/// when a later declaration binds the name.
pub proof fn lemma_undeclared_reference(ts: Seq<Tok>, st: PState, name: Seq<char>)
    requires
        peek(ts, st.pos) == Some(Tok::Identifier(name)),
        lookup(st.env, name) is None,
    ensures
        expression(ts, st) == Err::<(Node, PState), ParseFailure>(
            ParseFailure::UndeclaredVariable(name),
        ),
{
    lemma_level_undeclared(ts, st, 8, name);
    assert(assignment_target_checked(ts, st) == Err::<(Node, PState), ParseFailure>(
        ParseFailure::UndeclaredVariable(name),
    ));
    assert(assignment(ts, st) == Err::<(Node, PState), ParseFailure>(
        ParseFailure::UndeclaredVariable(name),
    ));
}

} // verus!
