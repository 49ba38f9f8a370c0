//! The syntax tree that the parser builds and the evaluator walks.
use vstd::prelude::*;

use crate::token::{int_text, integer_text, Number};

verus! {

broadcast use {vstd::std_specs::vec::group_vec_axioms, vstd::seq::group_seq_axioms};

/// Operators of binary expressions.
#[derive(Debug, Clone, Copy, PartialEq, Eq, Structural)]
pub enum BinaryOp {
    Add,
    Sub,
    Mul,
    Div,
    Greater,
    Less,
    GreaterEqual,
    LessEqual,
    EqualEqual,
    BangEqual,
}

/// Operators of unary expressions.
#[derive(Debug, Clone, Copy, PartialEq, Eq, Structural)]
pub enum UnaryOp {
    /// `!`
    Not,
    /// `-`
    Negate,
}

/// A node of the syntax tree. Each node owns its children.
#[derive(Debug)]
pub enum AstNode {
    Binary { left: Box<AstNode>, operator: BinaryOp, right: Box<AstNode> },
    Boolean(bool),
    Group(Box<AstNode>),
    Nil,
    Number(Number),
    String(String),
    Unary { operator: UnaryOp, operand: Box<AstNode> },
    Print(Box<AstNode>),
    /// A declaration, an assignment, or a reference carrying the value bound
    /// to the name where it was parsed.
    Variable { name: String, value: Option<Box<AstNode>> },
    Block(Vec<AstNode>),
    If { condition: Box<AstNode>, then_branch: Box<AstNode>, else_branch: Option<Box<AstNode>> },
    Or { left: Box<AstNode>, right: Box<AstNode> },
    And { left: Box<AstNode>, right: Box<AstNode> },
}

/// The mathematical model of a syntax tree.
pub enum Node {
    Binary { left: Box<Node>, operator: BinaryOp, right: Box<Node> },
    Boolean(bool),
    Group(Box<Node>),
    Nil,
    Number(Number),
    Str(Seq<char>),
    Unary { operator: UnaryOp, operand: Box<Node> },
    Print(Box<Node>),
    Variable { name: Seq<char>, value: Option<Box<Node>> },
    Block(Seq<Node>),
    If { condition: Box<Node>, then_branch: Box<Node>, else_branch: Option<Box<Node>> },
    Or { left: Box<Node>, right: Box<Node> },
    And { left: Box<Node>, right: Box<Node> },
}

impl AstNode {
    pub open spec fn model(&self) -> Node
        decreases self,
    {
        match self {
            AstNode::Binary { left, operator, right } => Node::Binary {
                left: Box::new(left.model()),
                operator: *operator,
                right: Box::new(right.model()),
            },
            AstNode::Boolean(b) => Node::Boolean(*b),
            AstNode::Group(e) => Node::Group(Box::new(e.model())),
            AstNode::Nil => Node::Nil,
            AstNode::Number(n) => Node::Number(*n),
            AstNode::String(s) => Node::Str(s@),
            AstNode::Unary { operator, operand } => Node::Unary {
                operator: *operator,
                operand: Box::new(operand.model()),
            },
            AstNode::Print(e) => Node::Print(Box::new(e.model())),
            AstNode::Variable { name, value } => Node::Variable {
                name: name@,
                value: match value {
                    Some(v) => Some(Box::new(v.model())),
                    None => None,
                },
            },
            AstNode::Block(nodes) => Node::Block(nodes_model(nodes@)),
            AstNode::If { condition, then_branch, else_branch } => Node::If {
                condition: Box::new(condition.model()),
                then_branch: Box::new(then_branch.model()),
                else_branch: match else_branch {
                    Some(e) => Some(Box::new(e.model())),
                    None => None,
                },
            },
            AstNode::Or { left, right } => Node::Or {
                left: Box::new(left.model()),
                right: Box::new(right.model()),
            },
            AstNode::And { left, right } => Node::And {
                left: Box::new(left.model()),
                right: Box::new(right.model()),
            },
        }
    }
}

impl View for AstNode {
    type V = Node;

    open spec fn view(&self) -> Node {
        self.model()
    }
}

/// The models of a sequence of nodes.
pub open spec fn nodes_model(ns: Seq<AstNode>) -> Seq<Node>
    decreases ns,
{
    if ns.len() == 0 {
        Seq::empty()
    } else {
        nodes_model(ns.drop_last()).push(ns.last().model())
    }
}

pub proof fn lemma_nodes_model(ns: Seq<AstNode>)
    ensures
        nodes_model(ns).len() == ns.len(),
        forall|j: int| 0 <= j < ns.len() ==> #[trigger] nodes_model(ns)[j] == ns[j]@,
    decreases ns.len(),
{
    if ns.len() > 0 {
        lemma_nodes_model(ns.drop_last());
    }
}

impl AstNode {
    /// A copy of this tree with the same model.
    pub fn copy(&self) -> (r: AstNode)
        ensures
            r@ == self@,
        decreases self,
    {
        match self {
            AstNode::Binary { left, operator, right } => AstNode::Binary {
                left: Box::new(left.copy()),
                operator: *operator,
                right: Box::new(right.copy()),
            },
            AstNode::Boolean(b) => AstNode::Boolean(*b),
            AstNode::Group(e) => AstNode::Group(Box::new(e.copy())),
            AstNode::Nil => AstNode::Nil,
            AstNode::Number(n) => AstNode::Number(*n),
            AstNode::String(s) => AstNode::String(s.clone()),
            AstNode::Unary { operator, operand } => AstNode::Unary {
                operator: *operator,
                operand: Box::new(operand.copy()),
            },
            AstNode::Print(e) => AstNode::Print(Box::new(e.copy())),
            AstNode::Variable { name, value } => AstNode::Variable {
                name: name.clone(),
                value: match value {
                    Some(v) => Some(Box::new(v.copy())),
                    None => None,
                },
            },
            AstNode::Block(nodes) => {
                let mut out: Vec<AstNode> = Vec::new();
                let mut i: usize = 0;
                while i < nodes.len()
                    invariant
                        *self == AstNode::Block(*nodes),
                        i <= nodes@.len(),
                        out@.len() == i,
                        forall|j: int| 0 <= j < i ==> (#[trigger] out@[j])@ == nodes@[j]@,
                    decreases nodes@.len() - i,
                {
                    proof {
                        assert(decreases_to!(*self => self->Block_0));
                        assert(decreases_to!(*nodes => nodes[i as int]));
                    }
                    out.push(nodes[i].copy());
                    i += 1;
                }
                let r = AstNode::Block(out);
                assert(r@ == self@) by {
                    lemma_nodes_model(out@);
                    lemma_nodes_model(nodes@);
                    assert(nodes_model(out@) =~= nodes_model(nodes@));
                }
                r
            },
            AstNode::If { condition, then_branch, else_branch } => AstNode::If {
                condition: Box::new(condition.copy()),
                then_branch: Box::new(then_branch.copy()),
                else_branch: match else_branch {
                    Some(e) => Some(Box::new(e.copy())),
                    None => None,
                },
            },
            AstNode::Or { left, right } => AstNode::Or {
                left: Box::new(left.copy()),
                right: Box::new(right.copy()),
            },
            AstNode::And { left, right } => AstNode::And {
                left: Box::new(left.copy()),
                right: Box::new(right.copy()),
            },
        }
    }
}

pub open spec fn binary_op_text(op: BinaryOp) -> Seq<char> {
    match op {
        BinaryOp::Add => "+"@,
        BinaryOp::Sub => "-"@,
        BinaryOp::Mul => "*"@,
        BinaryOp::Div => "/"@,
        BinaryOp::Greater => ">"@,
        BinaryOp::Less => "<"@,
        BinaryOp::GreaterEqual => ">="@,
        BinaryOp::LessEqual => "<="@,
        BinaryOp::EqualEqual => "=="@,
        BinaryOp::BangEqual => "!="@,
    }
}

pub open spec fn unary_op_text(op: UnaryOp) -> Seq<char> {
    match op {
        UnaryOp::Not => "!"@,
        UnaryOp::Negate => "-"@,
    }
}

/// The text of a number; `ft` writes a float from its bit pattern.
pub open spec fn number_text(n: Number, ft: spec_fn(u64) -> Seq<char>) -> Seq<char> {
    match n {
        Number::Integer(i) => int_text(i as int),
        Number::Float(b) => ft(b),
    }
}

/// The prefix text of a tree: operators first, in parentheses.
pub open spec fn node_text(n: Node, ft: spec_fn(u64) -> Seq<char>) -> Seq<char>
    decreases n,
{
    match n {
        Node::Binary { left, operator, right } => "("@ + binary_op_text(operator) + " "@ + node_text(
            *left,
            ft,
        ) + " "@ + node_text(*right, ft) + ")"@,
        Node::Boolean(b) => if b { "true"@ } else { "false"@ },
        Node::Group(e) => "(group "@ + node_text(*e, ft) + ")"@,
        Node::Nil => "nil"@,
        Node::Number(x) => number_text(x, ft),
        Node::Str(x) => x,
        Node::Unary { operator, operand } => "("@ + unary_op_text(operator) + " "@ + node_text(
            *operand,
            ft,
        ) + ")"@,
        Node::Print(e) => "Print "@ + node_text(*e, ft),
        Node::Variable { name, value } => match value {
            Some(v) => "Variable "@ + name + " = "@ + node_text(*v, ft),
            None => "Variable "@ + name + " = None"@,
        },
        Node::Block(ns) => "Block ["@ + nodes_text(ns, ft) + "]"@,
        Node::If { condition, then_branch, else_branch } => "If (condition: "@ + node_text(
            *condition,
            ft,
        ) + ", then: "@ + node_text(*then_branch, ft) + match else_branch {
            Some(e) => ", else: "@ + node_text(*e, ft),
            None => ", else: None"@,
        } + ")"@,
        Node::Or { left, right } => "(or "@ + node_text(*left, ft) + " "@ + node_text(*right, ft)
            + ")"@,
        Node::And { left, right } => "(and "@ + node_text(*left, ft) + " "@ + node_text(*right, ft)
            + ")"@,
    }
}

/// The texts of a block's statements, each followed by `", "`.
pub open spec fn nodes_text(ns: Seq<Node>, ft: spec_fn(u64) -> Seq<char>) -> Seq<char>
    decreases ns,
{
    if ns.len() == 0 {
        Seq::empty()
    } else {
        nodes_text(ns.drop_last(), ft) + node_text(ns.last(), ft) + ", "@
    }
}

/// Whether `f` writes floats as a function of their bit pattern.
pub open spec fn writes_floats<F: Fn(u64) -> String>(f: F) -> bool {
    &&& forall|b: u64| #[trigger] f.requires((b,))
    &&& forall|b: u64, r1: String, r2: String|
        #![trigger f.ensures((b,), r1), f.ensures((b,), r2)]
        f.ensures((b,), r1) && f.ensures((b,), r2) ==> r1@ == r2@
}

/// Whether `f` may write `t` for the float `b`.
pub open spec fn writes_as<F: Fn(u64) -> String>(f: F, b: u64, t: Seq<char>) -> bool {
    exists|r: String| r@ == t && #[trigger] f.ensures((b,), r)
}

/// The text that `f` writes for a float.
pub open spec fn float_writer<F: Fn(u64) -> String>(f: F) -> spec_fn(u64) -> Seq<char> {
    |b: u64| choose|t: Seq<char>| #[trigger] writes_as(f, b, t)
}

fn write_float<F: Fn(u64) -> String>(f: &F, b: u64) -> (r: String)
    requires
        writes_floats(*f),
    ensures
        r@ == float_writer(*f)(b),
{
    let r = f(b);
    proof {
        assert(writes_as(*f, b, r@));
        let t = float_writer(*f)(b);
        assert(writes_as(*f, b, t));
        let w = choose|w: String| w@ == t && f.ensures((b,), w);
        assert(f.ensures((b,), w) && f.ensures((b,), r));
    }
    r
}

fn binary_op_str(op: BinaryOp) -> (r: &'static str)
    ensures
        r@ == binary_op_text(op),
{
    match op {
        BinaryOp::Add => "+",
        BinaryOp::Sub => "-",
        BinaryOp::Mul => "*",
        BinaryOp::Div => "/",
        BinaryOp::Greater => ">",
        BinaryOp::Less => "<",
        BinaryOp::GreaterEqual => ">=",
        BinaryOp::LessEqual => "<=",
        BinaryOp::EqualEqual => "==",
        BinaryOp::BangEqual => "!=",
    }
}

impl AstNode {
    /// The prefix text of this tree; `float_text` writes a float from its
    /// bit pattern.
    pub fn to_text<F: Fn(u64) -> String>(&self, float_text: &F) -> (r: String)
        requires
            writes_floats(*float_text),
        ensures
            r@ == node_text(self@, float_writer(*float_text)),
        decreases self,
    {
        let ghost ft = float_writer(*float_text);
        match self {
            AstNode::Binary { left, operator, right } => {
                let mut r = "(".to_owned();
                r.append(binary_op_str(*operator));
                r.append(" ");
                r.append(left.to_text(float_text).as_str());
                r.append(" ");
                r.append(right.to_text(float_text).as_str());
                r.append(")");
                assert(r@ =~= node_text(self@, ft));
                r
            },
            AstNode::Boolean(b) => if *b { "true".to_owned() } else { "false".to_owned() },
            AstNode::Group(e) => {
                let mut r = "(group ".to_owned();
                r.append(e.to_text(float_text).as_str());
                r.append(")");
                assert(r@ =~= node_text(self@, ft));
                r
            },
            AstNode::Nil => "nil".to_owned(),
            AstNode::Number(Number::Integer(i)) => integer_text(*i),
            AstNode::Number(Number::Float(b)) => write_float(float_text, *b),
            AstNode::String(x) => x.clone(),
            AstNode::Unary { operator, operand } => {
                let mut r = "(".to_owned();
                match operator {
                    UnaryOp::Not => r.append("!"),
                    UnaryOp::Negate => r.append("-"),
                }
                r.append(" ");
                r.append(operand.to_text(float_text).as_str());
                r.append(")");
                assert(r@ =~= node_text(self@, ft));
                r
            },
            AstNode::Print(e) => {
                let mut r = "Print ".to_owned();
                r.append(e.to_text(float_text).as_str());
                assert(r@ =~= node_text(self@, ft));
                r
            },
            AstNode::Variable { name, value } => {
                let mut r = "Variable ".to_owned();
                r.append(name.as_str());
                match value {
                    Some(v) => {
                        r.append(" = ");
                        r.append(v.to_text(float_text).as_str());
                    },
                    None => r.append(" = None"),
                }
                assert(r@ =~= node_text(self@, ft));
                r
            },
            AstNode::Block(nodes) => {
                let ghost ms = nodes_model(nodes@);
                proof {
                    lemma_nodes_model(nodes@);
                }
                let mut r = "Block [".to_owned();
                let mut i: usize = 0;
                assert(ms.subrange(0, 0) =~= Seq::<Node>::empty());
                assert(r@ =~= "Block ["@ + nodes_text(ms.subrange(0, 0), ft));
                while i < nodes.len()
                    invariant
                        *self == AstNode::Block(*nodes),
                        writes_floats(*float_text),
                        ft == float_writer(*float_text),
                        ms == nodes_model(nodes@),
                        ms.len() == nodes@.len(),
                        forall|j: int| 0 <= j < nodes@.len() ==> #[trigger] ms[j] == nodes@[j]@,
                        i <= nodes@.len(),
                        r@ == "Block ["@ + nodes_text(ms.subrange(0, i as int), ft),
                    decreases nodes@.len() - i,
                {
                    proof {
                        assert(decreases_to!(*self => self->Block_0));
                        assert(decreases_to!(*nodes => nodes[i as int]));
                    }
                    let ghost before = r@;
                    r.append(nodes[i].to_text(float_text).as_str());
                    r.append(", ");
                    proof {
                        let sub = ms.subrange(0, i + 1);
                        assert(sub.drop_last() =~= ms.subrange(0, i as int));
                        assert(sub.last() == nodes@[i as int]@);
                        assert(r@ =~= "Block ["@ + nodes_text(sub, ft));
                    }
                    i += 1;
                }
                r.append("]");
                assert(ms.subrange(0, ms.len() as int) =~= ms);
                assert(r@ =~= node_text(self@, ft));
                r
            },
            AstNode::If { condition, then_branch, else_branch } => {
                let mut r = "If (condition: ".to_owned();
                r.append(condition.to_text(float_text).as_str());
                r.append(", then: ");
                r.append(then_branch.to_text(float_text).as_str());
                match else_branch {
                    Some(e) => {
                        r.append(", else: ");
                        r.append(e.to_text(float_text).as_str());
                    },
                    None => r.append(", else: None"),
                }
                r.append(")");
                assert(r@ =~= node_text(self@, ft));
                r
            },
            AstNode::Or { left, right } => {
                let mut r = "(or ".to_owned();
                r.append(left.to_text(float_text).as_str());
                r.append(" ");
                r.append(right.to_text(float_text).as_str());
                r.append(")");
                assert(r@ =~= node_text(self@, ft));
                r
            },
            AstNode::And { left, right } => {
                let mut r = "(and ".to_owned();
                r.append(left.to_text(float_text).as_str());
                r.append(" ");
                r.append(right.to_text(float_text).as_str());
                r.append(")");
                assert(r@ =~= node_text(self@, ft));
                r
            },
        }
    }
}

} // verus!
