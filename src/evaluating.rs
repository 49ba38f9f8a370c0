//! The tree-walking evaluator.
use vstd::prelude::*;

use crate::ast::{
    float_writer, lemma_nodes_model, nodes_model, number_text, writes_floats, AstNode, BinaryOp, Node,
    UnaryOp,
};
use crate::token::Number;

verus! {

broadcast use {vstd::std_specs::vec::group_vec_axioms, vstd::seq::group_seq_axioms};

/// A runtime value.
#[derive(Debug, Clone, PartialEq)]
pub enum EvaluateResult {
    Boolean(bool),
    Number(Number),
    String(String),
    Nil,
}

/// The mathematical model of a runtime value.
pub enum Val {
    Boolean(bool),
    Number(Number),
    Str(Seq<char>),
    Nil,
}

impl View for EvaluateResult {
    type V = Val;

    open spec fn view(&self) -> Val {
        match self {
            EvaluateResult::Boolean(b) => Val::Boolean(*b),
            EvaluateResult::Number(n) => Val::Number(*n),
            EvaluateResult::String(s) => Val::Str(s@),
            EvaluateResult::Nil => Val::Nil,
        }
    }
}

/// Why evaluation stopped.
#[derive(Debug, Clone, Copy, PartialEq, Eq, Structural)]
pub enum EvalError {
    /// An integer and a float meet in one operation.
    MixedNumberKinds,
    /// The two operands of a binary operator are of kinds it does not join.
    MismatchedOperands,
    /// The operator is not defined for the kind of its operands.
    UndefinedOperator,
    /// A condition or an operand of `and` / `or` is not a boolean.
    NotBoolean,
    /// Integer arithmetic left the 64-bit range.
    IntegerOverflow,
    /// Integer division by zero.
    DivisionByZero,
}

pub open spec fn vals(vs: Seq<EvaluateResult>) -> Seq<Val> {
    vs.map_values(|v: EvaluateResult| v@)
}

pub open spec fn result_model(r: Result<EvaluateResult, EvalError>) -> Result<Val, EvalError> {
    match r {
        Ok(v) => Ok(v@),
        Err(e) => Err(e),
    }
}

pub const SIGN_BIT: u64 = 0x8000_0000_0000_0000;

pub const EXPONENT_MASK: u64 = 0x7FF0_0000_0000_0000;

/// The bits of a float but its sign.
pub open spec fn float_magnitude(b: u64) -> u64 {
    if b >= SIGN_BIT { (b - SIGN_BIT) as u64 } else { b }
}

/// Whether a float bit pattern is a NaN.
pub open spec fn float_is_nan(b: u64) -> bool {
    float_magnitude(b) > EXPONENT_MASK
}

/// A key that orders non-NaN floats as their values do; both zeros get 0.
pub open spec fn float_key(b: u64) -> int {
    if b >= SIGN_BIT { -(float_magnitude(b) as int) } else { float_magnitude(b) as int }
}

/// The sign of `x - y`.
pub open spec fn sign_of(d: int) -> int {
    if d < 0 { -1 } else if d > 0 { 1 } else { 0 }
}

/// How two floats compare: `None` when either is NaN, else the sign of
/// their difference.
pub open spec fn float_compare(a: u64, b: u64) -> Option<int> {
    if float_is_nan(a) || float_is_nan(b) {
        None
    } else {
        Some(sign_of(float_key(a) - float_key(b)))
    }
}

/// The negation of a float: its sign bit flipped.
pub open spec fn float_negate(b: u64) -> u64 {
    if b >= SIGN_BIT { (b - SIGN_BIT) as u64 } else { (b + SIGN_BIT) as u64 }
}

pub open spec fn is_arithmetic(op: BinaryOp) -> bool {
    op is Add || op is Sub || op is Mul || op is Div
}

/// Whether a comparison operator holds, given how its operands compare.
pub open spec fn comparison_holds(op: BinaryOp, c: Option<int>) -> bool {
    match op {
        BinaryOp::Greater => c == Some(1int),
        BinaryOp::Less => c == Some(-1int),
        BinaryOp::GreaterEqual => c == Some(1int) || c == Some(0int),
        BinaryOp::LessEqual => c == Some(-1int) || c == Some(0int),
        BinaryOp::EqualEqual => c == Some(0int),
        _ => c != Some(0int),
    }
}

pub open spec fn checked_integer(r: Option<i64>) -> Result<Val, EvalError> {
    match r {
        Some(v) => Ok(Val::Number(Number::Integer(v))),
        None => Err(EvalError::IntegerOverflow),
    }
}

/// A binary operator on two numbers; `fa` gives float arithmetic.
pub open spec fn number_binary(
    op: BinaryOp,
    a: Number,
    b: Number,
    fa: spec_fn(BinaryOp, u64, u64) -> u64,
) -> Result<Val, EvalError> {
    match (a, b) {
        (Number::Integer(x), Number::Integer(y)) => match op {
            BinaryOp::Add => checked_integer(x.checked_add(y)),
            BinaryOp::Sub => checked_integer(x.checked_sub(y)),
            BinaryOp::Mul => checked_integer(x.checked_mul(y)),
            BinaryOp::Div => if y == 0 {
                Err(EvalError::DivisionByZero)
            } else {
                checked_integer(x.checked_div(y))
            },
            _ => Ok(Val::Boolean(comparison_holds(op, Some(sign_of(x - y))))),
        },
        (Number::Float(x), Number::Float(y)) => if is_arithmetic(op) {
            Ok(Val::Number(Number::Float(fa(op, x, y))))
        } else {
            Ok(Val::Boolean(comparison_holds(op, float_compare(x, y))))
        },
        _ => Err(EvalError::MixedNumberKinds),
    }
}

/// A binary operator on two values.
pub open spec fn binary_value(
    op: BinaryOp,
    a: Val,
    b: Val,
    fa: spec_fn(BinaryOp, u64, u64) -> u64,
) -> Result<Val, EvalError> {
    match (a, b) {
        (Val::Number(x), Val::Number(y)) => number_binary(op, x, y, fa),
        (Val::Str(x), Val::Str(y)) => match op {
            BinaryOp::Add => Ok(Val::Str(x + y)),
            BinaryOp::EqualEqual => Ok(Val::Boolean(x == y)),
            _ => Err(EvalError::UndefinedOperator),
        },
        _ => Err(EvalError::MismatchedOperands),
    }
}

/// A unary operator on a value.
pub open spec fn unary_value(op: UnaryOp, a: Val) -> Result<Val, EvalError> {
    match (op, a) {
        (UnaryOp::Negate, Val::Number(Number::Integer(x))) => checked_integer(
            0i64.checked_sub(x),
        ),
        (UnaryOp::Negate, Val::Number(Number::Float(x))) => Ok(
            Val::Number(Number::Float(float_negate(x))),
        ),
        (UnaryOp::Not, Val::Boolean(b)) => Ok(Val::Boolean(!b)),
        _ => Err(EvalError::UndefinedOperator),
    }
}

/// What evaluating a node gives: its value or an error, and the values that
/// `print` emitted, in order. Children are evaluated left to right; `or` and
/// `and` skip their right operand when the left one decides.
pub open spec fn eval(n: Node, fa: spec_fn(BinaryOp, u64, u64) -> u64) -> (
    Result<Val, EvalError>,
    Seq<Val>,
)
    decreases n,
{
    match n {
        Node::Boolean(b) => (Ok(Val::Boolean(b)), Seq::empty()),
        Node::Number(x) => (Ok(Val::Number(x)), Seq::empty()),
        Node::Str(s) => (Ok(Val::Str(s)), Seq::empty()),
        Node::Nil => (Ok(Val::Nil), Seq::empty()),
        Node::Group(e) => eval(*e, fa),
        Node::Print(e) => {
            let (r, p) = eval(*e, fa);
            match r {
                Ok(v) => (Ok(v), p.push(v)),
                Err(err) => (Err(err), p),
            }
        },
        Node::Variable { name, value } => match value {
            Some(v) => eval(*v, fa),
            None => (Ok(Val::Nil), Seq::empty()),
        },
        Node::Block(ns) => eval_block(ns, fa),
        Node::Binary { left, operator, right } => {
            let (rl, pl) = eval(*left, fa);
            match rl {
                Err(e) => (Err(e), pl),
                Ok(a) => {
                    let (rr, pr) = eval(*right, fa);
                    match rr {
                        Err(e) => (Err(e), pl + pr),
                        Ok(b) => (binary_value(operator, a, b, fa), pl + pr),
                    }
                },
            }
        },
        Node::Unary { operator, operand } => {
            let (r, p) = eval(*operand, fa);
            match r {
                Err(e) => (Err(e), p),
                Ok(a) => (unary_value(operator, a), p),
            }
        },
        Node::If { condition, then_branch, else_branch } => {
            let (rc, pc) = eval(*condition, fa);
            match rc {
                Ok(Val::Boolean(true)) => {
                    let (r, p) = eval(*then_branch, fa);
                    (r, pc + p)
                },
                Ok(Val::Boolean(false)) => match else_branch {
                    Some(e) => {
                        let (r, p) = eval(*e, fa);
                        (r, pc + p)
                    },
                    None => (Ok(Val::Nil), pc),
                },
                Ok(_) => (Err(EvalError::NotBoolean), pc),
                Err(e) => (Err(e), pc),
            }
        },
        Node::Or { left, right } => {
            let (rl, pl) = eval(*left, fa);
            match rl {
                Ok(Val::Boolean(true)) => (Ok(Val::Boolean(true)), pl),
                Ok(Val::Boolean(false)) => {
                    let (rr, pr) = eval(*right, fa);
                    match rr {
                        Ok(Val::Boolean(b)) => (Ok(Val::Boolean(b)), pl + pr),
                        Ok(_) => (Err(EvalError::NotBoolean), pl + pr),
                        Err(e) => (Err(e), pl + pr),
                    }
                },
                Ok(_) => (Err(EvalError::NotBoolean), pl),
                Err(e) => (Err(e), pl),
            }
        },
        Node::And { left, right } => {
            let (rl, pl) = eval(*left, fa);
            match rl {
                Ok(Val::Boolean(false)) => (Ok(Val::Boolean(false)), pl),
                Ok(Val::Boolean(true)) => {
                    let (rr, pr) = eval(*right, fa);
                    match rr {
                        Ok(Val::Boolean(b)) => (Ok(Val::Boolean(b)), pl + pr),
                        Ok(_) => (Err(EvalError::NotBoolean), pl + pr),
                        Err(e) => (Err(e), pl + pr),
                    }
                },
                Ok(_) => (Err(EvalError::NotBoolean), pl),
                Err(e) => (Err(e), pl),
            }
        },
    }
}

/// Evaluating the statements of a block in order: the value of the last one
/// (`Nil` when there is none), or the first error.
pub open spec fn eval_block(ns: Seq<Node>, fa: spec_fn(BinaryOp, u64, u64) -> u64) -> (
    Result<Val, EvalError>,
    Seq<Val>,
)
    decreases ns,
{
    if ns.len() == 0 {
        (Ok(Val::Nil), Seq::empty())
    } else {
        let (r0, earlier) = eval_block(ns.drop_last(), fa);
        match r0 {
            Err(e) => (Err(e), earlier),
            Ok(_) => {
                let (r1, later) = eval(ns.last(), fa);
                (r1, earlier + later)
            },
        }
    }
}

/// Whether `f` does float arithmetic as a function of its arguments: it
/// accepts any arguments and gives equal results on equal arguments.
pub open spec fn computes_floats<A: Fn(BinaryOp, u64, u64) -> u64>(f: A) -> bool {
    &&& forall|op: BinaryOp, x: u64, y: u64| #[trigger] f.requires((op, x, y))
    &&& forall|args: (BinaryOp, u64, u64), r1: u64, r2: u64|
        #![trigger f.ensures(args, r1), f.ensures(args, r2)]
        f.ensures(args, r1) && f.ensures(args, r2) ==> r1 == r2
}

/// The float arithmetic that `f` does.
pub open spec fn float_fn<A: Fn(BinaryOp, u64, u64) -> u64>(f: A) -> spec_fn(BinaryOp, u64, u64) -> u64 {
    |op: BinaryOp, x: u64, y: u64| choose|r: u64| #[trigger] f.ensures((op, x, y), r)
}

fn apply_float<A: Fn(BinaryOp, u64, u64) -> u64>(fa: &A, op: BinaryOp, x: u64, y: u64) -> (r: u64)
    requires
        computes_floats(*fa),
    ensures
        r == float_fn(*fa)(op, x, y),
{
    let r = fa(op, x, y);
    proof {
        let c = float_fn(*fa)(op, x, y);
        assert(fa.ensures((op, x, y), r));
        assert(fa.ensures((op, x, y), c));
    }
    r
}

fn compare_floats(a: u64, b: u64) -> (r: Option<i8>)
    ensures
        match r {
            Some(c) => float_compare(a, b) == Some(c as int),
            None => float_compare(a, b) is None,
        },
{
    let ma = if a >= SIGN_BIT { a - SIGN_BIT } else { a };
    let mb = if b >= SIGN_BIT { b - SIGN_BIT } else { b };
    if ma > EXPONENT_MASK || mb > EXPONENT_MASK {
        return None;
    }
    let ka: i128 = if a >= SIGN_BIT { -(ma as i128) } else { ma as i128 };
    let kb: i128 = if b >= SIGN_BIT { -(mb as i128) } else { mb as i128 };
    if ka < kb {
        Some(-1)
    } else if ka > kb {
        Some(1)
    } else {
        Some(0)
    }
}

fn holds(op: BinaryOp, c: Option<i8>) -> (r: bool)
    ensures
        r == comparison_holds(
            op,
            match c {
                Some(x) => Some(x as int),
                None => None,
            },
        ),
{
    match op {
        BinaryOp::Greater => c == Some(1i8),
        BinaryOp::Less => c == Some(-1i8),
        BinaryOp::GreaterEqual => c == Some(1i8) || c == Some(0i8),
        BinaryOp::LessEqual => c == Some(-1i8) || c == Some(0i8),
        BinaryOp::EqualEqual => c == Some(0i8),
        _ => c != Some(0i8),
    }
}

fn integer_result(r: Option<i64>) -> (out: Result<EvaluateResult, EvalError>)
    ensures
        result_model(out) == checked_integer(r),
{
    match r {
        Some(v) => Ok(EvaluateResult::Number(Number::Integer(v))),
        None => Err(EvalError::IntegerOverflow),
    }
}

fn number_binary_exec<A: Fn(BinaryOp, u64, u64) -> u64>(
    op: BinaryOp,
    a: Number,
    b: Number,
    fa: &A,
) -> (r: Result<EvaluateResult, EvalError>)
    requires
        computes_floats(*fa),
    ensures
        result_model(r) == number_binary(op, a, b, float_fn(*fa)),
{
    match (a, b) {
        (Number::Integer(x), Number::Integer(y)) => match op {
            BinaryOp::Add => integer_result(x.checked_add(y)),
            BinaryOp::Sub => integer_result(x.checked_sub(y)),
            BinaryOp::Mul => integer_result(x.checked_mul(y)),
            BinaryOp::Div => if y == 0 {
                Err(EvalError::DivisionByZero)
            } else {
                integer_result(x.checked_div(y))
            },
            _ => {
                let c: i8 = if x < y { -1 } else if x > y { 1 } else { 0 };
                Ok(EvaluateResult::Boolean(holds(op, Some(c))))
            },
        },
        (Number::Float(x), Number::Float(y)) => match op {
            BinaryOp::Add | BinaryOp::Sub | BinaryOp::Mul | BinaryOp::Div => Ok(
                EvaluateResult::Number(Number::Float(apply_float(fa, op, x, y))),
            ),
            _ => Ok(EvaluateResult::Boolean(holds(op, compare_floats(x, y)))),
        },
        _ => Err(EvalError::MixedNumberKinds),
    }
}

fn binary_exec<A: Fn(BinaryOp, u64, u64) -> u64>(
    op: BinaryOp,
    a: EvaluateResult,
    b: EvaluateResult,
    fa: &A,
) -> (r: Result<EvaluateResult, EvalError>)
    requires
        computes_floats(*fa),
    ensures
        result_model(r) == binary_value(op, a@, b@, float_fn(*fa)),
{
    match (a, b) {
        (EvaluateResult::Number(x), EvaluateResult::Number(y)) => number_binary_exec(op, x, y, fa),
        (EvaluateResult::String(x), EvaluateResult::String(y)) => match op {
            BinaryOp::Add => Ok(EvaluateResult::String(x.concat(y.as_str()))),
            BinaryOp::EqualEqual => Ok(EvaluateResult::Boolean(x == y)),
            _ => Err(EvalError::UndefinedOperator),
        },
        _ => Err(EvalError::MismatchedOperands),
    }
}

fn unary_exec(op: UnaryOp, a: EvaluateResult) -> (r: Result<EvaluateResult, EvalError>)
    ensures
        result_model(r) == unary_value(op, a@),
{
    match (op, a) {
        (UnaryOp::Negate, EvaluateResult::Number(Number::Integer(x))) => integer_result(
            0i64.checked_sub(x),
        ),
        (UnaryOp::Negate, EvaluateResult::Number(Number::Float(x))) => {
            let n = if x >= SIGN_BIT { x - SIGN_BIT } else { x + SIGN_BIT };
            Ok(EvaluateResult::Number(Number::Float(n)))
        },
        (UnaryOp::Not, EvaluateResult::Boolean(b)) => Ok(EvaluateResult::Boolean(!b)),
        _ => Err(EvalError::UndefinedOperator),
    }
}

impl EvaluateResult {
    /// A copy of this value with the same model.
    pub fn copy(&self) -> (r: EvaluateResult)
        ensures
            r@ == self@,
    {
        match self {
            EvaluateResult::Boolean(b) => EvaluateResult::Boolean(*b),
            EvaluateResult::Number(n) => EvaluateResult::Number(*n),
            EvaluateResult::String(s) => EvaluateResult::String(s.clone()),
            EvaluateResult::Nil => EvaluateResult::Nil,
        }
    }
}

proof fn lemma_block_error_sticks(ms: Seq<Node>, k: int, j: int, fa: spec_fn(BinaryOp, u64, u64) -> u64)
    requires
        0 <= k <= j <= ms.len(),
        eval_block(ms.subrange(0, k), fa).0 is Err,
    ensures
        eval_block(ms.subrange(0, j), fa) == eval_block(ms.subrange(0, k), fa),
    decreases j - k,
{
    if j > k {
        lemma_block_error_sticks(ms, k, j - 1, fa);
        assert(ms.subrange(0, j).drop_last() =~= ms.subrange(0, j - 1));
    }
}

/// Evaluates the statements of a block in order.
fn evaluate_block<A: Fn(BinaryOp, u64, u64) -> u64>(
    nodes: &Vec<AstNode>,
    float_arith: &A,
    printed: &mut Vec<EvaluateResult>,
) -> (r: Result<EvaluateResult, EvalError>)
    requires
        computes_floats(*float_arith),
    ensures
        result_model(r) == eval_block(nodes_model(nodes@), float_fn(*float_arith)).0,
        vals(final(printed)@) == vals(old(printed)@) + eval_block(
            nodes_model(nodes@),
            float_fn(*float_arith),
        ).1,
    decreases nodes,
{
    let ghost fa = float_fn(*float_arith);
    let ghost earlier = vals(printed@);
    let ghost ms = nodes_model(nodes@);
    proof {
        lemma_nodes_model(nodes@);
        assert(ms.subrange(0, 0) =~= Seq::<Node>::empty());
        assert(earlier + Seq::<Val>::empty() =~= earlier);
    }
    let mut last = EvaluateResult::Nil;
    let mut i: usize = 0;
    while i < nodes.len()
        invariant
            computes_floats(*float_arith),
            fa == float_fn(*float_arith),
            ms == nodes_model(nodes@),
            earlier == vals(old(printed)@),
            ms.len() == nodes@.len(),
            forall|j: int| 0 <= j < nodes@.len() ==> #[trigger] ms[j] == nodes@[j]@,
            i <= nodes@.len(),
            eval_block(ms.subrange(0, i as int), fa).0 == Ok::<Val, EvalError>(last@),
            vals(printed@) == earlier + eval_block(ms.subrange(0, i as int), fa).1,
        decreases nodes@.len() - i,
    {
        proof {
            assert(decreases_to!(*nodes => nodes[i as int]));
        }
        let ghost before = vals(printed@);
        let r = nodes[i].evaluate(float_arith, printed);
        proof {
            let sub = ms.subrange(0, i + 1);
            assert(sub.drop_last() =~= ms.subrange(0, i as int));
            assert(sub.last() == nodes@[i as int]@);
            let pb = eval_block(ms.subrange(0, i as int), fa).1;
            assert(earlier + (pb + eval(nodes@[i as int]@, fa).1) =~= before + eval(
                nodes@[i as int]@,
                fa,
            ).1);
        }
        match r {
            Ok(v) => {
                last = v;
            },
            Err(e) => {
                proof {
                    let sub = ms.subrange(0, i + 1);
                    assert(sub.drop_last() =~= ms.subrange(0, i as int));
                    assert(eval_block(sub, fa).1 == eval_block(ms.subrange(0, i as int), fa).1 + eval(
                        nodes@[i as int]@,
                        fa,
                    ).1);
                    assert(eval_block(sub, fa).0 is Err);
                    lemma_block_error_sticks(ms, i + 1, ms.len() as int, fa);
                    assert(ms.subrange(0, ms.len() as int) =~= ms);
                }
                return Err(e);
            },
        }
        i += 1;
    }
    proof {
        assert(ms.subrange(0, ms.len() as int) =~= ms);
    }
    Ok(last)
}

impl AstNode {
    /// Evaluates this node. Each value that a `print` emits is appended to
    /// `printed`, in order, also when evaluation fails later on.
    pub fn evaluate<A: Fn(BinaryOp, u64, u64) -> u64>(
        &self,
        float_arith: &A,
        printed: &mut Vec<EvaluateResult>,
    ) -> (r: Result<EvaluateResult, EvalError>)
        requires
            computes_floats(*float_arith),
        ensures
            result_model(r) == eval(self@, float_fn(*float_arith)).0,
            vals(final(printed)@) == vals(old(printed)@) + eval(self@, float_fn(*float_arith)).1,
        decreases self,
    {
        let ghost fa = float_fn(*float_arith);
        let ghost earlier = vals(printed@);
        proof {
            assert(earlier + Seq::<Val>::empty() =~= earlier);
        }
        match self {
            AstNode::Boolean(b) => Ok(EvaluateResult::Boolean(*b)),
            AstNode::Number(n) => Ok(EvaluateResult::Number(*n)),
            AstNode::String(s) => Ok(EvaluateResult::String(s.clone())),
            AstNode::Nil => Ok(EvaluateResult::Nil),
            AstNode::Group(e) => e.evaluate(float_arith, printed),
            AstNode::Print(e) => {
                let r = e.evaluate(float_arith, printed);
                match r {
                    Ok(v) => {
                        let ghost before = printed@;
                        printed.push(v.copy());
                        proof {
                            assert(vals(printed@) =~= vals(before).push(v@));
                            assert(earlier + eval(e@, fa).1.push(v@) =~= (earlier + eval(e@, fa).1).push(
                                v@,
                            ));
                        }
                        Ok(v)
                    },
                    Err(err) => Err(err),
                }
            },
            AstNode::Variable { name: _, value } => match value {
                Some(v) => v.evaluate(float_arith, printed),
                None => Ok(EvaluateResult::Nil),
            },
            AstNode::Block(nodes) => evaluate_block(nodes, float_arith, printed),
            AstNode::Binary { left, operator, right } => {
                let a = left.evaluate(float_arith, printed);
                match a {
                    Err(e) => Err(e),
                    Ok(a) => {
                        let b = right.evaluate(float_arith, printed);
                        proof {
                            assert(earlier + eval(left@, fa).1 + eval(right@, fa).1 =~= earlier + (eval(
                                left@,
                                fa,
                            ).1 + eval(right@, fa).1));
                        }
                        match b {
                            Err(e) => Err(e),
                            Ok(b) => binary_exec(*operator, a, b, float_arith),
                        }
                    },
                }
            },
            AstNode::Unary { operator, operand } => {
                let a = operand.evaluate(float_arith, printed);
                match a {
                    Err(e) => Err(e),
                    Ok(a) => unary_exec(*operator, a),
                }
            },
            AstNode::If { condition, then_branch, else_branch } => {
                let c = condition.evaluate(float_arith, printed);
                match c {
                    Ok(EvaluateResult::Boolean(true)) => {
                        let r = then_branch.evaluate(float_arith, printed);
                        proof {
                            assert(earlier + eval(condition@, fa).1 + eval(then_branch@, fa).1 =~= earlier + (
                            eval(condition@, fa).1 + eval(then_branch@, fa).1));
                        }
                        r
                    },
                    Ok(EvaluateResult::Boolean(false)) => match else_branch {
                        Some(e) => {
                            let r = e.evaluate(float_arith, printed);
                            proof {
                                assert(earlier + eval(condition@, fa).1 + eval(e@, fa).1 =~= earlier + (eval(
                                    condition@,
                                    fa,
                                ).1 + eval(e@, fa).1));
                            }
                            r
                        },
                        None => Ok(EvaluateResult::Nil),
                    },
                    Ok(_) => Err(EvalError::NotBoolean),
                    Err(e) => Err(e),
                }
            },
            AstNode::Or { left, right } => {
                let a = left.evaluate(float_arith, printed);
                match a {
                    Ok(EvaluateResult::Boolean(true)) => Ok(EvaluateResult::Boolean(true)),
                    Ok(EvaluateResult::Boolean(false)) => {
                        let b = right.evaluate(float_arith, printed);
                        proof {
                            assert(earlier + eval(left@, fa).1 + eval(right@, fa).1 =~= earlier + (eval(
                                left@,
                                fa,
                            ).1 + eval(right@, fa).1));
                        }
                        match b {
                            Ok(EvaluateResult::Boolean(v)) => Ok(EvaluateResult::Boolean(v)),
                            Ok(_) => Err(EvalError::NotBoolean),
                            Err(e) => Err(e),
                        }
                    },
                    Ok(_) => Err(EvalError::NotBoolean),
                    Err(e) => Err(e),
                }
            },
            AstNode::And { left, right } => {
                let a = left.evaluate(float_arith, printed);
                match a {
                    Ok(EvaluateResult::Boolean(false)) => Ok(EvaluateResult::Boolean(false)),
                    Ok(EvaluateResult::Boolean(true)) => {
                        let b = right.evaluate(float_arith, printed);
                        proof {
                            assert(earlier + eval(left@, fa).1 + eval(right@, fa).1 =~= earlier + (eval(
                                left@,
                                fa,
                            ).1 + eval(right@, fa).1));
                        }
                        match b {
                            Ok(EvaluateResult::Boolean(v)) => Ok(EvaluateResult::Boolean(v)),
                            Ok(_) => Err(EvalError::NotBoolean),
                            Err(e) => Err(e),
                        }
                    },
                    Ok(_) => Err(EvalError::NotBoolean),
                    Err(e) => Err(e),
                }
            },
        }
    }
}

/// Evaluating the top-level statements of a program in order: the value of
/// each one, or the first error.
pub open spec fn eval_program(ns: Seq<Node>, fa: spec_fn(BinaryOp, u64, u64) -> u64) -> (
    Result<Seq<Val>, EvalError>,
    Seq<Val>,
)
    decreases ns.len(),
{
    if ns.len() == 0 {
        (Ok(Seq::empty()), Seq::empty())
    } else {
        let (r0, earlier) = eval_program(ns.drop_last(), fa);
        match r0 {
            Err(e) => (Err(e), earlier),
            Ok(vs) => {
                let (r1, later) = eval(ns.last(), fa);
                match r1 {
                    Ok(v) => (Ok(vs.push(v)), earlier + later),
                    Err(e) => (Err(e), earlier + later),
                }
            },
        }
    }
}

proof fn lemma_program_error_sticks(
    ms: Seq<Node>,
    k: int,
    j: int,
    fa: spec_fn(BinaryOp, u64, u64) -> u64,
)
    requires
        0 <= k <= j <= ms.len(),
        eval_program(ms.subrange(0, k), fa).0 is Err,
    ensures
        eval_program(ms.subrange(0, j), fa) == eval_program(ms.subrange(0, k), fa),
    decreases j - k,
{
    if j > k {
        lemma_program_error_sticks(ms, k, j - 1, fa);
        assert(ms.subrange(0, j).drop_last() =~= ms.subrange(0, j - 1));
    }
}

/// Evaluates the top-level statements of a program in order and returns the
/// value of each. Each value that a `print` emits is appended to `printed`.
pub fn evaluate_program<A: Fn(BinaryOp, u64, u64) -> u64>(
    nodes: &Vec<AstNode>,
    float_arith: &A,
    printed: &mut Vec<EvaluateResult>,
) -> (r: Result<Vec<EvaluateResult>, EvalError>)
    requires
        computes_floats(*float_arith),
    ensures
        match r {
            Ok(vs) => eval_program(nodes_model(nodes@), float_fn(*float_arith)).0 == Ok::<
                Seq<Val>,
                EvalError,
            >(vals(vs@)),
            Err(e) => eval_program(nodes_model(nodes@), float_fn(*float_arith)).0 == Err::<
                Seq<Val>,
                EvalError,
            >(e),
        },
        vals(final(printed)@) == vals(old(printed)@) + eval_program(
            nodes_model(nodes@),
            float_fn(*float_arith),
        ).1,
{
    let ghost fa = float_fn(*float_arith);
    let ghost earlier = vals(printed@);
    let ghost ms = nodes_model(nodes@);
    proof {
        lemma_nodes_model(nodes@);
        assert(ms.subrange(0, 0) =~= Seq::<Node>::empty());
        assert(earlier + Seq::<Val>::empty() =~= earlier);
        assert(vals(Seq::<EvaluateResult>::empty()) =~= Seq::<Val>::empty());
    }
    let mut out: Vec<EvaluateResult> = Vec::new();
    let mut i: usize = 0;
    while i < nodes.len()
        invariant
            computes_floats(*float_arith),
            fa == float_fn(*float_arith),
            ms == nodes_model(nodes@),
            earlier == vals(old(printed)@),
            ms.len() == nodes@.len(),
            forall|j: int| 0 <= j < nodes@.len() ==> #[trigger] ms[j] == nodes@[j]@,
            i <= nodes@.len(),
            eval_program(ms.subrange(0, i as int), fa).0 == Ok::<Seq<Val>, EvalError>(vals(out@)),
            vals(printed@) == earlier + eval_program(ms.subrange(0, i as int), fa).1,
        decreases nodes@.len() - i,
    {
        let ghost before = vals(printed@);
        let r = nodes[i].evaluate(float_arith, printed);
        let ghost sub = ms.subrange(0, i + 1);
        proof {
            assert(sub.drop_last() =~= ms.subrange(0, i as int));
            assert(sub.last() == nodes@[i as int]@);
            let pb = eval_program(ms.subrange(0, i as int), fa).1;
            assert(earlier + (pb + eval(nodes@[i as int]@, fa).1) =~= before + eval(
                nodes@[i as int]@,
                fa,
            ).1);
        }
        match r {
            Ok(v) => {
                let ghost vo = out@;
                out.push(v);
                proof {
                    assert(vals(out@) =~= vals(vo).push(v@));
                }
            },
            Err(e) => {
                proof {
                    assert(eval_program(sub, fa).0 is Err);
                    lemma_program_error_sticks(ms, i + 1, ms.len() as int, fa);
                    assert(ms.subrange(0, ms.len() as int) =~= ms);
                }
                return Err(e);
            },
        }
        i += 1;
    }
    proof {
        assert(ms.subrange(0, ms.len() as int) =~= ms);
    }
    Ok(out)
}

/// Number kinds never mix: any binary operator applied to an integer and a
/// float, in either order, fails with `MixedNumberKinds`; nothing is coerced.
pub proof fn lemma_mixed_kinds_fail(op: BinaryOp, x: i64, y: u64, fa: spec_fn(BinaryOp, u64, u64) -> u64)
    ensures
        eval(
            Node::Binary {
                left: Box::new(Node::Number(Number::Integer(x))),
                operator: op,
                right: Box::new(Node::Number(Number::Float(y))),
            },
            fa,
        ) == (Err::<Val, EvalError>(EvalError::MixedNumberKinds), Seq::<Val>::empty()),
        eval(
            Node::Binary {
                left: Box::new(Node::Number(Number::Float(y))),
                operator: op,
                right: Box::new(Node::Number(Number::Integer(x))),
            },
            fa,
        ) == (Err::<Val, EvalError>(EvalError::MixedNumberKinds), Seq::<Val>::empty()),
{
    reveal_with_fuel(eval, 2);
    assert(Seq::<Val>::empty() + Seq::<Val>::empty() =~= Seq::<Val>::empty());
}

/// `or` short-circuits: when the left operand evaluates to `true`, the whole
/// evaluates to `true` with only the left operand's prints; the right operand
/// is never evaluated, whatever it is. Symmetrically, `and` with a left
/// operand that evaluates to `false` yields `false`.
pub proof fn lemma_short_circuit(left: Node, right: Node, fa: spec_fn(BinaryOp, u64, u64) -> u64)
    ensures
        eval(left, fa).0 == Ok::<Val, EvalError>(Val::Boolean(true)) ==> eval(
            Node::Or { left: Box::new(left), right: Box::new(right) },
            fa,
        ) == (Ok::<Val, EvalError>(Val::Boolean(true)), eval(left, fa).1),
        eval(left, fa).0 == Ok::<Val, EvalError>(Val::Boolean(false)) ==> eval(
            Node::And { left: Box::new(left), right: Box::new(right) },
            fa,
        ) == (Ok::<Val, EvalError>(Val::Boolean(false)), eval(left, fa).1),
{
}

/// `+` on two strings concatenates them; `+` between a string and a number,
/// in either order, fails with `MismatchedOperands`.
pub proof fn lemma_string_number_boundary(
    a: Seq<char>,
    b: Seq<char>,
    n: Number,
    fa: spec_fn(BinaryOp, u64, u64) -> u64,
)
    ensures
        eval(
            Node::Binary { left: Box::new(Node::Str(a)), operator: BinaryOp::Add, right: Box::new(Node::Str(b)) },
            fa,
        ) == (Ok::<Val, EvalError>(Val::Str(a + b)), Seq::<Val>::empty()),
        eval(
            Node::Binary { left: Box::new(Node::Str(a)), operator: BinaryOp::Add, right: Box::new(Node::Number(n)) },
            fa,
        ) == (Err::<Val, EvalError>(EvalError::MismatchedOperands), Seq::<Val>::empty()),
        eval(
            Node::Binary { left: Box::new(Node::Number(n)), operator: BinaryOp::Add, right: Box::new(Node::Str(a)) },
            fa,
        ) == (Err::<Val, EvalError>(EvalError::MismatchedOperands), Seq::<Val>::empty()),
{
    reveal_with_fuel(eval, 2);
    assert(Seq::<Val>::empty() + Seq::<Val>::empty() =~= Seq::<Val>::empty());
}

/// How a value is printed: numbers in decimal (`ft` writes floats), booleans
/// as `true` / `false`, `nil`, and strings as they are, without quotes.
pub open spec fn value_text(v: Val, ft: spec_fn(u64) -> Seq<char>) -> Seq<char> {
    match v {
        Val::Boolean(b) => if b { "true"@ } else { "false"@ },
        Val::Number(n) => number_text(n, ft),
        Val::Str(s) => s,
        Val::Nil => "nil"@,
    }
}

impl EvaluateResult {
    /// How this value is printed; `float_text` writes a float from its bit
    /// pattern.
    pub fn to_text<F: Fn(u64) -> String>(&self, float_text: &F) -> (r: String)
        requires
            writes_floats(*float_text),
        ensures
            r@ == value_text(self@, float_writer(*float_text)),
    {
        match self {
            EvaluateResult::Boolean(b) => if *b { "true".to_owned() } else { "false".to_owned() },
            EvaluateResult::Number(n) => AstNode::Number(*n).to_text(float_text),
            EvaluateResult::String(s) => s.clone(),
            EvaluateResult::Nil => "nil".to_owned(),
        }
    }
}

} // verus!
