//! The evaluator: a pure recursive walk of an expression tree against a
//! variable mapping, producing a rational value or a typed failure.

use vstd::prelude::*;
use vstd::string::StringExecFns;

use crate::errors::EvaluationError;
use crate::parser::{op_symbol, operator_to_symbol, Operator, Tree, TreeView, Type, TypeView};
use crate::parser::{tree_names, tree_well_formed, tree_wf};
use crate::value::{rat_add, rat_div, rat_mul, rat_pow, rat_sub, ArithErr, Value};
use crate::vars::VarMap;

verus! {

/// The ways evaluation can fail, with what each failure reports.
pub enum EvalErrKind {
    /// A variable was referenced with no entry in the mapping.
    UnknownVariable(Seq<char>),
    /// An operator node has neither child.
    NoOperands(Operator),
    /// An operator node has no left child.
    NoLeftOperand(Operator),
    /// An operator node has no right child.
    NoRightOperand(Operator),
    /// Both operands evaluated, but the exact arithmetic failed.
    Arith(ArithErr, Operator),
}

/// The arithmetic of one operator applied to two evaluated operands.
pub open spec fn rat_apply(op: Operator, a: Value, b: Value) -> Result<Value, ArithErr> {
    match op {
        Operator::Plus => rat_add(a, b),
        Operator::Minus => rat_sub(a, b),
        Operator::Times => rat_mul(a, b),
        Operator::Division => rat_div(a, b),
        Operator::Power => rat_pow(a, b),
    }
}

/// What evaluating `t` against the mapping `m` yields. Operand presence is
/// checked before either child is evaluated; the left child is evaluated
/// before the right, and the first failure propagates.
pub open spec fn spec_eval(t: TreeView, m: Map<Seq<char>, Value>) -> Result<Value, EvalErrKind>
    decreases t,
{
    match t.node_type {
        TypeView::Constant(v) => Ok(v),
        TypeView::Variable(name) => if m.contains_key(name) {
            Ok(m[name])
        } else {
            Err(EvalErrKind::UnknownVariable(name))
        },
        TypeView::Operator(op) => match (t.left, t.right) {
            (None, None) => Err(EvalErrKind::NoOperands(op)),
            (None, Some(_)) => Err(EvalErrKind::NoLeftOperand(op)),
            (Some(_), None) => Err(EvalErrKind::NoRightOperand(op)),
            (Some(l), Some(r)) => match spec_eval(*l, m) {
                Err(e) => Err(e),
                Ok(lv) => match spec_eval(*r, m) {
                    Err(e) => Err(e),
                    Ok(rv) => match rat_apply(op, lv, rv) {
                        Ok(v) => Ok(v),
                        Err(k) => Err(EvalErrKind::Arith(k, op)),
                    },
                },
            },
        },
    }
}

/// The human-readable description that each failure carries.
/// The common head of every operator failure: the failure, then the
/// operator's symbol in single quotes, then what went wrong.
pub open spec fn operation_message(op: Operator, what: Seq<char>) -> Seq<char> {
    "Evaluation failed, a '"@ + op_symbol(op) + "' operation "@ + what
}

pub open spec fn eval_err_message(k: EvalErrKind) -> Seq<char> {
    match k {
        EvalErrKind::UnknownVariable(name) => "Value for variable '"@ + name + "' not found"@,
        EvalErrKind::NoOperands(op) => operation_message(op, "has no operands."@),
        EvalErrKind::NoLeftOperand(op) => operation_message(op, "has no left operand."@),
        EvalErrKind::NoRightOperand(op) => operation_message(op, "has no right operand."@),
        EvalErrKind::Arith(ArithErr::DivisionByZero, op) => operation_message(
            op,
            "divides by zero."@,
        ),
        EvalErrKind::Arith(ArithErr::FractionalExponent, op) => operation_message(
            op,
            "has a fractional exponent."@,
        ),
        EvalErrKind::Arith(ArithErr::Overflow, op) => operation_message(op, "overflows."@),
    }
}

fn unknown_variable_error(name: &str) -> (r: EvaluationError)
    ensures
        r@ == eval_err_message(EvalErrKind::UnknownVariable(name@)),
{
    let mut s = String::from_str("Value for variable '");
    s.append(name);
    s.append("' not found");
    proof {
        assert(s@ =~= eval_err_message(EvalErrKind::UnknownVariable(name@)));
    }
    EvaluationError { message: s }
}

fn operation_error(op: &Operator, what: &str) -> (s: String)
    ensures
        s@ == operation_message(*op, what@),
{
    let mut s = String::from_str("Evaluation failed, a '");
    let sym = operator_to_symbol(op);
    s.append(sym.as_str());
    s.append("' operation ");
    s.append(what);
    proof {
        assert(s@ =~= operation_message(*op, what@));
    }
    s
}

fn arith_error(k: ArithErr, op: &Operator) -> (r: EvaluationError)
    ensures
        r@ == eval_err_message(EvalErrKind::Arith(k, *op)),
{
    let s = match k {
        ArithErr::DivisionByZero => operation_error(op, "divides by zero."),
        ArithErr::FractionalExponent => operation_error(op, "has a fractional exponent."),
        ArithErr::Overflow => operation_error(op, "overflows."),
    };
    proof {
        assert(s@ =~= eval_err_message(EvalErrKind::Arith(k, *op)));
    }
    EvaluationError { message: s }
}

/// Applies one operator to two evaluated operands.
fn apply_operator(op: &Operator, a: Value, b: Value) -> (r: Result<Value, ArithErr>)
    requires
        a.wf(),
        b.wf(),
    ensures
        r == rat_apply(*op, a, b),
        r matches Ok(v) ==> v.wf(),
{
    match op {
        Operator::Plus => a.add(b),
        Operator::Minus => a.sub(b),
        Operator::Times => a.mul(b),
        Operator::Division => a.div(b),
        Operator::Power => a.pow(b),
    }
}

/// Evaluates `tree` against `values`, exactly as `spec_eval` describes:
/// deterministic (the result is a function of the tree and the mapping
/// alone) and terminating (the recursion descends the tree).
pub fn eval_tree(tree: &Tree, values: &VarMap) -> (r: Result<Value, EvaluationError>)
    requires
        tree_wf(tree@),
        values.wf(),
    ensures
        match spec_eval(tree@, values@) {
            Ok(v) => r matches Ok(rv) && rv == v && v.wf(),
            Err(k) => r matches Err(e) && e@ == eval_err_message(k),
        },
    decreases *tree,
{
    match &tree.node_type {
        Type::Constant(v) => Ok(*v),
        Type::Variable(name) => match values.get(name.as_str()) {
            Some(v) => Ok(v),
            None => Err(unknown_variable_error(name.as_str())),
        },
        Type::Operator(op) => match (&tree.left, &tree.right) {
            (None, None) => Err(EvaluationError { message: operation_error(op, "has no operands.") }),
            (None, Some(_)) => Err(
                EvaluationError { message: operation_error(op, "has no left operand.") },
            ),
            (Some(_), None) => Err(
                EvaluationError { message: operation_error(op, "has no right operand.") },
            ),
            (Some(l), Some(r)) => match eval_tree(l, values) {
                Err(e) => Err(e),
                Ok(lv) => match eval_tree(r, values) {
                    Err(e) => Err(e),
                    Ok(rv) => match apply_operator(op, lv, rv) {
                        Ok(v) => Ok(v),
                        Err(k) => Err(arith_error(k, op)),
                    },
                },
            },
        },
    }
}

/// Evaluation is deterministic: against a fixed mapping, a tree evaluates to
/// exactly one result, the one `spec_eval` names.
pub proof fn lemma_eval_deterministic(
    t: TreeView,
    m: Map<Seq<char>, Value>,
    r1: Result<Value, EvalErrKind>,
    r2: Result<Value, EvalErrKind>,
)
    requires
        r1 == spec_eval(t, m),
        r2 == spec_eval(t, m),
    ensures
        r1 == r2,
{
}

/// A tree whose operators all have both children never fails for a missing
/// operand: evaluation yields a value, an unknown variable, or an arithmetic
/// failure.
pub proof fn lemma_eval_well_formed_no_missing_operand(t: TreeView, m: Map<Seq<char>, Value>)
    requires
        tree_well_formed(t),
    ensures
        match spec_eval(t, m) {
            Ok(_) => true,
            Err(k) => k matches EvalErrKind::UnknownVariable(_) || k matches EvalErrKind::Arith(
                _,
                _,
            ),
        },
    decreases t,
{
    match t.node_type {
        TypeView::Operator(_) => {
            lemma_eval_well_formed_no_missing_operand(*t.left.unwrap(), m);
            lemma_eval_well_formed_no_missing_operand(*t.right.unwrap(), m);
        },
        _ => {},
    }
}

/// The closed variable universe: when every variable of the tree has an
/// entry in the mapping — as the container invariant guarantees for a
/// container's own mapping — evaluation never reports an unknown variable.
pub proof fn lemma_eval_closed_universe(t: TreeView, m: Map<Seq<char>, Value>)
    requires
        tree_names(t).subset_of(m.dom()),
    ensures
        !(spec_eval(t, m) matches Err(EvalErrKind::UnknownVariable(_))),
    decreases t,
{
    match t.node_type {
        TypeView::Operator(_) => {
            if t.left is Some && t.right is Some {
                lemma_eval_closed_universe(*t.left.unwrap(), m);
                lemma_eval_closed_universe(*t.right.unwrap(), m);
            }
        },
        _ => {},
    }
}

} // verus!
