//! The expression tree: its node types, its mathematical model, and the
//! container that pairs a parsed tree with its live variable mapping.

use vstd::prelude::*;
use vstd::string::StringExecFns;

use crate::errors::{EvaluationError, InvalidVariableError};
use crate::eval::{eval_err_message, eval_tree, spec_eval};
use crate::value::Value;
use crate::vars::VarMap;

pub mod treeparser;

pub use treeparser::TreeParser;

verus! {

/// A binary arithmetic operation.
#[derive(Clone, Copy, Debug, PartialEq, Eq, Structural)]
pub enum Operator {
    Plus,
    Minus,
    Times,
    Division,
    Power,
}

/// The payload of one tree node: an operator, a constant, or a named
/// variable.
#[derive(Debug)]
pub enum Type {
    Operator(Operator),
    Constant(Value),
    Variable(String),
}

/// One node of an expression tree. Children are optional even under an
/// operator: the parser never validates operand presence, the evaluator
/// does. The identifier serves external rendering only, never lookup or
/// equality.
#[derive(Debug)]
pub struct Tree {
    pub id: usize,
    pub node_type: Type,
    pub left: Option<Box<Tree>>,
    pub right: Option<Box<Tree>>,
}

/// The mathematical model of a node payload: variable names become character
/// sequences.
pub enum TypeView {
    Operator(Operator),
    Constant(Value),
    Variable(Seq<char>),
}

/// The mathematical model of an expression tree.
pub struct TreeView {
    pub id: nat,
    pub node_type: TypeView,
    pub left: Option<Box<TreeView>>,
    pub right: Option<Box<TreeView>>,
}

impl View for Type {
    type V = TypeView;

    open spec fn view(&self) -> TypeView {
        match self {
            Type::Operator(op) => TypeView::Operator(*op),
            Type::Constant(v) => TypeView::Constant(*v),
            Type::Variable(name) => TypeView::Variable(name@),
        }
    }
}

impl View for Tree {
    type V = TreeView;

    open spec fn view(&self) -> TreeView
        decreases self,
    {
        TreeView {
            id: self.id as nat,
            node_type: self.node_type@,
            left: match self.left {
                Some(l) => Some(Box::new((*l)@)),
                None => None,
            },
            right: match self.right {
                Some(r) => Some(Box::new((*r)@)),
                None => None,
            },
        }
    }
}

/// Every constant in the tree is a well-formed rational.
pub open spec fn tree_wf(t: TreeView) -> bool
    decreases t,
{
    &&& match t.node_type {
        TypeView::Constant(v) => v.wf(),
        _ => true,
    }
    &&& match t.left {
        Some(l) => tree_wf(*l),
        None => true,
    }
    &&& match t.right {
        Some(r) => tree_wf(*r),
        None => true,
    }
}

/// Every operator node has both children: the shape the parser gives every
/// tree built from classifiable text with no empty operand sides.
pub open spec fn tree_well_formed(t: TreeView) -> bool
    decreases t,
{
    match t.node_type {
        TypeView::Operator(_) => {
            &&& t.left matches Some(l) && tree_well_formed(*l)
            &&& t.right matches Some(r) && tree_well_formed(*r)
        },
        _ => true,
    }
}

/// The names of all variables that occur in the tree.
pub open spec fn tree_names(t: TreeView) -> Set<Seq<char>>
    decreases t,
{
    (match t.node_type {
        TypeView::Variable(name) => Set::empty().insert(name),
        _ => Set::empty(),
    }).union(
        match t.left {
            Some(l) => tree_names(*l),
            None => Set::empty(),
        },
    ).union(
        match t.right {
            Some(r) => tree_names(*r),
            None => Set::empty(),
        },
    )
}

/// The symbol that names the operator in rendered output and in failure
/// descriptions.
pub open spec fn op_symbol(op: Operator) -> Seq<char> {
    match op {
        Operator::Plus => "+"@,
        Operator::Minus => "-"@,
        Operator::Times => "*"@,
        Operator::Division => "/"@,
        Operator::Power => "^"@,
    }
}

/// The operator written with the character `c`, if any.
pub open spec fn spec_char_to_operator(c: char) -> Option<Operator> {
    if c == '+' {
        Some(Operator::Plus)
    } else if c == '-' {
        Some(Operator::Minus)
    } else if c == '*' {
        Some(Operator::Times)
    } else if c == '/' {
        Some(Operator::Division)
    } else if c == '^' {
        Some(Operator::Power)
    } else {
        None
    }
}

pub fn char_to_operator(c: char) -> (r: Option<Operator>)
    ensures
        r == spec_char_to_operator(c),
{
    if c == '+' {
        Some(Operator::Plus)
    } else if c == '-' {
        Some(Operator::Minus)
    } else if c == '*' {
        Some(Operator::Times)
    } else if c == '/' {
        Some(Operator::Division)
    } else if c == '^' {
        Some(Operator::Power)
    } else {
        None
    }
}

pub fn operator_to_symbol(operator: &Operator) -> (s: String)
    ensures
        s@ == op_symbol(*operator),
{
    match operator {
        Operator::Plus => String::from_str("+"),
        Operator::Minus => String::from_str("-"),
        Operator::Times => String::from_str("*"),
        Operator::Division => String::from_str("/"),
        Operator::Power => String::from_str("^"),
    }
}

impl Tree {
    /// A node with the given payload, children and identifier. No validation
    /// happens here: an operator node with missing children is legal to
    /// build, and evaluation reports it.
    pub fn new(node_type: Type, left: Option<Tree>, right: Option<Tree>, id: usize) -> (t: Tree)
        ensures
            t@ == (TreeView {
                id: id as nat,
                node_type: node_type@,
                left: match left {
                    Some(l) => Some(Box::new(l@)),
                    None => None,
                },
                right: match right {
                    Some(r) => Some(Box::new(r@)),
                    None => None,
                },
            }),
    {
        Tree {
            id,
            node_type,
            left: match left {
                Some(l) => Some(Box::new(l)),
                None => None,
            },
            right: match right {
                Some(r) => Some(Box::new(r)),
                None => None,
            },
        }
    }
}

/// A parsed expression tree together with its live variable mapping. The
/// mapping's keys are fixed at parse time: every variable that occurs in the
/// tree is a key, and the mutation interface never adds one.
#[derive(Debug)]
pub struct Matpars {
    pub variables: VarMap,
    pub tree: Tree,
}

impl Matpars {
    /// The container invariant: well-formed constants, a well-formed mapping,
    /// and every variable of the tree present among the mapping's keys.
    pub open spec fn wf(&self) -> bool {
        &&& tree_wf(self.tree@)
        &&& self.variables.wf()
        &&& tree_names(self.tree@).subset_of(self.variables@.dom())
    }

    /// Replaces the value of a known variable; an unknown name is rejected
    /// with a description listing the valid names, and nothing changes.
    pub fn set_variable(&mut self, name: &str, value: Value) -> (r: Result<
        (),
        InvalidVariableError,
    >)
        requires
            old(self).wf(),
            value.wf(),
        ensures
            final(self).wf(),
            final(self).tree == old(self).tree,
            old(self).variables@.contains_key(name@) ==> {
                &&& r is Ok
                &&& final(self).variables@ == old(self).variables@.insert(name@, value)
                &&& final(self).variables.key_seq() == old(self).variables.key_seq()
            },
            !old(self).variables@.contains_key(name@) ==> {
                &&& r matches Err(e) && e@ == invalid_variable_message(
                    name@,
                    old(self).variables.key_seq(),
                )
                &&& *final(self) == *old(self)
            },
    {
        if self.variables.contains(name) {
            self.variables.put(name, value);
            Ok(())
        } else {
            let msg = build_invalid_variable_message(name, &self.variables);
            Err(InvalidVariableError { message: msg })
        }
    }

    /// Evaluates the owned tree against the container's own current mapping.
    pub fn eval(&self) -> (r: Result<Value, EvaluationError>)
        requires
            self.wf(),
        ensures
            match spec_eval(self.tree@, self.variables@) {
                Ok(v) => r matches Ok(rv) && rv == v && v.wf(),
                Err(k) => r matches Err(e) && e@ == eval_err_message(k),
            },
    {
        eval_tree(&self.tree, &self.variables)
    }

    /// Evaluates the owned tree against a caller-supplied mapping, bypassing
    /// the container's stored values entirely; missing entries surface as
    /// evaluation failures.
    pub fn eval_for(&self, values: VarMap) -> (r: Result<Value, EvaluationError>)
        requires
            self.wf(),
            values.wf(),
        ensures
            match spec_eval(self.tree@, values@) {
                Ok(v) => r matches Ok(rv) && rv == v && v.wf(),
                Err(k) => r matches Err(e) && e@ == eval_err_message(k),
            },
    {
        eval_tree(&self.tree, &values)
    }
}

/// The description of a rejected assignment: the offending name, then the
/// valid names, quoted, comma-separated and bracketed.
pub open spec fn invalid_variable_message(name: Seq<char>, known: Seq<Seq<char>>) -> Seq<char> {
    "Cannot set variable '"@ + name + "', expected one of: ["@ + quoted_list(known) + "]"@
}

/// The valid names, each in double quotes, separated by comma and space.
pub open spec fn quoted_list(known: Seq<Seq<char>>) -> Seq<char>
    decreases known.len(),
{
    if known.len() == 0 {
        Seq::empty()
    } else if known.len() == 1 {
        "\""@ + known[0] + "\""@
    } else {
        quoted_list(known.drop_last()) + ", \""@ + known.last() + "\""@
    }
}

fn build_invalid_variable_message(name: &str, variables: &VarMap) -> (s: String)
    ensures
        s@ == invalid_variable_message(name@, variables.key_seq()),
{
    let mut s = String::from_str("Cannot set variable '");
    s.append(name);
    s.append("', expected one of: [");
    let keys = variables.keys();
    let mut i: usize = 0;
    let ghost ks = variables.key_seq();
    let mut list = String::new();
    while i < keys.len()
        invariant
            i <= keys.len(),
            keys@.len() == ks.len(),
            forall|j: int| 0 <= j < ks.len() ==> keys@[j]@ == ks[j],
            list@ == quoted_list(ks.take(i as int)),
        decreases keys.len() - i,
    {
        if i == 0 {
            list.append("\"");
        } else {
            list.append(", \"");
        }
        list.append(keys[i].as_str());
        list.append("\"");
        proof {
            assert(ks.take(i + 1 as int).drop_last() =~= ks.take(i as int));
            assert(ks.take(i + 1 as int).last() == ks[i as int]);
            assert(list@ =~= quoted_list(ks.take(i + 1 as int)));
        }
        i = i + 1;
    }
    proof {
        assert(ks.take(ks.len() as int) =~= ks);
    }
    s.append(list.as_str());
    s.append("]");
    proof {
        assert(s@ =~= invalid_variable_message(name@, ks));
    }
    s
}

} // verus!
