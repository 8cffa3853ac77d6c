//! Read-only exporters over finished trees: node labels shared by all of
//! them, a diagram exporter and a prefix-notation exporter.

use vstd::prelude::*;

use crate::parser::{op_symbol, operator_to_symbol, Type, TypeView};
use crate::text::{dec_str, int_str, push_dec_i64, push_dec_u64};
use crate::value::Value;

pub mod mermaid;
pub mod polish;

pub use mermaid::MermaidExporter;
pub use polish::PolishExporter;

verus! {

/// A constant's label: its integer when whole, `numerator/denominator`
/// otherwise (a parsed constant is always whole).
pub open spec fn value_label(v: Value) -> Seq<char> {
    if v.den == 1 {
        int_str(v.num as int)
    } else {
        int_str(v.num as int) + "/"@ + dec_str(v.den as nat)
    }
}

/// A node's label: the operator's symbol, the constant's decimal value, or
/// the variable's name.
pub open spec fn type_label(nt: TypeView) -> Seq<char> {
    match nt {
        TypeView::Operator(op) => op_symbol(op),
        TypeView::Constant(v) => value_label(v),
        TypeView::Variable(name) => name,
    }
}

fn value_to_label(v: &Value) -> (s: String)
    ensures
        s@ == value_label(*v),
{
    let mut s = String::new();
    push_dec_i64(&mut s, v.num);
    if v.den != 1 {
        vstd::string::StringExecFns::append(&mut s, "/");
        push_dec_u64(&mut s, v.den);
        proof {
            assert(s@ =~= value_label(*v));
        }
    } else {
        proof {
            assert(s@ =~= value_label(*v));
        }
    }
    s
}

pub fn node_label(nt: &Type) -> (s: String)
    ensures
        s@ == type_label(nt@),
{
    match nt {
        Type::Operator(op) => operator_to_symbol(op),
        Type::Constant(v) => value_to_label(v),
        Type::Variable(name) => name.clone(),
    }
}

} // verus!
