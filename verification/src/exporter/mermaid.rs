//! The diagram exporter: a tree as a directed-graph description, one line
//! per parent-child edge, and the HTML document that renders it.

use vstd::prelude::*;
use vstd::string::StringExecFns;

use crate::exporter::{node_label, type_label};
use crate::parser::{Operator, Tree, TreeView, Type, TypeView};
use crate::text::{dec_str, push_dec_u64};

verus! {

/// A node's diagram label: as its ordinary label, with the subtraction
/// symbol additionally quoted to avoid clashing with the graph-description
/// syntax.
pub open spec fn mermaid_label(nt: TypeView) -> Seq<char> {
    match nt {
        TypeView::Operator(Operator::Minus) => "\"-\""@,
        _ => type_label(nt),
    }
}

/// One edge of the diagram: parent and child each rendered as
/// `id((label))`, joined by the edge mark.
pub open spec fn edge_line(parent: TreeView, child: TreeView) -> Seq<char> {
    "   A"@ + dec_str(parent.id) + "(("@ + mermaid_label(parent.node_type) + ")) --- A"@ + dec_str(
        child.id,
    ) + "(("@ + mermaid_label(child.node_type) + "))\n"@
}

/// The edges of the subtree at `t`, pre-order: the edge from the parent
/// (when there is one), then the left subtree's edges, then the right's.
pub open spec fn spec_mermaid(t: TreeView, parent: Option<TreeView>) -> Seq<char>
    decreases t,
{
    (match parent {
        Some(p) => edge_line(p, t),
        None => Seq::empty(),
    }) + (match t.left {
        Some(l) => spec_mermaid(*l, Some(t)),
        None => Seq::empty(),
    }) + (match t.right {
        Some(r) => spec_mermaid(*r, Some(t)),
        None => Seq::empty(),
    })
}

/// The document around the graph description.
pub open spec fn mermaid_html_prefix() -> Seq<char> {
    "<!DOCTYPE html><html lang=\"en\"><head><meta charset=\"UTF-8\" /><title>Tree export</title></head><body><script src=\"https://cdn.jsdelivr.net/npm/mermaid/dist/mermaid.min.js\"></script><div class=\"mermaid\">\ngraph TD\n"@
}

pub open spec fn mermaid_html_suffix() -> Seq<char> {
    "</div></body></html>"@
}

/// Renders a tree as a diagram of its nodes and edges.
pub struct MermaidExporter;

impl MermaidExporter {
    /// The graph description of the tree: exactly `spec_mermaid` of it, one
    /// line per edge, rooted edges first.
    pub fn to_string(parsed: &Tree) -> (s: String)
        ensures
            s@ == spec_mermaid(parsed@, None),
    {
        let mut mermaid = String::new();
        to_mermaid(parsed, None, &mut mermaid);
        proof {
            assert(mermaid@ =~= spec_mermaid(parsed@, None));
        }
        mermaid
    }

    /// The full HTML document embedding the tree's graph description.
    pub fn to_html(parsed: &Tree) -> (s: String)
        ensures
            s@ == mermaid_html_prefix() + spec_mermaid(parsed@, None) + mermaid_html_suffix(),
    {
        let mut s = String::from_str(
            "<!DOCTYPE html><html lang=\"en\"><head><meta charset=\"UTF-8\" /><title>Tree export</title></head><body><script src=\"https://cdn.jsdelivr.net/npm/mermaid/dist/mermaid.min.js\"></script><div class=\"mermaid\">\ngraph TD\n",
        );
        let body = MermaidExporter::to_string(parsed);
        s.append(body.as_str());
        s.append("</div></body></html>");
        proof {
            assert(s@ =~= mermaid_html_prefix() + spec_mermaid(parsed@, None)
                + mermaid_html_suffix());
        }
        s
    }
}

fn type_to_label(nt: &Type) -> (s: String)
    ensures
        s@ == mermaid_label(nt@),
{
    match nt {
        Type::Operator(Operator::Minus) => String::from_str("\"-\""),
        _ => node_label(nt),
    }
}

fn to_mermaid(formula: &Tree, parent: Option<&Tree>, mermaid: &mut String)
    ensures
        final(mermaid)@ == old(mermaid)@ + spec_mermaid(
            formula@,
            match parent {
                Some(p) => Some((*p)@),
                None => None,
            },
        ),
    decreases *formula,
{
    if let Some(p) = parent {
        let ghost at_entry = mermaid@;
        mermaid.append("   A");
        push_dec_u64(mermaid, p.id as u64);
        mermaid.append("((");
        let parent_label = type_to_label(&p.node_type);
        mermaid.append(parent_label.as_str());
        mermaid.append(")) --- A");
        push_dec_u64(mermaid, formula.id as u64);
        mermaid.append("((");
        let own_label = type_to_label(&formula.node_type);
        mermaid.append(own_label.as_str());
        mermaid.append("))\n");
        proof {
            assert(mermaid@ =~= at_entry + edge_line((*p)@, formula@));
        }
    }
    if let Some(left) = &formula.left {
        to_mermaid(left, Some(formula), mermaid);
    }
    if let Some(right) = &formula.right {
        to_mermaid(right, Some(formula), mermaid);
    }
    proof {
        assert(mermaid@ =~= old(mermaid)@ + spec_mermaid(
            formula@,
            match parent {
                Some(p) => Some((*p)@),
                None => None,
            },
        ));
    }
}

} // verus!
