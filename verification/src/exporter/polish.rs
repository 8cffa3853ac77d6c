//! The prefix-notation exporter: a tree as one string, each node's label
//! before its children's.

use vstd::prelude::*;
use vstd::string::StringExecFns;

use crate::exporter::{node_label, type_label};
use crate::parser::{Matpars, Tree, TreeView};

verus! {

/// The pre-order rendering of a tree: each node's label followed by one
/// space, the node before its left subtree before its right (so a trailing
/// space ends the whole string).
pub open spec fn spec_polish(t: TreeView) -> Seq<char>
    decreases t,
{
    type_label(t.node_type) + " "@ + (match t.left {
        Some(l) => spec_polish(*l),
        None => Seq::empty(),
    }) + (match t.right {
        Some(r) => spec_polish(*r),
        None => Seq::empty(),
    })
}

/// Renders a tree in prefix (Polish) notation.
pub struct PolishExporter;

impl PolishExporter {
    /// The container's tree in prefix notation, exactly `spec_polish` of it.
    pub fn to_string(parsed: &Matpars) -> (s: String)
        ensures
            s@ == spec_polish(parsed.tree@),
    {
        let mut polish = String::new();
        to_polish(&parsed.tree, &mut polish);
        proof {
            assert(polish@ =~= spec_polish(parsed.tree@));
        }
        polish
    }
}

fn to_polish(parsed: &Tree, polish: &mut String)
    ensures
        final(polish)@ == old(polish)@ + spec_polish(parsed@),
    decreases *parsed,
{
    let label = node_label(&parsed.node_type);
    polish.append(label.as_str());
    polish.append(" ");
    if let Some(left) = &parsed.left {
        to_polish(left, polish);
    }
    if let Some(right) = &parsed.right {
        to_polish(right, polish);
    }
    proof {
        assert(polish@ =~= old(polish)@ + spec_polish(parsed@));
    }
}

} // verus!
