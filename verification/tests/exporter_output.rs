//! The diagram and prefix-notation exporters, against exact expected text.

use matpars::exporter::{MermaidExporter, PolishExporter};
use matpars::TreeParser;

const HTML_PREFIX: &str = "<!DOCTYPE html><html lang=\"en\"><head><meta charset=\"UTF-8\" /><title>Tree export</title></head><body><script src=\"https://cdn.jsdelivr.net/npm/mermaid/dist/mermaid.min.js\"></script><div class=\"mermaid\">\ngraph TD\n";
const HTML_SUFFIX: &str = "</div></body></html>";

fn mermaid_document(formula: &str, mermaid: &str) {
    let parsed = TreeParser::parse(formula).unwrap();
    let html = MermaidExporter::to_html(&parsed.tree);
    let should_equal = HTML_PREFIX.to_string() + mermaid + HTML_SUFFIX;
    assert_eq!(html, should_equal);
}

#[test]
fn more_complex_tree() {
    mermaid_document(
        "x^2 + 3*x + (8*x - 21*9) + 5",
        "   A16((+)) --- A14((+))\n   A14((+)) --- A6((+))\n   A6((+)) --- A2((^))\n   A2((^)) --- A0((x))\n   A2((^)) --- A1((2))\n   A6((+)) --- A5((*))\n   A5((*)) --- A3((3))\n   A5((*)) --- A4((x))\n   A14((+)) --- A13((\"-\"))\n   A13((\"-\")) --- A9((*))\n   A9((*)) --- A7((8))\n   A9((*)) --- A8((x))\n   A13((\"-\")) --- A12((*))\n   A12((*)) --- A10((21))\n   A12((*)) --- A11((9))\n   A16((+)) --- A15((5))\n",
    );
}

#[test]
fn simple_tree() {
    mermaid_document(
        "x + 12",
        "   A2((+)) --- A0((x))\n   A2((+)) --- A1((12))\n",
    );
}

#[test]
fn diagram_has_two_edges_rooted_at_plus() {
    let parsed = TreeParser::parse("x + 12").unwrap();
    let graph = MermaidExporter::to_string(&parsed.tree);
    let edges: Vec<&str> = graph.lines().collect();
    assert_eq!(edges.len(), 2);
    assert_eq!(edges[0], "   A2((+)) --- A0((x))");
    assert_eq!(edges[1], "   A2((+)) --- A1((12))");
}

#[test]
fn polish_notation_round_trip() {
    let parsed = TreeParser::parse("4 * x").unwrap();
    assert_eq!(PolishExporter::to_string(&parsed), "* 4 x ");
}

#[test]
fn polish_notation_nested() {
    let parsed = TreeParser::parse("(2 + 3) * 4").unwrap();
    assert_eq!(PolishExporter::to_string(&parsed), "* + 2 3 4 ");
}
