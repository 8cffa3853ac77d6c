//! The precedence-weight parser: turns raw text into an expression tree in
//! one weighting pass plus a recursive split, without a tokenizer or a
//! grammar.

use vstd::prelude::*;
use vstd::string::StringExecFns;

use crate::errors::ParseError;
use crate::parser::{
    spec_char_to_operator, tree_names, tree_well_formed, tree_wf, Matpars, Tree, TreeView, Type,
    TypeView,
};
use crate::text::{digits_value, is_alphabetic_char, is_digit_char, is_whitespace_char};
use crate::value::Value;
use crate::vars::VarMap;

verus! {

/// The weight a nesting level of parentheses adds: strictly greater than
/// every operator's base weight, so anything inside one more level of
/// parentheses outranks anything outside it.
pub const BRACKETS_EXTRA_WEIGHT: u128 = 4;

/// The ways parsing can fail, with what each failure reports.
pub enum ParseErrKind {
    /// A closing parenthesis with no opening one before it.
    UnmatchedCloseParen,
    /// A leaf substring that is neither all alphabetic nor all digits.
    MalformedLeaf(Seq<char>),
    /// A constant too large for the numeric representation.
    ConstantTooLarge(Seq<char>),
    /// Input so long that the node identifiers could not stay unique.
    TooLong,
}

/// An operator character's weight before nesting is added; zero for every
/// non-operator character.
pub open spec fn base_weight(c: char) -> u128 {
    if c == '+' || c == '-' {
        1
    } else if c == '*' || c == '/' {
        2
    } else if c == '^' {
        3
    } else {
        0
    }
}

/// The input with every whitespace character removed.
pub open spec fn spec_clean(s: Seq<char>) -> Seq<char>
    decreases s.len(),
{
    if s.len() == 0 {
        Seq::empty()
    } else {
        let rest = spec_clean(s.drop_last());
        if is_whitespace_char(s.last()) {
            rest
        } else {
            rest.push(s.last())
        }
    }
}

/// The weights of the first `i` characters, with the running extra weight
/// after them: operators weigh their base weight plus the extra weight;
/// parentheses and all other characters weigh zero; `(` raises and `)`
/// lowers the extra weight, and one that would lower it below zero is the
/// unmatched-parenthesis failure.
pub open spec fn weights_prefix(s: Seq<char>, i: int) -> Result<(Seq<u128>, int), ParseErrKind>
    decreases i,
{
    if i <= 0 {
        Ok((Seq::empty(), 0))
    } else {
        match weights_prefix(s, i - 1) {
            Err(e) => Err(e),
            Ok((ws, extra)) => {
                let c = s[i - 1];
                if base_weight(c) != 0 {
                    Ok((ws.push((base_weight(c) + extra) as u128), extra))
                } else if c == '(' {
                    Ok((ws.push(0), extra + BRACKETS_EXTRA_WEIGHT))
                } else if c == ')' {
                    if extra < BRACKETS_EXTRA_WEIGHT {
                        Err(ParseErrKind::UnmatchedCloseParen)
                    } else {
                        Ok((ws.push(0), extra - BRACKETS_EXTRA_WEIGHT))
                    }
                } else {
                    Ok((ws.push(0), extra))
                }
            },
        }
    }
}

/// The weights of the whole (cleaned) input.
pub open spec fn spec_weights(s: Seq<char>) -> Result<Seq<u128>, ParseErrKind> {
    match weights_prefix(s, s.len() as int) {
        Ok(p) => Ok(p.0),
        Err(e) => Err(e),
    }
}

/// Characters and weights with every parenthesis position removed,
/// positional correspondence kept.
pub open spec fn spec_strip(cs: Seq<char>, ws: Seq<u128>) -> (Seq<char>, Seq<u128>)
    decreases cs.len(),
{
    if cs.len() == 0 || ws.len() == 0 {
        (Seq::<char>::empty(), Seq::<u128>::empty())
    } else {
        let rest = spec_strip(cs.drop_last(), ws.drop_last());
        if cs.last() == '(' || cs.last() == ')' {
            rest
        } else {
            (rest.0.push(cs.last()), rest.1.push(ws.last()))
        }
    }
}

/// The least positive weight, with the maximum as the none-present sentinel.
pub open spec fn min_positive(ws: Seq<u128>) -> u128
    decreases ws.len(),
{
    if ws.len() == 0 {
        u128::MAX
    } else {
        let m = min_positive(ws.drop_last());
        if ws.last() > 0 && ws.last() < m {
            ws.last()
        } else {
            m
        }
    }
}

/// The weight at which the slice splits: the least positive weight, or zero
/// when no positive weight is present (the leaf case).
pub open spec fn split_weight(ws: Seq<u128>) -> u128 {
    if min_positive(ws) == u128::MAX {
        0
    } else {
        min_positive(ws)
    }
}

/// The rightmost position whose weight is `m` (zero when none is).
pub open spec fn rightmost_index(ws: Seq<u128>, m: u128) -> int
    decreases ws.len(),
{
    if ws.len() == 0 {
        0
    } else if ws.last() == m {
        ws.len() - 1
    } else {
        rightmost_index(ws.drop_last(), m)
    }
}

pub open spec fn all_alphabetic(cs: Seq<char>) -> bool {
    forall|i: int| 0 <= i < cs.len() ==> is_alphabetic_char(cs[i])
}

pub open spec fn all_digits(cs: Seq<char>) -> bool {
    forall|i: int| 0 <= i < cs.len() ==> is_digit_char(cs[i])
}

/// The default value every collected variable starts with.
pub open spec fn zero_value() -> Value {
    Value { num: 0i64, den: 1u64 }
}

/// The tree built from a (substring, weight-slice) pair, with the next free
/// identifier threaded through: no positive weight makes a leaf (all
/// alphabetic: a variable; all digits: a constant; anything else cannot be
/// classified), and otherwise the rightmost least-positive-weight position
/// becomes the operator of a node whose children are built from the two
/// sides. Identifiers are assigned in traversal order: left subtree, right
/// subtree, then the node itself.
pub open spec fn spec_construct(cs: Seq<char>, ws: Seq<u128>, next: nat) -> Result<
    (TreeView, nat),
    ParseErrKind,
>
    decreases cs.len(),
{
    let m = split_weight(ws);
    if m == 0 {
        if all_alphabetic(cs) {
            Ok(
                (
                    TreeView { id: next, node_type: TypeView::Variable(cs), left: None, right: None },
                    next + 1,
                ),
            )
        } else if all_digits(cs) {
            if digits_value(cs) <= i64::MAX {
                Ok(
                    (
                        TreeView {
                            id: next,
                            node_type: TypeView::Constant(
                                Value { num: digits_value(cs) as i64, den: 1u64 },
                            ),
                            left: None,
                            right: None,
                        },
                        next + 1,
                    ),
                )
            } else {
                Err(ParseErrKind::ConstantTooLarge(cs))
            }
        } else {
            Err(ParseErrKind::MalformedLeaf(cs))
        }
    } else {
        let idx = rightmost_index(ws, m);
        if !(0 <= idx < cs.len() && ws.len() == cs.len()) {
            Err(ParseErrKind::MalformedLeaf(cs))
        } else {
            match spec_char_to_operator(cs[idx]) {
                None => Err(ParseErrKind::MalformedLeaf(cs)),
                Some(op) => match spec_construct(
                    cs.subrange(0, idx),
                    ws.subrange(0, idx),
                    next,
                ) {
                    Err(e) => Err(e),
                    Ok((lt, n1)) => match spec_construct(
                        cs.subrange(idx + 1, cs.len() as int),
                        ws.subrange(idx + 1, ws.len() as int),
                        n1,
                    ) {
                        Err(e) => Err(e),
                        Ok((rt, n2)) => Ok(
                            (
                                TreeView {
                                    id: n2,
                                    node_type: TypeView::Operator(op),
                                    left: Some(Box::new(lt)),
                                    right: Some(Box::new(rt)),
                                },
                                n2 + 1,
                            ),
                        ),
                    },
                },
            }
        }
    }
}

/// What one traversal of a finished tree adds to a variable mapping: every
/// variable leaf, visited node first, then left, then right, set to the
/// default value; a name the mapping already knows keeps its key position.
pub open spec fn spec_collect(t: TreeView, m: Map<Seq<char>, Value>, ks: Seq<Seq<char>>) -> (
    Map<Seq<char>, Value>,
    Seq<Seq<char>>,
)
    decreases t,
{
    let here = match t.node_type {
        TypeView::Variable(name) => (
            m.insert(name, zero_value()),
            if m.contains_key(name) {
                ks
            } else {
                ks.push(name)
            },
        ),
        _ => (m, ks),
    };
    let after_left = match t.left {
        Some(l) => spec_collect(*l, here.0, here.1),
        None => here,
    };
    match t.right {
        Some(r) => spec_collect(*r, after_left.0, after_left.1),
        None => after_left,
    }
}

/// What parsing yields: the whitespace-free input is weighted, parentheses
/// are dropped weight-correspondence kept, and the tree is built from the
/// remainder with identifiers from zero.
pub open spec fn spec_parse(s: Seq<char>) -> Result<TreeView, ParseErrKind> {
    let cleaned = spec_clean(s);
    if cleaned.len() > (usize::MAX - 1) / 2 {
        Err(ParseErrKind::TooLong)
    } else {
        match spec_weights(cleaned) {
            Err(e) => Err(e),
            Ok(ws) => {
                let stripped = spec_strip(cleaned, ws);
                match spec_construct(stripped.0, stripped.1, 0) {
                    Err(e) => Err(e),
                    Ok((t, _)) => Ok(t),
                }
            },
        }
    }
}

/// The human-readable description that each parse failure carries.
pub open spec fn parse_err_message(k: ParseErrKind) -> Seq<char> {
    match k {
        ParseErrKind::UnmatchedCloseParen => "Malformed expression: unmatched ')'"@,
        ParseErrKind::MalformedLeaf(text) => "Malformed expression: cannot classify '"@ + text
            + "'"@,
        ParseErrKind::ConstantTooLarge(text) => "Malformed expression: constant '"@ + text
            + "' is too large"@,
        ParseErrKind::TooLong => "Malformed expression: input is too long"@,
    }
}

/// A successful weighting of a prefix yields one weight per character, and
/// keeps the extra weight within four per nesting character.
proof fn lemma_weights_prefix_ok(s: Seq<char>, i: int)
    requires
        0 <= i,
    ensures
        match weights_prefix(s, i) {
            Ok((ws, extra)) => ws.len() == i && 0 <= extra && extra <= 4 * i,
            Err(_) => true,
        },
    decreases i,
{
    if i > 0 {
        lemma_weights_prefix_ok(s, i - 1);
    }
}

/// Once a prefix fails to weight, every longer prefix fails the same way.
proof fn lemma_weights_prefix_err(s: Seq<char>, i: int, j: int)
    requires
        0 <= i <= j,
        weights_prefix(s, i) is Err,
    ensures
        weights_prefix(s, j) == weights_prefix(s, i),
    decreases j,
{
    if j > i {
        lemma_weights_prefix_err(s, i, j - 1);
    }
}

/// When some weight is positive, the least positive weight is attained.
proof fn lemma_min_positive_exists(ws: Seq<u128>)
    requires
        min_positive(ws) != u128::MAX,
    ensures
        min_positive(ws) > 0,
        exists|j: int| 0 <= j < ws.len() && ws[j] == min_positive(ws),
    decreases ws.len(),
{
    let m = min_positive(ws);
    if ws.len() > 0 {
        let rest = min_positive(ws.drop_last());
        if ws.last() > 0 && ws.last() < rest {
            assert(ws[ws.len() - 1] == m);
        } else {
            lemma_min_positive_exists(ws.drop_last());
            let j = choose|j: int|
                0 <= j < ws.drop_last().len() && ws.drop_last()[j] == min_positive(ws.drop_last());
            assert(ws[j] == m);
        }
    }
}

/// When the weight `m` is present, the rightmost position with it is in
/// range, carries it, and no later position does.
proof fn lemma_rightmost_found(ws: Seq<u128>, m: u128)
    requires
        exists|j: int| 0 <= j < ws.len() && ws[j] == m,
    ensures
        0 <= rightmost_index(ws, m) < ws.len(),
        ws[rightmost_index(ws, m)] == m,
    decreases ws.len(),
{
    if ws.last() != m {
        let j = choose|j: int| 0 <= j < ws.len() && ws[j] == m;
        assert(ws.drop_last()[j] == m);
        lemma_rightmost_found(ws.drop_last(), m);
        assert(ws[rightmost_index(ws.drop_last(), m)] == ws.drop_last()[rightmost_index(
            ws.drop_last(),
            m,
        )]);
    }
}

/// Building a tree advances the identifier counter by at least one and by at
/// most one per character plus one.
proof fn lemma_construct_counter(cs: Seq<char>, ws: Seq<u128>, next: nat)
    ensures
        match spec_construct(cs, ws, next) {
            Ok((t, n2)) => next < n2 <= next + 2 * cs.len() + 1,
            Err(_) => true,
        },
    decreases cs.len(),
{
    let m = split_weight(ws);
    if m != 0 {
        let idx = rightmost_index(ws, m);
        if 0 <= idx < cs.len() && ws.len() == cs.len() {
            lemma_construct_counter(cs.subrange(0, idx), ws.subrange(0, idx), next);
            match spec_construct(cs.subrange(0, idx), ws.subrange(0, idx), next) {
                Ok((_, n1)) => {
                    lemma_construct_counter(
                        cs.subrange(idx + 1, cs.len() as int),
                        ws.subrange(idx + 1, ws.len() as int),
                        n1,
                    );
                },
                Err(_) => {},
            }
        }
    }
}

/// Every constant a built tree holds is a well-formed rational.
proof fn lemma_construct_wf(cs: Seq<char>, ws: Seq<u128>, next: nat)
    ensures
        match spec_construct(cs, ws, next) {
            Ok((t, _)) => tree_wf(t),
            Err(_) => true,
        },
    decreases cs.len(),
{
    let m = split_weight(ws);
    if m != 0 {
        let idx = rightmost_index(ws, m);
        if 0 <= idx < cs.len() && ws.len() == cs.len() {
            lemma_construct_wf(cs.subrange(0, idx), ws.subrange(0, idx), next);
            match spec_construct(cs.subrange(0, idx), ws.subrange(0, idx), next) {
                Ok((_, n1)) => {
                    lemma_construct_wf(
                        cs.subrange(idx + 1, cs.len() as int),
                        ws.subrange(idx + 1, ws.len() as int),
                        n1,
                    );
                },
                Err(_) => {},
            }
        }
    }
}

/// Collecting adds exactly the tree's variable names to the mapping's
/// domain, sets each collected name to the default value, and touches no
/// other entry.
proof fn lemma_spec_collect_map(t: TreeView, m: Map<Seq<char>, Value>, ks: Seq<Seq<char>>)
    ensures
        spec_collect(t, m, ks).0.dom() == m.dom().union(tree_names(t)),
        forall|k: Seq<char>|
            tree_names(t).contains(k) ==> #[trigger] spec_collect(t, m, ks).0[k] == zero_value(),
        forall|k: Seq<char>|
            !tree_names(t).contains(k) && m.contains_key(k) ==> #[trigger] spec_collect(
                t,
                m,
                ks,
            ).0[k] == m[k],
    decreases t,
{
    let here = match t.node_type {
        TypeView::Variable(name) => (
            m.insert(name, zero_value()),
            if m.contains_key(name) {
                ks
            } else {
                ks.push(name)
            },
        ),
        _ => (m, ks),
    };
    let after_left = match t.left {
        Some(l) => spec_collect(*l, here.0, here.1),
        None => here,
    };
    match t.left {
        Some(l) => {
            lemma_spec_collect_map(*l, here.0, here.1);
        },
        None => {},
    }
    match t.right {
        Some(r) => {
            lemma_spec_collect_map(*r, after_left.0, after_left.1);
        },
        None => {},
    }
    assert(spec_collect(t, m, ks).0.dom() =~= m.dom().union(tree_names(t)));
}

fn char_base_weight(c: char) -> (w: u128)
    ensures
        w == base_weight(c),
{
    if c == '+' || c == '-' {
        1
    } else if c == '*' || c == '/' {
        2
    } else if c == '^' {
        3
    } else {
        0
    }
}

/// The window's characters as a string.
fn window_string(cs: &Vec<char>, lo: usize, hi: usize) -> (s: String)
    requires
        lo <= hi <= cs@.len(),
    ensures
        s@ == cs@.subrange(lo as int, hi as int),
{
    let mut s = String::new();
    let mut j: usize = lo;
    while j < hi
        invariant
            lo <= j <= hi <= cs@.len(),
            s@ == cs@.subrange(lo as int, j as int),
        decreases hi - j,
    {
        crate::text::push_char(&mut s, cs[j]);
        proof {
            assert(s@ =~= cs@.subrange(lo as int, j + 1 as int));
        }
        j = j + 1;
    }
    s
}

fn unmatched_error() -> (r: ParseError)
    ensures
        r@ == parse_err_message(ParseErrKind::UnmatchedCloseParen),
{
    ParseError::new("Malformed expression: unmatched ')'")
}

fn too_long_error() -> (r: ParseError)
    ensures
        r@ == parse_err_message(ParseErrKind::TooLong),
{
    ParseError::new("Malformed expression: input is too long")
}

fn malformed_error(cs: &Vec<char>, lo: usize, hi: usize) -> (r: ParseError)
    requires
        lo <= hi <= cs@.len(),
    ensures
        r@ == parse_err_message(ParseErrKind::MalformedLeaf(cs@.subrange(lo as int, hi as int))),
{
    let mut s = String::from_str("Malformed expression: cannot classify '");
    let text = window_string(cs, lo, hi);
    s.append(text.as_str());
    s.append("'");
    proof {
        assert(s@ =~= parse_err_message(
            ParseErrKind::MalformedLeaf(cs@.subrange(lo as int, hi as int)),
        ));
    }
    ParseError { message: s }
}

fn too_large_error(cs: &Vec<char>, lo: usize, hi: usize) -> (r: ParseError)
    requires
        lo <= hi <= cs@.len(),
    ensures
        r@ == parse_err_message(ParseErrKind::ConstantTooLarge(cs@.subrange(lo as int, hi as int))),
{
    let mut s = String::from_str("Malformed expression: constant '");
    let text = window_string(cs, lo, hi);
    s.append(text.as_str());
    s.append("' is too large");
    proof {
        assert(s@ =~= parse_err_message(
            ParseErrKind::ConstantTooLarge(cs@.subrange(lo as int, hi as int)),
        ));
    }
    ParseError { message: s }
}

/// Whether every character of the window is alphabetic.
fn window_all_alphabetic(cs: &Vec<char>, lo: usize, hi: usize) -> (r: bool)
    requires
        lo <= hi <= cs@.len(),
    ensures
        r == all_alphabetic(cs@.subrange(lo as int, hi as int)),
{
    let ghost sub = cs@.subrange(lo as int, hi as int);
    let mut j: usize = lo;
    while j < hi
        invariant
            lo <= j <= hi <= cs@.len(),
            sub == cs@.subrange(lo as int, hi as int),
            forall|p: int| lo <= p < j ==> is_alphabetic_char(cs@[p]),
        decreases hi - j,
    {
        if !crate::text::char_is_alphabetic(cs[j]) {
            proof {
                assert(sub[j - lo] == cs@[j as int]);
            }
            return false;
        }
        j = j + 1;
    }
    proof {
        assert forall|p: int| 0 <= p < sub.len() implies is_alphabetic_char(sub[p]) by {
            assert(sub[p] == cs@[lo + p]);
        }
    }
    true
}

/// Whether every character of the window is a decimal digit.
fn window_all_digits(cs: &Vec<char>, lo: usize, hi: usize) -> (r: bool)
    requires
        lo <= hi <= cs@.len(),
    ensures
        r == all_digits(cs@.subrange(lo as int, hi as int)),
{
    let ghost sub = cs@.subrange(lo as int, hi as int);
    let mut j: usize = lo;
    while j < hi
        invariant
            lo <= j <= hi <= cs@.len(),
            sub == cs@.subrange(lo as int, hi as int),
            forall|p: int| lo <= p < j ==> is_digit_char(cs@[p]),
        decreases hi - j,
    {
        if crate::text::char_digit(cs[j]).is_none() {
            proof {
                assert(sub[j - lo] == cs@[j as int]);
            }
            return false;
        }
        j = j + 1;
    }
    proof {
        assert forall|p: int| 0 <= p < sub.len() implies is_digit_char(sub[p]) by {
            assert(sub[p] == cs@[lo + p]);
        }
    }
    true
}

/// The value of a window of decimal digits, when it fits 64 bits.
fn window_parse_digits(cs: &Vec<char>, lo: usize, hi: usize) -> (r: Option<u64>)
    requires
        lo <= hi <= cs@.len(),
        all_digits(cs@.subrange(lo as int, hi as int)),
    ensures
        match r {
            Some(v) => v as nat == digits_value(cs@.subrange(lo as int, hi as int)),
            None => digits_value(cs@.subrange(lo as int, hi as int)) > u64::MAX,
        },
{
    let ghost sub = cs@.subrange(lo as int, hi as int);
    let mut acc: u64 = 0;
    let mut j: usize = lo;
    while j < hi
        invariant
            lo <= j <= hi <= cs@.len(),
            all_digits(sub),
            sub == cs@.subrange(lo as int, hi as int),
            acc as nat == digits_value(sub.take(j - lo)),
        decreases hi - j,
    {
        proof {
            assert(sub[j - lo] == cs@[j as int]);
        }
        let d = match crate::text::char_digit(cs[j]) {
            Some(d) => d,
            None => {
                proof {
                    assert(false);
                }
                0
            },
        };
        proof {
            assert(sub.take(j + 1 - lo).drop_last() =~= sub.take(j - lo));
            assert(sub.take(j + 1 - lo).last() == sub[j - lo]);
        }
        let step = match acc.checked_mul(10) {
            Some(m) => m.checked_add(d),
            None => None,
        };
        match step {
            Some(v) => {
                acc = v;
            },
            None => {
                proof {
                    crate::text::lemma_digits_value_take(sub, j + 1 - lo);
                }
                return None;
            },
        }
        j = j + 1;
    }
    proof {
        assert(sub.take(hi - lo) =~= sub);
    }
    Some(acc)
}

/// Builds the tree for the window `lo..hi`, threading the next free
/// identifier, exactly as `spec_construct` describes for the window's
/// characters and weights.
fn construct_tree(
    cs: &Vec<char>,
    ws: &Vec<u128>,
    lo: usize,
    hi: usize,
    next_id: &mut usize,
) -> (r: Result<Tree, ParseError>)
    requires
        lo <= hi <= cs@.len(),
        ws@.len() == cs@.len(),
        *old(next_id) + 2 * (hi - lo) + 1 <= usize::MAX,
    ensures
        match spec_construct(
            cs@.subrange(lo as int, hi as int),
            ws@.subrange(lo as int, hi as int),
            *old(next_id) as nat,
        ) {
            Ok((t, n2)) => r matches Ok(tr) && tr@ == t && *final(next_id) as nat == n2,
            Err(k) => r matches Err(e) && e@ == parse_err_message(k),
        },
    decreases hi - lo,
{
    let ghost gcs = cs@.subrange(lo as int, hi as int);
    let ghost gws = ws@.subrange(lo as int, hi as int);
    let mut minimum: u128 = u128::MAX;
    let mut j: usize = lo;
    while j < hi
        invariant
            lo <= j <= hi <= cs@.len(),
            ws@.len() == cs@.len(),
            minimum == min_positive(ws@.subrange(lo as int, j as int)),
        decreases hi - j,
    {
        let w = ws[j];
        proof {
            assert(ws@.subrange(lo as int, j + 1 as int).drop_last() =~= ws@.subrange(
                lo as int,
                j as int,
            ));
            assert(ws@.subrange(lo as int, j + 1 as int).last() == ws@[j as int]);
        }
        if w > 0 && w < minimum {
            minimum = w;
        }
        j = j + 1;
    }
    let min_weight: u128 = if minimum == u128::MAX {
        0
    } else {
        minimum
    };
    proof {
        assert(min_weight == split_weight(gws));
    }
    if min_weight == 0 {
        if window_all_alphabetic(cs, lo, hi) {
            let name = window_string(cs, lo, hi);
            let t = Tree::new(Type::Variable(name), None, None, *next_id);
            *next_id = *next_id + 1;
            return Ok(t);
        }
        if window_all_digits(cs, lo, hi) {
            let parsed = window_parse_digits(cs, lo, hi);
            if let Some(v) = parsed {
                if v <= i64::MAX as u64 {
                    let t = Tree::new(
                        Type::Constant(Value { num: v as i64, den: 1 }),
                        None,
                        None,
                        *next_id,
                    );
                    *next_id = *next_id + 1;
                    return Ok(t);
                }
            }
            return Err(too_large_error(cs, lo, hi));
        }
        return Err(malformed_error(cs, lo, hi));
    }
    proof {
        lemma_min_positive_exists(gws);
        lemma_rightmost_found(gws, min_weight);
    }
    let mut idx: usize = lo;
    let mut j: usize = lo;
    while j < hi
        invariant
            lo <= j <= hi <= cs@.len(),
            ws@.len() == cs@.len(),
            lo <= idx,
            idx - lo == rightmost_index(ws@.subrange(lo as int, j as int), min_weight),
        decreases hi - j,
    {
        proof {
            assert(ws@.subrange(lo as int, j + 1 as int).drop_last() =~= ws@.subrange(
                lo as int,
                j as int,
            ));
            assert(ws@.subrange(lo as int, j + 1 as int).last() == ws@[j as int]);
        }
        if ws[j] == min_weight {
            idx = j;
        }
        j = j + 1;
    }
    proof {
        assert(0 <= idx - lo < gcs.len());
        assert(gws[idx - lo] == min_weight);
        assert(gcs[idx - lo] == cs@[idx as int]);
    }
    let op = match crate::parser::char_to_operator(cs[idx]) {
        Some(op) => op,
        None => {
            return Err(malformed_error(cs, lo, hi));
        },
    };
    proof {
        assert(gcs.subrange(0, idx - lo) =~= cs@.subrange(lo as int, idx as int));
        assert(gws.subrange(0, idx - lo) =~= ws@.subrange(lo as int, idx as int));
        assert(gcs.subrange(idx - lo + 1, gcs.len() as int) =~= cs@.subrange(
            idx + 1 as int,
            hi as int,
        ));
        assert(gws.subrange(idx - lo + 1, gws.len() as int) =~= ws@.subrange(
            idx + 1 as int,
            hi as int,
        ));
    }
    let left = match construct_tree(cs, ws, lo, idx, next_id) {
        Ok(t) => t,
        Err(e) => {
            return Err(e);
        },
    };
    proof {
        lemma_construct_counter(
            cs@.subrange(lo as int, idx as int),
            ws@.subrange(lo as int, idx as int),
            *old(next_id) as nat,
        );
    }
    let ghost n1 = *next_id as nat;
    let right = match construct_tree(cs, ws, idx + 1, hi, next_id) {
        Ok(t) => t,
        Err(e) => {
            return Err(e);
        },
    };
    proof {
        lemma_construct_counter(
            cs@.subrange(idx + 1 as int, hi as int),
            ws@.subrange(idx + 1 as int, hi as int),
            n1,
        );
    }
    let t = Tree::new(Type::Operator(op), Some(left), Some(right), *next_id);
    *next_id = *next_id + 1;
    Ok(t)
}

/// Walks a finished tree once, node before children and left before right,
/// setting every variable leaf's name to the default value.
fn collect_variables(tree: &Tree, variables: &mut VarMap)
    requires
        old(variables).wf(),
    ensures
        final(variables).wf(),
        final(variables)@ == spec_collect(tree@, old(variables)@, old(variables).key_seq()).0,
        final(variables).key_seq() == spec_collect(
            tree@,
            old(variables)@,
            old(variables).key_seq(),
        ).1,
    decreases *tree,
{
    if let Type::Variable(name) = &tree.node_type {
        variables.put(name.as_str(), Value { num: 0, den: 1 });
    }
    if let Some(left) = &tree.left {
        collect_variables(left, variables);
    }
    if let Some(right) = &tree.right {
        collect_variables(right, variables);
    }
}

/// Every tree the weight parser builds gives each operator node both
/// children: an empty operand side becomes a variable leaf with the empty
/// name, never a missing child. Missing-operand failures can therefore only
/// come from hand-built trees.
pub proof fn lemma_construct_well_formed(cs: Seq<char>, ws: Seq<u128>, next: nat)
    ensures
        match spec_construct(cs, ws, next) {
            Ok((t, _)) => tree_well_formed(t),
            Err(_) => true,
        },
    decreases cs.len(),
{
    let m = split_weight(ws);
    if m != 0 {
        let idx = rightmost_index(ws, m);
        if 0 <= idx < cs.len() && ws.len() == cs.len() {
            lemma_construct_well_formed(cs.subrange(0, idx), ws.subrange(0, idx), next);
            match spec_construct(cs.subrange(0, idx), ws.subrange(0, idx), next) {
                Ok((_, n1)) => {
                    lemma_construct_well_formed(
                        cs.subrange(idx + 1, cs.len() as int),
                        ws.subrange(idx + 1, ws.len() as int),
                        n1,
                    );
                },
                Err(_) => {},
            }
        }
    }
}

/// Every successfully parsed tree is well formed: together with the
/// evaluator's guarantees, evaluating a parsed tree can fail only for an
/// unknown variable or an arithmetic failure, and against the container's
/// own freshly collected mapping only for an arithmetic failure.
pub proof fn lemma_parsed_tree_well_formed(s: Seq<char>)
    ensures
        match spec_parse(s) {
            Ok(t) => tree_well_formed(t),
            Err(_) => true,
        },
{
    if spec_parse(s) is Ok {
        let cleaned = spec_clean(s);
        match spec_weights(cleaned) {
            Ok(ws) => {
                let stripped = spec_strip(cleaned, ws);
                lemma_construct_well_formed(stripped.0, stripped.1, 0);
            },
            Err(_) => {},
        }
    }
}

/// Parses input text into an expression tree by the precedence-weight scan.
pub struct TreeParser;

impl TreeParser {
    /// Turns the input into a container holding its expression tree and a
    /// mapping with every variable of the tree defaulted to zero, exactly as
    /// `spec_parse` describes; unparsable input is rejected with a
    /// description of the failure.
    pub fn parse(input: &str) -> (r: Result<Matpars, ParseError>)
        ensures
            match spec_parse(input@) {
                Ok(t) => {
                    &&& r matches Ok(m)
                    &&& m.tree@ == t
                    &&& m.wf()
                    &&& m.variables@ == Map::new(
                        |k: Seq<char>| tree_names(t).contains(k),
                        |k: Seq<char>| zero_value(),
                    )
                    &&& m.variables.key_seq() == spec_collect(
                        t,
                        Map::<Seq<char>, Value>::empty(),
                        Seq::<Seq<char>>::empty(),
                    ).1
                },
                Err(k) => r matches Err(e) && e@ == parse_err_message(k),
            },
    {
        let all = crate::text::str_chars(input);
        let n = all.len();
        let mut cleaned: Vec<char> = Vec::new();
        let mut i: usize = 0;
        while i < n
            invariant
                i <= n,
                n == input@.len(),
                all@ == input@,
                cleaned@ == spec_clean(input@.take(i as int)),
            decreases n - i,
        {
            let c = all[i];
            proof {
                assert(input@.take(i + 1 as int).drop_last() =~= input@.take(i as int));
                assert(input@.take(i + 1 as int).last() == input@[i as int]);
            }
            if !crate::text::char_is_whitespace(c) {
                cleaned.push(c);
            }
            i = i + 1;
        }
        proof {
            assert(input@.take(n as int) =~= input@);
        }
        let ghost gclean = spec_clean(input@);
        if cleaned.len() > (usize::MAX - 1) / 2 {
            return Err(too_long_error());
        }
        let cn = cleaned.len();
        let mut ws: Vec<u128> = Vec::new();
        let mut extra: u128 = 0;
        let mut i: usize = 0;
        while i < cn
            invariant
                i <= cn,
                cn == cleaned@.len(),
                cleaned@ == gclean,
                gclean == spec_clean(input@),
                cn <= (usize::MAX - 1) / 2,
                ws@.len() == i,
                weights_prefix(cleaned@, i as int) == Ok::<(Seq<u128>, int), ParseErrKind>(
                    (ws@, extra as int),
                ),
            decreases cn - i,
        {
            proof {
                lemma_weights_prefix_ok(cleaned@, i + 1 as int);
            }
            let c = cleaned[i];
            let bw = char_base_weight(c);
            if bw != 0 {
                ws.push(bw + extra);
            } else if c == '(' {
                ws.push(0);
                extra = extra + BRACKETS_EXTRA_WEIGHT;
            } else if c == ')' {
                if extra < BRACKETS_EXTRA_WEIGHT {
                    proof {
                        assert(weights_prefix(cleaned@, i + 1 as int) == Err::<
                            (Seq<u128>, int),
                            ParseErrKind,
                        >(ParseErrKind::UnmatchedCloseParen));
                        lemma_weights_prefix_err(cleaned@, i + 1 as int, cn as int);
                    }
                    return Err(unmatched_error());
                }
                ws.push(0);
                extra = extra - BRACKETS_EXTRA_WEIGHT;
            } else {
                ws.push(0);
            }
            i = i + 1;
        }
        let ghost gws = match spec_weights(gclean) {
            Ok(w) => w,
            Err(_) => Seq::<u128>::empty(),
        };
        proof {
            assert(spec_weights(gclean) == Ok::<Seq<u128>, ParseErrKind>(ws@));
            assert(gws == ws@);
        }
        let mut cs2: Vec<char> = Vec::new();
        let mut ws2: Vec<u128> = Vec::new();
        let mut i: usize = 0;
        while i < cn
            invariant
                i <= cn,
                cn == cleaned@.len(),
                ws@.len() == cn,
                (cs2@, ws2@) == spec_strip(cleaned@.take(i as int), ws@.take(i as int)),
                cs2@.len() == ws2@.len(),
                cs2@.len() <= i,
            decreases cn - i,
        {
            let c = cleaned[i];
            proof {
                assert(cleaned@.take(i + 1 as int).drop_last() =~= cleaned@.take(i as int));
                assert(ws@.take(i + 1 as int).drop_last() =~= ws@.take(i as int));
                assert(cleaned@.take(i + 1 as int).last() == cleaned@[i as int]);
                assert(ws@.take(i + 1 as int).last() == ws@[i as int]);
            }
            if c == '(' || c == ')' {
            } else {
                cs2.push(c);
                ws2.push(ws[i]);
            }
            i = i + 1;
        }
        proof {
            assert(cleaned@.take(cn as int) =~= cleaned@);
            assert(ws@.take(cn as int) =~= ws@);
        }
        let mut next_id: usize = 0;
        proof {
            assert(cs2@.subrange(0, cs2@.len() as int) =~= cs2@);
            assert(ws2@.subrange(0, ws2@.len() as int) =~= ws2@);
        }
        let hi = cs2.len();
        let tree = match construct_tree(&cs2, &ws2, 0, hi, &mut next_id) {
            Ok(t) => t,
            Err(e) => {
                return Err(e);
            },
        };
        proof {
            lemma_construct_wf(cs2@, ws2@, 0);
        }
        let mut variables = VarMap::new();
        collect_variables(&tree, &mut variables);
        proof {
            lemma_spec_collect_map(
                tree@,
                Map::<Seq<char>, Value>::empty(),
                Seq::<Seq<char>>::empty(),
            );
            assert(variables@ =~= Map::new(
                |k: Seq<char>| tree_names(tree@).contains(k),
                |k: Seq<char>| zero_value(),
            ));
        }
        Ok(Matpars { variables, tree })
    }
}

} // verus!
