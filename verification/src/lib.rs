//! Parses infix arithmetic expressions (`+ - * / ^`, parentheses, named
//! variables, numeric literals) into a binary expression tree by a
//! per-character precedence-weight scan, and evaluates such trees against a
//! variable-to-value mapping with exact rational arithmetic.

pub mod errors;
pub mod eval;
pub mod exporter;
pub mod parser;
pub mod text;
pub mod vars;
pub mod value;

pub use errors::EvaluationError;
pub use errors::InvalidVariableError;
pub use errors::ParseError;
pub use eval::eval_tree;
pub use parser::Matpars;
pub use parser::Operator;
pub use parser::Tree;
pub use parser::TreeParser;
pub use parser::Type;
pub use value::ArithErr;
pub use value::Value;
pub use vars::VarMap;
