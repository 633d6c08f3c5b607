//! JSONPath selectors: a parser from selector text to a syntax tree, and an
//! evaluator that applies the tree to a JSON document.
pub mod ast;
pub mod json;
pub mod jsonpath;
pub mod laws;
pub mod matchers;
pub mod parser;
pub mod path;
