//! The entry points: compile a selector once, then apply it to documents.
use crate::ast;
use crate::ast::{path_find, PathModel};
use crate::json::{deref_all, Json};
use crate::parser;
use crate::parser::parse_model;
use vstd::prelude::*;

verus! {

/// A selector that does not follow the grammar.
#[derive(Debug)]
pub struct SyntaxError {
    message: String,
}

impl View for SyntaxError {
    type V = Seq<char>;

    closed spec fn view(&self) -> Seq<char> {
        self.message@
    }
}

impl SyntaxError {
    /// What went wrong, and where.
    pub fn message(&self) -> (r: &str)
        ensures
            r@ == self@,
    {
        self.message.as_str()
    }
}

/// The failures of [`Path::find`]. Evaluation cannot fail: the one variant
/// is held in reserve, and `find` never returns it.
#[derive(Debug)]
pub enum FindError {
    Reserved,
}

/// Compiles a selector.
pub fn parse(selector: &str) -> (r: Result<Path, SyntaxError>)
    ensures
        match r {
            Ok(p) => parse_model(selector@) == Some(p@),
            Err(_) => parse_model(selector@) is None,
        },
{
    match parser::parse(selector) {
        Ok(p) => Ok(Path(p)),
        Err(message) => Err(SyntaxError { message }),
    }
}

/// A compiled selector.
pub struct Path(pub ast::Path);

impl View for Path {
    type V = PathModel;

    open spec fn view(&self) -> PathModel {
        self.0@
    }
}

impl Path {
    /// The nodes of `document` that the selector picks, in order.
    pub fn find<'a>(&'a self, document: &'a Json) -> (r: Result<Vec<&'a Json>, FindError>)
        ensures
            r is Ok,
            r matches Ok(v) && deref_all(v@) == path_find(self@, *document),
    {
        Ok(self.0.find(document))
    }
}

} // verus!
