//! Matchers: single steps that map a node to the nodes they select in it.
use crate::ast::{child_named, child_of, children, children_of, element_at, index_of};
use crate::json::{deref_all, Json};
use vstd::prelude::*;

verus! {

/// Maps a node to a list of nodes. Where the node does not match, or has no
/// part that the matcher selects, the list is empty.
pub trait Matcher {
    /// The nodes that this matcher selects in `node`.
    spec fn selects(&self, node: Json) -> Seq<Json>;

    fn select<'a>(&'a self, node: &'a Json) -> (r: Vec<&'a Json>)
        ensures
            deref_all(r@) == self.selects(*node),
    ;
}

/// Selects exactly the node it is applied to (which need not be the root of
/// the document).
pub struct RootSelector {}

impl Matcher for RootSelector {
    open spec fn selects(&self, node: Json) -> Seq<Json> {
        seq![node]
    }

    fn select<'a>(&'a self, node: &'a Json) -> (r: Vec<&'a Json>) {
        let r = vec![node];
        assert(deref_all(r@) =~= seq![*node]);
        r
    }
}

/// Selects all children of a node.
pub struct WildcardedChild {}

impl Matcher for WildcardedChild {
    open spec fn selects(&self, node: Json) -> Seq<Json> {
        children(node)
    }

    fn select<'a>(&'a self, node: &'a Json) -> (r: Vec<&'a Json>) {
        children_of(node)
    }
}

/// Selects a named child.
pub struct Child {
    name: String,
}

impl View for Child {
    type V = Seq<char>;

    closed spec fn view(&self) -> Seq<char> {
        self.name@
    }
}

impl Child {
    pub fn new(name: String) -> (r: Self)
        ensures
            r@ == name@,
    {
        Child { name }
    }
}

impl Matcher for Child {
    open spec fn selects(&self, node: Json) -> Seq<Json> {
        child_named(node, self@)
    }

    fn select<'a>(&'a self, node: &'a Json) -> (r: Vec<&'a Json>) {
        child_of(node, &self.name)
    }
}

/// Selects an array item by index; a negative index counts from the end.
pub struct ArrayIndex {
    index: i64,
}

impl View for ArrayIndex {
    type V = int;

    closed spec fn view(&self) -> int {
        self.index as int
    }
}

impl ArrayIndex {
    pub fn new(index: i64) -> (r: Self)
        ensures
            r@ == index as int,
    {
        ArrayIndex { index }
    }
}

impl Matcher for ArrayIndex {
    open spec fn selects(&self, node: Json) -> Seq<Json> {
        element_at(node, self@)
    }

    fn select<'a>(&'a self, node: &'a Json) -> (r: Vec<&'a Json>) {
        index_of(node, self.index)
    }
}

/// What the matchers `ms` select in `node`, concatenated in order.
pub open spec fn selects_all<M: Matcher>(ms: Seq<M>, node: Json) -> Seq<Json>
    decreases ms.len(),
{
    if ms.len() == 0 {
        seq![]
    } else {
        selects_all(ms.drop_last(), node) + ms.last().selects(node)
    }
}

/// Applies a sequence of matchers to the same node and concatenates what
/// they select.
pub struct Union<M: Matcher> {
    elements: Vec<M>,
}

impl<M: Matcher> View for Union<M> {
    type V = Seq<M>;

    closed spec fn view(&self) -> Seq<M> {
        self.elements@
    }
}

impl<M: Matcher> Union<M> {
    pub fn new(elements: Vec<M>) -> (r: Self)
        ensures
            r@ == elements@,
    {
        Union { elements }
    }
}

impl<M: Matcher> Matcher for Union<M> {
    open spec fn selects(&self, node: Json) -> Seq<Json> {
        selects_all(self@, node)
    }

    fn select<'a>(&'a self, node: &'a Json) -> (r: Vec<&'a Json>) {
        let mut r: Vec<&'a Json> = Vec::new();
        let mut i: usize = 0;
        while i < self.elements.len()
            invariant
                i <= self@.len(),
                deref_all(r@) == selects_all(self@.subrange(0, i as int), *node),
            decreases self@.len() - i,
        {
            let mut part = self.elements[i].select(node);
            proof {
                assert(deref_all(r@ + part@) =~= deref_all(r@) + deref_all(part@));
                assert(self@.subrange(0, i + 1).drop_last() =~= self@.subrange(0, i as int));
            }
            r.append(&mut part);
            i += 1;
        }
        assert(self@.subrange(0, self@.len() as int) =~= self@);
        r
    }
}

} // verus!
