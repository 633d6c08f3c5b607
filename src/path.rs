//! A path as a plain sequence of matchers, each applied to what the ones
//! before it selected.
use crate::json::{deref_all, Json};
use crate::matchers::Matcher;
use vstd::prelude::*;

verus! {

/// The failures of [`Path::find`]. Evaluation cannot fail: the one variant
/// is held in reserve, and `find` never returns it.
#[derive(Debug)]
pub enum FindError {
    Reserved,
}

/// Something that selects nodes in a document.
pub trait Path {
    /// The nodes that this path selects in `document`.
    spec fn selects(&self, document: Json) -> Seq<Json>;

    fn find<'a>(&'a self, document: &'a Json) -> (r: Result<Vec<&'a Json>, FindError>)
        ensures
            r matches Ok(v) && deref_all(v@) == self.selects(*document),
    ;
}

/// A matcher applied to each node in turn, the results concatenated.
pub open spec fn select_each<M: Matcher>(m: M, nodes: Seq<Json>) -> Seq<Json>
    decreases nodes.len(),
{
    if nodes.len() == 0 {
        seq![]
    } else {
        select_each(m, nodes.drop_last()) + m.selects(nodes.last())
    }
}

/// The nodes that the matchers `ms`, applied one after another, select in
/// `document`.
pub open spec fn run_matchers<M: Matcher>(ms: Seq<M>, document: Json) -> Seq<Json>
    decreases ms.len(),
{
    if ms.len() == 0 {
        seq![document]
    } else {
        select_each(ms.last(), run_matchers(ms.drop_last(), document))
    }
}

/// A path made of matchers: the document alone passes through each of them
/// in turn.
pub struct SelectorPath<M: Matcher> {
    matchers: Vec<M>,
}

impl<M: Matcher> View for SelectorPath<M> {
    type V = Seq<M>;

    closed spec fn view(&self) -> Seq<M> {
        self.matchers@
    }
}

/// A path that applies `matchers` in order.
pub fn new<M: Matcher>(matchers: Vec<M>) -> (r: SelectorPath<M>)
    ensures
        r@ == matchers@,
{
    SelectorPath { matchers }
}

impl<M: Matcher> Path for SelectorPath<M> {
    open spec fn selects(&self, document: Json) -> Seq<Json> {
        run_matchers(self@, document)
    }

    fn find<'a>(&'a self, document: &'a Json) -> (r: Result<Vec<&'a Json>, FindError>) {
        let mut nodes: Vec<&'a Json> = vec![document];
        let mut i: usize = 0;
        assert(deref_all(nodes@) =~= seq![*document]);
        while i < self.matchers.len()
            invariant
                i <= self@.len(),
                deref_all(nodes@) == run_matchers(self@.subrange(0, i as int), *document),
            decreases self@.len() - i,
        {
            let matcher = &self.matchers[i];
            let ghost before = deref_all(nodes@);
            let mut next: Vec<&'a Json> = Vec::new();
            let mut j: usize = 0;
            while j < nodes.len()
                invariant
                    j <= nodes@.len(),
                    before == deref_all(nodes@),
                    deref_all(next@) == select_each(*matcher, before.subrange(0, j as int)),
                decreases nodes@.len() - j,
            {
                let mut part = matcher.select(nodes[j]);
                proof {
                    assert(deref_all(next@ + part@) =~= deref_all(next@) + deref_all(part@));
                    assert(before.subrange(0, j + 1).drop_last() =~= before.subrange(0, j as int));
                }
                next.append(&mut part);
                j += 1;
            }
            proof {
                assert(before.subrange(0, before.len() as int) =~= before);
                assert(self@.subrange(0, i + 1).drop_last() =~= self@.subrange(0, i as int));
            }
            nodes = next;
            i += 1;
        }
        assert(self@.subrange(0, self@.len() as int) =~= self@);
        Ok(nodes)
    }
}

} // verus!
