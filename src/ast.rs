//! The syntax tree of a selector, what it means, and its evaluation.
use crate::json::{deref_all, Json};
use vstd::prelude::*;

verus! {

/// What a member of a bracketed union denotes.
pub enum ElementModel {
    Name(Seq<char>),
    Index(int),
    Slice(Option<int>, Option<int>, Option<int>),
}

/// What a selector denotes.
pub enum SelectorModel {
    Union(Seq<ElementModel>),
    DotName(Seq<char>),
    DotWildcard,
}

/// What a path denotes: a left-nested chain of selectors over the root.
pub enum PathModel {
    Root,
    Sel(Box<PathModel>, SelectorModel),
}

/// A path is a chain of selectors, nested to the left: `$.a.b` is
/// `Sel(Sel(Root, DotName("a")), DotName("b"))`, so the outermost node is
/// the selector written last, and `Root` is the innermost leaf.
#[derive(Debug)]
pub enum Path {
    Root,
    Sel(Box<Path>, Selector),
}

/// One step of a path.
#[derive(Debug)]
pub enum Selector {
    Union(Vec<UnionElement>),
    DotName(String),
    DotWildcard,
}

/// One member of a bracketed union.
#[derive(Debug)]
pub enum UnionElement {
    Name(String),
    Slice { start: Option<isize>, end: Option<isize>, step: Option<isize> },
    Index(i64),
}

pub open spec fn opt_int(x: Option<isize>) -> Option<int> {
    match x {
        Some(n) => Some(n as int),
        None => None,
    }
}

impl View for UnionElement {
    type V = ElementModel;

    open spec fn view(&self) -> ElementModel {
        match self {
            UnionElement::Name(n) => ElementModel::Name(n@),
            UnionElement::Slice { start, end, step } => ElementModel::Slice(
                opt_int(*start),
                opt_int(*end),
                opt_int(*step),
            ),
            UnionElement::Index(i) => ElementModel::Index(*i as int),
        }
    }
}

pub open spec fn elements_model(es: Seq<UnionElement>) -> Seq<ElementModel> {
    es.map_values(|e: UnionElement| e@)
}

impl View for Selector {
    type V = SelectorModel;

    open spec fn view(&self) -> SelectorModel {
        match self {
            Selector::Union(es) => SelectorModel::Union(elements_model(es@)),
            Selector::DotName(n) => SelectorModel::DotName(n@),
            Selector::DotWildcard => SelectorModel::DotWildcard,
        }
    }
}

pub open spec fn path_model(p: Path) -> PathModel
    decreases p,
{
    match p {
        Path::Root => PathModel::Root,
        Path::Sel(inner, sel) => PathModel::Sel(Box::new(path_model(*inner)), sel@),
    }
}

impl View for Path {
    type V = PathModel;

    open spec fn view(&self) -> PathModel {
        path_model(*self)
    }
}

// ---------------------------------------------------------------------------
// Meaning of selectors on a document

/// `i` is the position of the first member of `m` whose key is `name`.
pub open spec fn first_key_at(m: Seq<(String, Json)>, name: Seq<char>, i: int) -> bool {
    &&& 0 <= i < m.len()
    &&& m[i].0@ == name
    &&& forall|j: int| 0 <= j < i ==> m[j].0@ != name
}

/// The value of the member called `name`, as a list of zero or one value.
pub open spec fn child_named(v: Json, name: Seq<char>) -> Seq<Json> {
    match v {
        Json::Object(m) => if exists|i: int| first_key_at(m@, name, i) {
            seq![m@[choose|i: int| first_key_at(m@, name, i)].1]
        } else {
            seq![]
        },
        _ => seq![],
    }
}

/// The values of the members of an object, in order.
pub open spec fn member_values(m: Seq<(String, Json)>) -> Seq<Json> {
    m.map_values(|e: (String, Json)| e.1)
}

/// The values of an object's members, or an array's elements, in order.
pub open spec fn children(v: Json) -> Seq<Json> {
    match v {
        Json::Object(m) => member_values(m@),
        Json::Array(a) => a@,
        _ => seq![],
    }
}

/// The element at index `i` of an array, counting from the end when `i` is
/// negative.
pub open spec fn element_at(v: Json, i: int) -> Seq<Json> {
    match v {
        Json::Array(a) => {
            let k = if i >= 0 { i } else { a.len() + i };
            if 0 <= k < a.len() {
                seq![a@[k]]
            } else {
                seq![]
            }
        },
        _ => seq![],
    }
}

pub open spec fn clamp(n: int, lo: int, hi: int) -> int {
    if n < lo {
        lo
    } else if n > hi {
        hi
    } else {
        n
    }
}

/// The positions that a slice visits in an array of length `len`. `from` and
/// `to` are already counted from the start (a bound taken from the end has
/// had `len` added); they are clamped to the array, and the walk goes from
/// `from` towards `to`, which it does not reach, by `step`.
pub open spec fn slice_positions(from: Option<int>, to: Option<int>, step: int, len: int) -> Seq<int> {
    if step == 0 {
        seq![]
    } else {
        let lo = if step > 0 { 0 } else { -1 };
        let hi = if step > 0 { len } else { len - 1 };
        let a = match from {
            Some(n) => clamp(n, lo, hi),
            None => if step > 0 { 0 } else { len - 1 },
        };
        let b = match to {
            Some(n) => clamp(n, lo, hi),
            None => if step > 0 { len } else { -1 },
        };
        let count = if step > 0 {
            if a < b { (b - a - 1) / step + 1 } else { 0 }
        } else {
            if a > b { (a - b - 1) / (-step) + 1 } else { 0 }
        };
        Seq::new(count as nat, |k: int| a + k * step)
    }
}

/// A slice bound as written, counted from the start of an array of length
/// `len`.
pub open spec fn from_start(x: Option<int>, len: int) -> Option<int> {
    match x {
        Some(n) => Some(if n < 0 { len + n } else { n }),
        None => None,
    }
}

/// The elements of an array that a slice selects.
pub open spec fn slice_of(v: Json, start: Option<int>, end: Option<int>, step: Option<int>) -> Seq<Json> {
    match v {
        Json::Array(a) => {
            let len = a.len() as int;
            let st = match step {
                Some(s) => s,
                None => 1,
            };
            slice_positions(from_start(start, len), from_start(end, len), st, len).map_values(
                |k: int| a@[k],
            )
        },
        _ => seq![],
    }
}

pub open spec fn element_find(e: ElementModel, v: Json) -> Seq<Json> {
    match e {
        ElementModel::Name(n) => child_named(v, n),
        ElementModel::Index(i) => element_at(v, i),
        ElementModel::Slice(start, end, step) => slice_of(v, start, end, step),
    }
}

/// The results of the members of a union on `v`, concatenated in order.
pub open spec fn union_find(es: Seq<ElementModel>, v: Json) -> Seq<Json>
    decreases es.len(),
{
    if es.len() == 0 {
        seq![]
    } else {
        union_find(es.drop_last(), v) + element_find(es.last(), v)
    }
}

pub open spec fn selector_find(s: SelectorModel, v: Json) -> Seq<Json> {
    match s {
        SelectorModel::Union(es) => union_find(es, v),
        SelectorModel::DotName(n) => child_named(v, n),
        SelectorModel::DotWildcard => children(v),
    }
}

/// A selector applied to each node in turn, the results concatenated.
pub open spec fn select_each(s: SelectorModel, nodes: Seq<Json>) -> Seq<Json>
    decreases nodes.len(),
{
    if nodes.len() == 0 {
        seq![]
    } else {
        select_each(s, nodes.drop_last()) + selector_find(s, nodes.last())
    }
}

/// The nodes that a path selects in a document.
pub open spec fn path_find(p: PathModel, d: Json) -> Seq<Json>
    decreases p,
{
    match p {
        PathModel::Root => seq![d],
        PathModel::Sel(inner, s) => select_each(s, path_find(*inner, d)),
    }
}

// ---------------------------------------------------------------------------
// Evaluation

proof fn lemma_deref_concat(a: Seq<&Json>, b: Seq<&Json>)
    ensures
        deref_all(a + b) == deref_all(a) + deref_all(b),
{
    assert(deref_all(a + b) =~= deref_all(a) + deref_all(b));
}

/// Appends `more` to `out`, keeping track of the values referred to.
fn append_refs<'a>(out: &mut Vec<&'a Json>, more: Vec<&'a Json>)
    ensures
        deref_all(final(out)@) == deref_all(old(out)@) + deref_all(more@),
{
    let mut more = more;
    proof {
        lemma_deref_concat(out@, more@);
    }
    out.append(&mut more);
}

/// A bound of a slice, in the terms that the slicing routine takes.
pub(crate) enum SliceBound {
    Head(usize),
    Tail(usize),
    Open,
}

/// The position that a bound denotes in an array of length `len`.
pub(crate) open spec fn bound_position(b: SliceBound, len: int) -> Option<int> {
    match b {
        SliceBound::Head(n) => Some(n as int),
        SliceBound::Tail(n) => Some(len - n),
        SliceBound::Open => None,
    }
}

/// A bound as written, told apart by sign: a negative one counts back from
/// the end by its magnitude, which always fits in `usize`.
fn slice_bound(x: Option<isize>) -> (r: SliceBound)
    ensures
        forall|len: int| bound_position(r, len) == from_start(opt_int(x), len),
{
    match x {
        None => SliceBound::Open,
        Some(n) => if n >= 0 {
            SliceBound::Head(n as usize)
        } else {
            let m: usize = (-(n + 1)) as usize;
            SliceBound::Tail(m + 1)
        },
    }
}

/// Relies on slyce::Slice::apply: the elements of `arr` at the positions
/// that the slice visits, with both bounds clamped to the array.
#[verifier::external_body]
fn apply_slice<'a>(arr: &'a Vec<Json>, start: SliceBound, end: SliceBound, step: Option<isize>) -> (r: Vec<&'a Json>)
    ensures
        deref_all(r@) == slice_positions(
            bound_position(start, arr@.len() as int),
            bound_position(end, arr@.len() as int),
            match step { Some(s) => s as int, None => 1 },
            arr@.len() as int,
        ).map_values(|k: int| arr@[k]),
{
    let index = |b: SliceBound| match b {
        SliceBound::Head(n) => slyce::Index::Head(n),
        SliceBound::Tail(n) => slyce::Index::Tail(n),
        SliceBound::Open => slyce::Index::Default,
    };
    let slice = slyce::Slice { start: index(start), end: index(end), step };
    slice.apply(arr.as_slice()).collect()
}

/// The value of the first member of `m` called `name`, if there is one.
fn member_named<'a>(m: &'a Vec<(String, Json)>, name: &String) -> (r: Vec<&'a Json>)
    ensures
        deref_all(r@) == child_named(Json::Object(*m), name@),
{
    let mut i: usize = 0;
    while i < m.len()
        invariant
            i <= m@.len(),
            forall|j: int| 0 <= j < i ==> m@[j].0@ != name@,
        decreases m@.len() - i,
    {
        if m[i].0 == *name {
            let r = vec![&m[i].1];
            proof {
                assert(first_key_at(m@, name@, i as int));
                let c = choose|c: int| first_key_at(m@, name@, c);
                assert(c == i) by {
                    if c < i {
                        assert(m@[c].0@ != name@);
                    } else if c > i {
                        assert(m@[i as int].0@ != name@);
                    }
                }
                assert(deref_all(r@) =~= child_named(Json::Object(*m), name@));
            }
            return r;
        }
        i += 1;
    }
    let r: Vec<&'a Json> = Vec::new();
    proof {
        assert(!exists|c: int| first_key_at(m@, name@, c));
        assert(deref_all(r@) =~= child_named(Json::Object(*m), name@));
    }
    r
}

pub(crate) fn child_of<'a>(v: &'a Json, name: &String) -> (r: Vec<&'a Json>)
    ensures
        deref_all(r@) == child_named(*v, name@),
{
    match v {
        Json::Object(m) => member_named(m, name),
        _ => {
            let r: Vec<&'a Json> = Vec::new();
            assert(deref_all(r@) =~= child_named(*v, name@));
            r
        },
    }
}

pub(crate) fn children_of<'a>(v: &'a Json) -> (r: Vec<&'a Json>)
    ensures
        deref_all(r@) == children(*v),
{
    let mut r: Vec<&'a Json> = Vec::new();
    match v {
        Json::Object(m) => {
            let mut i: usize = 0;
            while i < m.len()
                invariant
                    i <= m@.len(),
                    r@.len() == i,
                    deref_all(r@) == member_values(m@.subrange(0, i as int)),
                decreases m@.len() - i,
            {
                let ghost prev = r@;
                r.push(&m[i].1);
                assert forall|k: int| 0 <= k < i implies deref_all(r@)[k] == member_values(
                    m@.subrange(0, i + 1),
                )[k] by {
                    assert(r@[k] == prev[k]);
                    assert(deref_all(prev)[k] == member_values(m@.subrange(0, i as int))[k]);
                }
                assert(deref_all(r@) =~= member_values(m@.subrange(0, i + 1)));
                i += 1;
            }
            assert(m@.subrange(0, m@.len() as int) =~= m@);
        },
        Json::Array(a) => {
            let mut i: usize = 0;
            while i < a.len()
                invariant
                    i <= a@.len(),
                    r@.len() == i,
                    deref_all(r@) == a@.subrange(0, i as int),
                decreases a@.len() - i,
            {
                r.push(&a[i]);
                assert(deref_all(r@) =~= a@.subrange(0, i + 1));
                i += 1;
            }
            assert(a@.subrange(0, a@.len() as int) =~= a@);
        },
        _ => {},
    }
    assert(deref_all(r@) =~= children(*v));
    r
}

pub(crate) fn index_of<'a>(v: &'a Json, index: i64) -> (r: Vec<&'a Json>)
    ensures
        deref_all(r@) == element_at(*v, index as int),
{
    let mut r: Vec<&'a Json> = Vec::new();
    if let Json::Array(a) = v {
        let len = a.len() as i128;
        let k: i128 = if index >= 0 { index as i128 } else { len + index as i128 };
        if 0 <= k && k < len {
            r.push(&a[k as usize]);
        }
    }
    assert(deref_all(r@) =~= element_at(*v, index as int));
    r
}

impl UnionElement {
    /// The nodes that this member selects in `v`.
    pub fn find<'a>(&self, v: &'a Json) -> (r: Vec<&'a Json>)
        ensures
            deref_all(r@) == element_find(self@, *v),
    {
        match self {
            UnionElement::Name(name) => child_of(v, name),
            UnionElement::Slice { start, end, step } => match v {
                Json::Array(a) => apply_slice(a, slice_bound(*start), slice_bound(*end), *step),
                _ => {
                    let r: Vec<&'a Json> = Vec::new();
                    assert(deref_all(r@) =~= element_find(self@, *v));
                    r
                },
            },
            UnionElement::Index(i) => index_of(v, *i),
        }
    }
}

impl Selector {
    /// The nodes that this selector selects in `input`.
    pub fn find<'a>(&'a self, input: &'a Json) -> (r: Vec<&'a Json>)
        ensures
            deref_all(r@) == selector_find(self@, *input),
    {
        match self {
            Selector::Union(es) => {
                let mut r: Vec<&'a Json> = Vec::new();
                let mut i: usize = 0;
                while i < es.len()
                    invariant
                        i <= es@.len(),
                        deref_all(r@) == union_find(elements_model(es@).subrange(0, i as int), *input),
                    decreases es@.len() - i,
                {
                    let part = es[i].find(input);
                    append_refs(&mut r, part);
                    assert(elements_model(es@).subrange(0, i + 1).drop_last()
                        =~= elements_model(es@).subrange(0, i as int));
                    i += 1;
                }
                assert(elements_model(es@).subrange(0, es@.len() as int) =~= elements_model(es@));
                r
            },
            Selector::DotName(name) => child_of(input, name),
            Selector::DotWildcard => children_of(input),
        }
    }
}

impl Path {
    /// The nodes that this path selects in `input`, in order, with repeats.
    pub fn find<'a>(&'a self, input: &'a Json) -> (r: Vec<&'a Json>)
        ensures
            deref_all(r@) == path_find(self@, *input),
        decreases self,
    {
        match self {
            Path::Root => {
                let r = vec![input];
                assert(deref_all(r@) =~= seq![*input]);
                r
            },
            Path::Sel(inner, sel) => {
                let nodes = inner.find(input);
                let ghost m = deref_all(nodes@);
                let mut r: Vec<&'a Json> = Vec::new();
                let mut i: usize = 0;
                while i < nodes.len()
                    invariant
                        i <= nodes@.len(),
                        m == deref_all(nodes@),
                        deref_all(r@) == select_each(sel@, m.subrange(0, i as int)),
                    decreases nodes@.len() - i,
                {
                    let part = sel.find(nodes[i]);
                    append_refs(&mut r, part);
                    assert(m.subrange(0, i + 1).drop_last() =~= m.subrange(0, i as int));
                    i += 1;
                }
                assert(m.subrange(0, m.len() as int) =~= m);
                r
            },
        }
    }
}

} // verus!
