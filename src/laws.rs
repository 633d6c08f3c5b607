//! Facts about what selectors select, proved from their definitions.
use crate::ast::{
    children, element_find, first_key_at, member_values, path_find, selector_find, slice_positions,
    union_find, ElementModel, PathModel, SelectorModel,
};
use crate::json::Json;
use crate::parser::parse_model;
use vstd::prelude::*;

verus! {

/// The root path selects the document itself, and nothing else.
pub proof fn root_selects_document(d: Json)
    ensures
        path_find(PathModel::Root, d) == seq![d],
{
}

/// A dot-name selects, from an object, the value of the member with that
/// key; from an object without the key, or from anything but an object,
/// it selects nothing.
pub proof fn dot_name_selects_member(v: Json, k: Seq<char>)
    ensures
        forall|i: int|
            #![trigger first_key_at(v->Object_0@, k, i)]
            v is Object && first_key_at(v->Object_0@, k, i) ==> selector_find(
                SelectorModel::DotName(k),
                v,
            ) == seq![v->Object_0@[i].1],
        v is Object && (forall|i: int| 0 <= i < v->Object_0@.len() ==> v->Object_0@[i].0@ != k)
            ==> selector_find(SelectorModel::DotName(k), v) == Seq::<Json>::empty(),
        !(v is Object) ==> selector_find(SelectorModel::DotName(k), v) == Seq::<Json>::empty(),
{
    if let Json::Object(m) = v {
        assert forall|i: int| #![trigger first_key_at(m@, k, i)] first_key_at(m@, k, i) implies selector_find(
            SelectorModel::DotName(k),
            v,
        ) == seq![m@[i].1] by {
            let c = choose|c: int| first_key_at(m@, k, c);
            assert(c == i) by {
                if c < i {
                    assert(m@[c].0@ != k);
                } else if c > i {
                    assert(m@[i].0@ != k);
                }
            }
        }
    }
}

/// A wildcard selects an object's member values in insertion order, an
/// array's elements in index order, and nothing from any other value.
pub proof fn wildcard_selects_children(v: Json)
    ensures
        v is Object ==> selector_find(SelectorModel::DotWildcard, v).len() == v->Object_0@.len()
            && forall|i: int|
            0 <= i < v->Object_0@.len() ==> #[trigger] selector_find(SelectorModel::DotWildcard, v)[i]
                == v->Object_0@[i].1,
        v is Array ==> selector_find(SelectorModel::DotWildcard, v) == v->Array_0@,
        !(v is Object) && !(v is Array) ==> selector_find(SelectorModel::DotWildcard, v)
            == Seq::<Json>::empty(),
{
}

/// An index selects the element at that index of an array, counting from
/// the end when it is negative, and nothing when it falls outside.
pub proof fn index_selects_element(a: Vec<Json>, i: int)
    ensures
        0 <= i < a@.len() ==> element_find(ElementModel::Index(i), Json::Array(a)) == seq![a@[i]],
        i < 0 && 0 <= a@.len() + i ==> element_find(ElementModel::Index(i), Json::Array(a))
            == seq![a@[a@.len() + i]],
        (i >= a@.len() || a@.len() + i < 0) ==> element_find(ElementModel::Index(i), Json::Array(a))
            == Seq::<Json>::empty(),
{
}

/// The slice with both bounds open and step one selects the whole array.
pub proof fn full_slice_is_identity(a: Vec<Json>)
    ensures
        element_find(ElementModel::Slice(None, None, Some(1)), Json::Array(a)) == a@,
{
    let len = a@.len() as int;
    if len > 0 {
        assert((len - 0 - 1) / 1 + 1 == len);
    }
    assert(element_find(ElementModel::Slice(None, None, Some(1)), Json::Array(a)) =~= a@);
}

/// The slice with both bounds open and step minus one selects the array
/// reversed.
pub proof fn reverse_slice_reverses(a: Vec<Json>)
    ensures
        element_find(ElementModel::Slice(None, None, Some(-1)), Json::Array(a)).len() == a@.len(),
        forall|k: int|
            0 <= k < a@.len() ==> #[trigger] element_find(
                ElementModel::Slice(None, None, Some(-1)),
                Json::Array(a),
            )[k] == a@[a@.len() - 1 - k],
{
    let len = a@.len() as int;
    if len > 0 {
        assert((len - 1 - (-1) - 1) / 1 + 1 == len);
    }
}

/// A union selects what each of its members selects, in the order the
/// members are written, without removing repeats: the union of two lists
/// of members selects what the first does followed by what the second does.
pub proof fn union_concatenates(es1: Seq<ElementModel>, es2: Seq<ElementModel>, v: Json)
    ensures
        union_find(es1 + es2, v) == union_find(es1, v) + union_find(es2, v),
    decreases es2.len(),
{
    if es2.len() == 0 {
        assert(es1 + es2 =~= es1);
        assert(union_find(es1, v) + seq![] =~= union_find(es1, v));
    } else {
        union_concatenates(es1, es2.drop_last(), v);
        assert((es1 + es2).drop_last() =~= es1 + es2.drop_last());
        assert((es1 + es2).last() == es2.last());
    }
}

/// A union of a single member selects what that member does.
pub proof fn single_union_is_member(e: ElementModel, v: Json)
    ensures
        union_find(seq![e], v) == element_find(e, v),
{
    assert(seq![e].drop_last() =~= Seq::<ElementModel>::empty());
    assert(union_find(Seq::<ElementModel>::empty(), v) == Seq::<Json>::empty());
    assert(seq![e].last() == e);
    assert(Seq::<Json>::empty() + element_find(e, v) =~= element_find(e, v));
}

/// The same selector text always compiles to the same path, and the same
/// path selects the same nodes from the same document.
pub proof fn compile_and_find_are_deterministic(s1: Seq<char>, s2: Seq<char>, p: PathModel, d: Json)
    requires
        s1 == s2,
    ensures
        parse_model(s1) == parse_model(s2),
        path_find(p, d) == path_find(p, d),
{
}

/// Whatever its bounds and step, a slice visits no more positions than the
/// array has, and only positions inside it.
pub proof fn slice_stays_in_bounds(from: Option<int>, to: Option<int>, step: int, len: int)
    requires
        len >= 0,
    ensures
        slice_positions(from, to, step, len).len() <= len,
        forall|k: int|
            0 <= k < slice_positions(from, to, step, len).len() ==> 0 <= #[trigger] slice_positions(
                from,
                to,
                step,
                len,
            )[k] < len,
{
    if step != 0 {
        let lo = if step > 0 { 0 } else { -1 };
        let hi = if step > 0 { len } else { len - 1 };
        let a = match from {
            Some(n) => crate::ast::clamp(n, lo, hi),
            None => if step > 0 { 0 } else { len - 1 },
        };
        let b = match to {
            Some(n) => crate::ast::clamp(n, lo, hi),
            None => if step > 0 { len } else { -1 },
        };
        let ps = slice_positions(from, to, step, len);
        if step > 0 && a < b {
            let c = (b - a - 1) / step;
            assert(0 <= c <= b - a - 1 && c * step <= b - a - 1) by (nonlinear_arith)
                requires
                    step > 0,
                    b - a - 1 >= 0,
                    c == (b - a - 1) / step,
            ;
            assert forall|k: int| 0 <= k < ps.len() implies 0 <= #[trigger] ps[k] < len by {
                assert(0 <= k * step <= c * step) by (nonlinear_arith)
                    requires
                        step > 0,
                        0 <= k <= c,
                ;
            }
        } else if step < 0 && a > b {
            let c = (a - b - 1) / (-step);
            assert(0 <= c <= a - b - 1 && c * (-step) <= a - b - 1) by (nonlinear_arith)
                requires
                    step < 0,
                    a - b - 1 >= 0,
                    c == (a - b - 1) / (-step),
            ;
            assert forall|k: int| 0 <= k < ps.len() implies 0 <= #[trigger] ps[k] < len by {
                assert(0 <= k * (-step) <= c * (-step)) by (nonlinear_arith)
                    requires
                        step < 0,
                        0 <= k <= c,
                ;
                assert(k * step == -(k * (-step))) by (nonlinear_arith);
            }
        }
    }
}

} // verus!
