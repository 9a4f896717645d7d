//! The value checker: walks the keys both sides have and reports scalar
//! pairs of equal type whose canonical renderings differ. A pair with
//! differing type tags is the type checker's concern alone. Matching array
//! pairs are descended index-wise only under the same-order policy with
//! equal lengths; every other array pair is left to the array checker, so
//! no difference is reported twice.

use vstd::prelude::*;

use crate::diff_types::{ValueDiff, ValueDiffV, WorkingContext};
use crate::node::{
    entries_view, obj_get1, obj_has, object_get, DocumentNode, NodeView,
};
use crate::render::{render_top, render_value};
use crate::text::{build_index_path, build_key_path, index_path, key_path};

verus! {

broadcast use
    vstd::std_specs::vec::axiom_vec_index_decreases,
    crate::node::lemma_obj_index_of,
    crate::node::lemma_view_array,
    crate::node::lemma_view_object;

/// The value diffs of one visited pair of values.
pub open spec fn value_diffs_values(path: Seq<char>, a: NodeView, b: NodeView, so: bool) -> Seq<
    ValueDiffV,
>
    decreases a, b, 3int, 0int,
{
    if a is Object && b is Object {
        value_diffs_obj(path, a->Object_0, b->Object_0, so)
    } else if a is Array && b is Array {
        if so && a->Array_0.len() == b->Array_0.len() {
            value_diffs_arr(path, a->Array_0, b->Array_0, so, 0)
        } else {
            Seq::empty()
        }
    } else if a.is_scalar() && b.is_scalar() && a.tag() == b.tag() && render_top(a)
        != render_top(b) {
        seq![ValueDiffV { key: path, value1: render_top(a), value2: render_top(b) }]
    } else {
        Seq::empty()
    }
}

/// The value diffs below one object pair, walking the keys both sides have,
/// in side A's order.
pub open spec fn value_diffs_obj(
    path: Seq<char>,
    ae: Seq<(Seq<char>, NodeView)>,
    be: Seq<(Seq<char>, NodeView)>,
    so: bool,
) -> Seq<ValueDiffV>
    decreases ae, be, 2int, 0int,
{
    value_diffs_obj_a(path, ae, be, so, 0)
}

pub open spec fn value_diffs_obj_a(
    path: Seq<char>,
    ae: Seq<(Seq<char>, NodeView)>,
    be: Seq<(Seq<char>, NodeView)>,
    so: bool,
    i: int,
) -> Seq<ValueDiffV>
    decreases ae, be, 1int, ae.len() - i,
{
    if i < 0 || i >= ae.len() {
        Seq::empty()
    } else {
        let head = if obj_has(be, ae[i].0) {
            value_diffs_values(key_path(path, ae[i].0), ae[i].1, obj_get1(be, ae[i].0), so)
        } else {
            Seq::<ValueDiffV>::empty()
        };
        head + value_diffs_obj_a(path, ae, be, so, i + 1)
    }
}

/// The value diffs of a same-order array pair of equal length, walked
/// index-wise from item `i` on.
pub open spec fn value_diffs_arr(
    path: Seq<char>,
    ai: Seq<NodeView>,
    bi: Seq<NodeView>,
    so: bool,
    i: int,
) -> Seq<ValueDiffV>
    decreases ai, bi, 2int, ai.len() - i,
{
    if i < 0 || i >= ai.len() || ai.len() != bi.len() {
        Seq::empty()
    } else {
        value_diffs_values(index_path(path, i as nat), ai[i], bi[i], so) + value_diffs_arr(
            path,
            ai,
            bi,
            so,
            i + 1,
        )
    }
}

/// Finds every value diff below one matching object pair, rooted at `key_in`.
pub fn find_value_diffs(
    key_in: &str,
    a: &Vec<(String, DocumentNode)>,
    b: &Vec<(String, DocumentNode)>,
    working_context: &WorkingContext,
) -> (r: Vec<ValueDiff>)
    ensures
        r.deep_view() == value_diffs_obj(
            key_in@,
            entries_view(a@),
            entries_view(b@),
            working_context.config.array_same_order,
        ),
    decreases *a, *b, 2int, 0int,
{
    let ghost ae = entries_view(a@);
    let ghost be = entries_view(b@);
    let ghost so = working_context.config.array_same_order;
    let mut r: Vec<ValueDiff> = Vec::new();
    let mut i: usize = 0;
    #[verifier::loop_isolation(false)]
    while i < a.len()
        invariant
            i <= a@.len(),
            r.deep_view() + value_diffs_obj_a(key_in@, ae, be, so, i as int) == value_diffs_obj_a(
                key_in@,
                ae,
                be,
                so,
                0,
            ),
        decreases a@.len() - i,
    {
        let ghost r0 = r.deep_view();
        if let Some(b_value) = object_get(b, &a[i].0) {
            let key = build_key_path(key_in, a[i].0.as_str());
            proof {
                assert(decreases_to!(*a => a@[i as int]));
                assert(decreases_to!(a@[i as int] => a@[i as int].1));
            }
            let mut sub = find_value_diffs_in_values(
                key.as_str(),
                &a[i].1,
                b_value,
                working_context,
            );
            let ghost subv = sub.deep_view();
            r.append(&mut sub);
            proof {
                assert(r.deep_view() =~= r0 + subv);
            }
        }
        proof {
            assert(value_diffs_obj_a(key_in@, ae, be, so, i as int) == (if obj_has(
                be,
                ae[i as int].0,
            ) {
                value_diffs_values(
                    key_path(key_in@, ae[i as int].0),
                    ae[i as int].1,
                    obj_get1(be, ae[i as int].0),
                    so,
                )
            } else {
                Seq::<ValueDiffV>::empty()
            }) + value_diffs_obj_a(key_in@, ae, be, so, i as int + 1));
            assert(r.deep_view() + value_diffs_obj_a(key_in@, ae, be, so, i as int + 1)
                =~= value_diffs_obj_a(key_in@, ae, be, so, 0));
        }
        i = i + 1;
    }
    proof {
        assert(value_diffs_obj_a(key_in@, ae, be, so, a@.len() as int) == Seq::<
            ValueDiffV,
        >::empty());
        assert(r.deep_view() =~= value_diffs_obj_a(key_in@, ae, be, so, 0));
    }
    r
}

/// Finds every value diff at and below one visited pair of values.
pub fn find_value_diffs_in_values(
    key_in: &str,
    a: &DocumentNode,
    b: &DocumentNode,
    working_context: &WorkingContext,
) -> (r: Vec<ValueDiff>)
    ensures
        r.deep_view() == value_diffs_values(
            key_in@,
            a.deep_view(),
            b.deep_view(),
            working_context.config.array_same_order,
        ),
    decreases *a, *b, 3int, 0int,
{
    let ghost va = a.deep_view();
    let ghost vb = b.deep_view();
    let ghost so = working_context.config.array_same_order;
    let mut r: Vec<ValueDiff> = Vec::new();
    if a.is_object() && b.is_object() {
        if let (DocumentNode::Object(a_entries), DocumentNode::Object(b_entries)) = (a, b) {
            proof {
                assert((*a)->Object_0 == *a_entries);
                assert(decreases_to!(*a => (*a)->Object_0));
            }
            let mut sub = find_value_diffs(key_in, a_entries, b_entries, working_context);
            let ghost subv = sub.deep_view();
            r.append(&mut sub);
            proof {
                assert(r.deep_view() =~= subv);
            }
        }
    } else if a.is_array() && b.is_array() {
        if let (DocumentNode::Array(a_items), DocumentNode::Array(b_items)) = (a, b) {
            if working_context.config.array_same_order && a_items.len() == b_items.len() {
                let ghost ai = va->Array_0;
                let ghost bi = vb->Array_0;
                let mut i: usize = 0;
                #[verifier::loop_isolation(false)]
                while i < a_items.len()
                    invariant
                        i <= a_items@.len(),
                        r.deep_view() + value_diffs_arr(key_in@, ai, bi, so, i as int)
                            == value_diffs_arr(key_in@, ai, bi, so, 0),
                    decreases a_items@.len() - i,
                {
                    let ghost r0 = r.deep_view();
                    let array_key = build_index_path(key_in, i);
                    proof {
                        assert((*a)->Array_0 == *a_items);
                        assert(decreases_to!(*a => (*a)->Array_0));
                        assert(decreases_to!(*a_items => a_items@[i as int]));
                    }
                    let mut sub = find_value_diffs_in_values(
                        array_key.as_str(),
                        &a_items[i],
                        &b_items[i],
                        working_context,
                    );
                    let ghost subv = sub.deep_view();
                    r.append(&mut sub);
                    proof {
                        assert(r.deep_view() =~= r0 + subv);
                        assert(ai[i as int] == a_items@[i as int].deep_view());
                        assert(bi[i as int] == b_items@[i as int].deep_view());
                        assert(value_diffs_arr(key_in@, ai, bi, so, i as int) == value_diffs_values(
                            index_path(key_in@, i as nat),
                            ai[i as int],
                            bi[i as int],
                            so,
                        ) + value_diffs_arr(key_in@, ai, bi, so, i as int + 1));
                        assert(r.deep_view() + value_diffs_arr(key_in@, ai, bi, so, i as int + 1)
                            =~= value_diffs_arr(key_in@, ai, bi, so, 0));
                    }
                    i = i + 1;
                }
                proof {
                    assert(value_diffs_arr(key_in@, ai, bi, so, ai.len() as int) == Seq::<
                        ValueDiffV,
                    >::empty());
                    assert(r.deep_view() =~= value_diffs_arr(key_in@, ai, bi, so, 0));
                }
            }
        }
    } else if !a.is_object() && !a.is_array() && !b.is_object() && !b.is_array() {
        let a_type = a.get_type();
        let b_type = b.get_type();
        if a_type == b_type {
            let value1 = render_value(a);
            let value2 = render_value(b);
            if value1 != value2 {
                let vd = ValueDiff::new(key_in.to_owned(), value1, value2);
                r.push(vd);
                proof {
                    assert(r.deep_view() =~= Seq::empty().push(vd.deep_view()));
                    assert(Seq::empty().push(vd.deep_view()) =~= seq![vd.deep_view()]);
                }
            }
        }
    }
    proof {
        assert(r.deep_view() =~= value_diffs_values(key_in@, va, vb, so));
    }
    r
}

} // verus!
