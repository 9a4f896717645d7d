//! The type checker: at every path both sides define, compares the two type
//! tags and reports a mismatch. It keeps walking into children even below a
//! mismatching parent, so nested mismatches are still found.

use vstd::prelude::*;

use crate::diff_types::{TypeDiff, TypeDiffV, WorkingContext};
use crate::node::{
    entries_view, obj_get1, obj_has, object_get, DocumentNode, NodeView,
};
use crate::text::{build_index_path, build_key_path, index_path, key_path};

verus! {

broadcast use
    vstd::std_specs::vec::axiom_vec_index_decreases,
    crate::node::lemma_obj_index_of,
    crate::node::lemma_view_array,
    crate::node::lemma_view_object;

/// The type diffs of one visited pair of values: children first (objects,
/// then same-order arrays), then the pair's own tags when they differ.
pub open spec fn type_diffs_values(path: Seq<char>, a: NodeView, b: NodeView, so: bool) -> Seq<
    TypeDiffV,
>
    decreases a, b, 3int, 0int,
{
    let from_objects = if a is Object && b is Object {
        type_diffs_obj(path, a->Object_0, b->Object_0, so)
    } else {
        Seq::empty()
    };
    let from_arrays = if so && a is Array && b is Array && a->Array_0.len() == b->Array_0.len() {
        type_diffs_arr(path, a->Array_0, b->Array_0, so, 0)
    } else {
        Seq::empty()
    };
    let own = if a.tag() != b.tag() {
        seq![TypeDiffV { key: path, type1: a.tag().spec_name(), type2: b.tag().spec_name() }]
    } else {
        Seq::<TypeDiffV>::empty()
    };
    from_objects + from_arrays + own
}

/// The type diffs below one object pair, walking the keys both sides have,
/// in side A's order.
pub open spec fn type_diffs_obj(
    path: Seq<char>,
    ae: Seq<(Seq<char>, NodeView)>,
    be: Seq<(Seq<char>, NodeView)>,
    so: bool,
) -> Seq<TypeDiffV>
    decreases ae, be, 2int, 0int,
{
    type_diffs_obj_a(path, ae, be, so, 0)
}

pub open spec fn type_diffs_obj_a(
    path: Seq<char>,
    ae: Seq<(Seq<char>, NodeView)>,
    be: Seq<(Seq<char>, NodeView)>,
    so: bool,
    i: int,
) -> Seq<TypeDiffV>
    decreases ae, be, 1int, ae.len() - i,
{
    if i < 0 || i >= ae.len() {
        Seq::empty()
    } else {
        let head = if obj_has(be, ae[i].0) {
            type_diffs_values(key_path(path, ae[i].0), ae[i].1, obj_get1(be, ae[i].0), so)
        } else {
            Seq::<TypeDiffV>::empty()
        };
        head + type_diffs_obj_a(path, ae, be, so, i + 1)
    }
}

/// The type diffs of a same-order array pair of equal length, walked
/// index-wise from item `i` on.
pub open spec fn type_diffs_arr(
    path: Seq<char>,
    ai: Seq<NodeView>,
    bi: Seq<NodeView>,
    so: bool,
    i: int,
) -> Seq<TypeDiffV>
    decreases ai, bi, 2int, ai.len() - i,
{
    if i < 0 || i >= ai.len() || ai.len() != bi.len() {
        Seq::empty()
    } else {
        type_diffs_values(index_path(path, i as nat), ai[i], bi[i], so) + type_diffs_arr(
            path,
            ai,
            bi,
            so,
            i + 1,
        )
    }
}

/// Finds every type diff below one matching object pair, rooted at `key_in`.
pub fn find_type_diffs(
    key_in: &str,
    a: &Vec<(String, DocumentNode)>,
    b: &Vec<(String, DocumentNode)>,
    working_context: &WorkingContext,
) -> (r: Vec<TypeDiff>)
    ensures
        r.deep_view() == type_diffs_obj(
            key_in@,
            entries_view(a@),
            entries_view(b@),
            working_context.config.array_same_order,
        ),
    decreases *a, *b, 2int, 0int,
{
    let ghost ae = entries_view(a@);
    let ghost be = entries_view(b@);
    let ghost so = working_context.config.array_same_order;
    let mut r: Vec<TypeDiff> = Vec::new();
    let mut i: usize = 0;
    #[verifier::loop_isolation(false)]
    while i < a.len()
        invariant
            i <= a@.len(),
            r.deep_view() + type_diffs_obj_a(key_in@, ae, be, so, i as int) == type_diffs_obj_a(
                key_in@,
                ae,
                be,
                so,
                0,
            ),
        decreases a@.len() - i,
    {
        let ghost r0 = r.deep_view();
        if let Some(b_value) = object_get(b, &a[i].0) {
            let key = build_key_path(key_in, a[i].0.as_str());
            proof {
                assert(decreases_to!(*a => a@[i as int]));
                assert(decreases_to!(a@[i as int] => a@[i as int].1));
            }
            let mut sub = find_type_diffs_in_values(key.as_str(), &a[i].1, b_value, working_context);
            let ghost subv = sub.deep_view();
            r.append(&mut sub);
            proof {
                assert(r.deep_view() =~= r0 + subv);
            }
        }
        proof {
            assert(type_diffs_obj_a(key_in@, ae, be, so, i as int) == (if obj_has(
                be,
                ae[i as int].0,
            ) {
                type_diffs_values(
                    key_path(key_in@, ae[i as int].0),
                    ae[i as int].1,
                    obj_get1(be, ae[i as int].0),
                    so,
                )
            } else {
                Seq::<TypeDiffV>::empty()
            }) + type_diffs_obj_a(key_in@, ae, be, so, i as int + 1));
            assert(r.deep_view() + type_diffs_obj_a(key_in@, ae, be, so, i as int + 1)
                =~= type_diffs_obj_a(key_in@, ae, be, so, 0));
        }
        i = i + 1;
    }
    proof {
        assert(type_diffs_obj_a(key_in@, ae, be, so, a@.len() as int) == Seq::<TypeDiffV>::empty());
        assert(r.deep_view() =~= type_diffs_obj_a(key_in@, ae, be, so, 0));
    }
    r
}

/// Finds every type diff at and below one visited pair of values.
pub fn find_type_diffs_in_values(
    key_in: &str,
    a: &DocumentNode,
    b: &DocumentNode,
    working_context: &WorkingContext,
) -> (r: Vec<TypeDiff>)
    ensures
        r.deep_view() == type_diffs_values(
            key_in@,
            a.deep_view(),
            b.deep_view(),
            working_context.config.array_same_order,
        ),
    decreases *a, *b, 3int, 0int,
{
    let ghost va = a.deep_view();
    let ghost vb = b.deep_view();
    let ghost so = working_context.config.array_same_order;
    let mut r: Vec<TypeDiff> = Vec::new();
    if let (DocumentNode::Object(a_entries), DocumentNode::Object(b_entries)) = (a, b) {
        proof {
            assert((*a)->Object_0 == *a_entries);
            assert(decreases_to!(*a => (*a)->Object_0));
        }
        let mut sub = find_type_diffs(key_in, a_entries, b_entries, working_context);
        let ghost subv = sub.deep_view();
        r.append(&mut sub);
        proof {
            assert(r.deep_view() =~= subv);
        }
    }
    let ghost r_obj = r.deep_view();
    proof {
        assert(r_obj == if va is Object && vb is Object {
            type_diffs_obj(key_in@, va->Object_0, vb->Object_0, so)
        } else {
            Seq::<TypeDiffV>::empty()
        });
    }
    if working_context.config.array_same_order {
        if let (DocumentNode::Array(a_items), DocumentNode::Array(b_items)) = (a, b) {
            if a_items.len() == b_items.len() {
                let ghost ai = va->Array_0;
                let ghost bi = vb->Array_0;
                let mut i: usize = 0;
                #[verifier::loop_isolation(false)]
                while i < a_items.len()
                    invariant
                        i <= a_items@.len(),
                        r.deep_view() + type_diffs_arr(key_in@, ai, bi, so, i as int) == r_obj
                            + type_diffs_arr(key_in@, ai, bi, so, 0),
                    decreases a_items@.len() - i,
                {
                    let ghost r0 = r.deep_view();
                    let array_key = build_index_path(key_in, i);
                    proof {
                        assert((*a)->Array_0 == *a_items);
                        assert(decreases_to!(*a => (*a)->Array_0));
                        assert(decreases_to!(*a_items => a_items@[i as int]));
                    }
                    let mut sub = find_type_diffs_in_values(
                        array_key.as_str(),
                        &a_items[i],
                        &b_items[i],
                        working_context,
                    );
                    let ghost subv = sub.deep_view();
                    r.append(&mut sub);
                    proof {
                        assert(r.deep_view() =~= r0 + subv);
                        assert(ai[i as int] == a_items@[i as int].deep_view());
                        assert(bi[i as int] == b_items@[i as int].deep_view());
                        assert(type_diffs_arr(key_in@, ai, bi, so, i as int) == type_diffs_values(
                            index_path(key_in@, i as nat),
                            ai[i as int],
                            bi[i as int],
                            so,
                        ) + type_diffs_arr(key_in@, ai, bi, so, i as int + 1));
                        assert(r.deep_view() + type_diffs_arr(key_in@, ai, bi, so, i as int + 1)
                            =~= r_obj + type_diffs_arr(key_in@, ai, bi, so, 0));
                    }
                    i = i + 1;
                }
                proof {
                    assert(type_diffs_arr(key_in@, ai, bi, so, ai.len() as int) == Seq::<
                        TypeDiffV,
                    >::empty());
                    assert(r.deep_view() =~= r_obj + type_diffs_arr(key_in@, ai, bi, so, 0));
                }
            }
        }
    }
    let ghost r_arr = r.deep_view();
    proof {
        if !(so && va is Array && vb is Array && va->Array_0.len() == vb->Array_0.len()) {
            assert(r.deep_view() =~= r_obj + Seq::<TypeDiffV>::empty());
        }
    }
    let a_type = a.get_type();
    let b_type = b.get_type();
    if a_type != b_type {
        let td = TypeDiff::new(key_in.to_owned(), a_type.name(), b_type.name());
        let ghost r0 = r.deep_view();
        r.push(td);
        proof {
            assert(r.deep_view() =~= r0 + seq![td.deep_view()]);
        }
    }
    proof {
        if va.tag() == vb.tag() {
            assert(r.deep_view() =~= r_arr + Seq::<TypeDiffV>::empty());
        }
        assert(r.deep_view() =~= type_diffs_values(key_in@, va, vb, so));
    }
    r
}

} // verus!
