//! The key checker: walks matching object pairs (and, under the same-order
//! policy, matching array indices) and reports every key one side defines
//! and the other lacks. A key present on both sides is never a key diff,
//! whatever the shapes of its two values.

use vstd::prelude::*;

use crate::diff_types::{KeyDiff, KeyDiffV, WorkingContext};
use crate::node::{
    entries_view, obj_get1, obj_has, object_get, DocumentNode, NodeView,
};
use crate::text::{build_index_path, build_key_path, index_path, key_path};

verus! {

broadcast use
    vstd::std_specs::vec::axiom_vec_index_decreases,
    crate::node::lemma_obj_index_of,
    crate::node::lemma_view_array,
    crate::node::lemma_view_object;

/// The key diffs of one visited pair of values.
pub open spec fn key_diffs_values(
    path: Seq<char>,
    a: NodeView,
    b: NodeView,
    fa: Seq<char>,
    fb: Seq<char>,
    so: bool,
) -> Seq<KeyDiffV>
    decreases a, b, 3int, 0int,
{
    let from_objects = if a is Object && b is Object {
        key_diffs_obj(path, a->Object_0, b->Object_0, fa, fb, so)
    } else {
        Seq::empty()
    };
    let from_arrays = if so && a is Array && b is Array && a->Array_0.len() == b->Array_0.len() {
        key_diffs_arr(path, a->Array_0, b->Array_0, fa, fb, so, 0)
    } else {
        Seq::empty()
    };
    from_objects + from_arrays
}

/// The key diffs of one visited object pair: first side A's keys in order,
/// then the keys only side B has, in B's order.
pub open spec fn key_diffs_obj(
    path: Seq<char>,
    ae: Seq<(Seq<char>, NodeView)>,
    be: Seq<(Seq<char>, NodeView)>,
    fa: Seq<char>,
    fb: Seq<char>,
    so: bool,
) -> Seq<KeyDiffV>
    decreases ae, be, 2int, 0int,
{
    key_diffs_obj_a(path, ae, be, fa, fb, so, 0) + key_diffs_obj_b(path, ae, be, fa, fb, 0)
}

/// Side A's contribution from entry `i` on: a record for a key B lacks, a
/// recursive walk for a key both sides have.
pub open spec fn key_diffs_obj_a(
    path: Seq<char>,
    ae: Seq<(Seq<char>, NodeView)>,
    be: Seq<(Seq<char>, NodeView)>,
    fa: Seq<char>,
    fb: Seq<char>,
    so: bool,
    i: int,
) -> Seq<KeyDiffV>
    decreases ae, be, 1int, ae.len() - i,
{
    if i < 0 || i >= ae.len() {
        Seq::empty()
    } else {
        let child = key_path(path, ae[i].0);
        let head = if obj_has(be, ae[i].0) {
            key_diffs_values(child, ae[i].1, obj_get1(be, ae[i].0), fa, fb, so)
        } else {
            seq![KeyDiffV { key: child, has: fa, misses: fb }]
        };
        head + key_diffs_obj_a(path, ae, be, fa, fb, so, i + 1)
    }
}

/// Side B's contribution from entry `j` on: a record for every key A lacks.
pub open spec fn key_diffs_obj_b(
    path: Seq<char>,
    ae: Seq<(Seq<char>, NodeView)>,
    be: Seq<(Seq<char>, NodeView)>,
    fa: Seq<char>,
    fb: Seq<char>,
    j: int,
) -> Seq<KeyDiffV>
    decreases ae, be, 1int, be.len() - j,
{
    if j < 0 || j >= be.len() {
        Seq::empty()
    } else {
        let head = if !obj_has(ae, be[j].0) {
            seq![KeyDiffV { key: key_path(path, be[j].0), has: fb, misses: fa }]
        } else {
            Seq::<KeyDiffV>::empty()
        };
        head + key_diffs_obj_b(path, ae, be, fa, fb, j + 1)
    }
}

/// The key diffs of a same-order array pair of equal length, walked
/// index-wise from item `i` on.
pub open spec fn key_diffs_arr(
    path: Seq<char>,
    ai: Seq<NodeView>,
    bi: Seq<NodeView>,
    fa: Seq<char>,
    fb: Seq<char>,
    so: bool,
    i: int,
) -> Seq<KeyDiffV>
    decreases ai, bi, 2int, ai.len() - i,
{
    if i < 0 || i >= ai.len() || ai.len() != bi.len() {
        Seq::empty()
    } else {
        key_diffs_values(index_path(path, i as nat), ai[i], bi[i], fa, fb, so) + key_diffs_arr(
            path,
            ai,
            bi,
            fa,
            fb,
            so,
            i + 1,
        )
    }
}

/// Finds every key diff below one matching object pair, rooted at `key_in`.
pub fn find_key_diffs(
    key_in: &str,
    a: &Vec<(String, DocumentNode)>,
    b: &Vec<(String, DocumentNode)>,
    working_context: &WorkingContext,
) -> (r: Vec<KeyDiff>)
    ensures
        r.deep_view() == key_diffs_obj(
            key_in@,
            entries_view(a@),
            entries_view(b@),
            working_context.file_a.name@,
            working_context.file_b.name@,
            working_context.config.array_same_order,
        ),
    decreases *a, *b, 2int, 0int,
{
    let ghost ae = entries_view(a@);
    let ghost be = entries_view(b@);
    let ghost fa = working_context.file_a.name@;
    let ghost fb = working_context.file_b.name@;
    let ghost so = working_context.config.array_same_order;
    let mut r: Vec<KeyDiff> = Vec::new();
    let mut i: usize = 0;
    #[verifier::loop_isolation(false)]
    while i < a.len()
        invariant
            i <= a@.len(),
            r.deep_view() + key_diffs_obj_a(key_in@, ae, be, fa, fb, so, i as int)
                == key_diffs_obj_a(key_in@, ae, be, fa, fb, so, 0),
        decreases a@.len() - i,
    {
        let ghost r0 = r.deep_view();
        let key = build_key_path(key_in, a[i].0.as_str());
        match object_get(b, &a[i].0) {
            Some(b_value) => {
                proof {
                    assert(decreases_to!(*a => a@[i as int]));
                    assert(decreases_to!(a@[i as int] => a@[i as int].1));
                }
                let mut sub = find_key_diffs_in_values(
                    key.as_str(),
                    &a[i].1,
                    b_value,
                    working_context,
                );
                let ghost subv = sub.deep_view();
                r.append(&mut sub);
                proof {
                    assert(r.deep_view() =~= r0 + subv);
                }
            },
            None => {
                let kd = KeyDiff::new(
                    key,
                    working_context.file_a.name.clone(),
                    working_context.file_b.name.clone(),
                );
                proof {
                    assert(kd.deep_view() == (KeyDiffV {
                        key: key_path(key_in@, ae[i as int].0),
                        has: fa,
                        misses: fb,
                    }));
                }
                r.push(kd);
                proof {
                    assert(r.deep_view() =~= r0.push(kd.deep_view()));
                    assert(r0.push(kd.deep_view()) =~= r0 + seq![kd.deep_view()]);
                }
            },
        }
        proof {
            assert(key_diffs_obj_a(key_in@, ae, be, fa, fb, so, i as int) == (if obj_has(
                be,
                ae[i as int].0,
            ) {
                key_diffs_values(
                    key_path(key_in@, ae[i as int].0),
                    ae[i as int].1,
                    obj_get1(be, ae[i as int].0),
                    fa,
                    fb,
                    so,
                )
            } else {
                seq![KeyDiffV { key: key_path(key_in@, ae[i as int].0), has: fa, misses: fb }]
            }) + key_diffs_obj_a(key_in@, ae, be, fa, fb, so, i as int + 1));
            assert(r.deep_view() + key_diffs_obj_a(key_in@, ae, be, fa, fb, so, i as int + 1)
                =~= key_diffs_obj_a(key_in@, ae, be, fa, fb, so, 0));
        }
        i = i + 1;
    }
    proof {
        assert(key_diffs_obj_a(key_in@, ae, be, fa, fb, so, a@.len() as int) == Seq::<
            KeyDiffV,
        >::empty());
        assert(r.deep_view() =~= key_diffs_obj_a(key_in@, ae, be, fa, fb, so, 0));
    }
    let ghost r_a = r.deep_view();
    let mut j: usize = 0;
    #[verifier::loop_isolation(false)]
    while j < b.len()
        invariant
            j <= b@.len(),
            r.deep_view() + key_diffs_obj_b(key_in@, ae, be, fa, fb, j as int) == r_a
                + key_diffs_obj_b(key_in@, ae, be, fa, fb, 0),
        decreases b@.len() - j,
    {
        let ghost r0 = r.deep_view();
        if object_get(a, &b[j].0).is_none() {
            let key = build_key_path(key_in, b[j].0.as_str());
            let kd = KeyDiff::new(
                key,
                working_context.file_b.name.clone(),
                working_context.file_a.name.clone(),
            );
            r.push(kd);
            proof {
                assert(r.deep_view() =~= r0 + seq![kd.deep_view()]);
            }
        }
        proof {
            assert(key_diffs_obj_b(key_in@, ae, be, fa, fb, j as int) == (if !obj_has(
                ae,
                be[j as int].0,
            ) {
                seq![KeyDiffV { key: key_path(key_in@, be[j as int].0), has: fb, misses: fa }]
            } else {
                Seq::<KeyDiffV>::empty()
            }) + key_diffs_obj_b(key_in@, ae, be, fa, fb, j as int + 1));
            assert(r.deep_view() + key_diffs_obj_b(key_in@, ae, be, fa, fb, j as int + 1) =~= r_a
                + key_diffs_obj_b(key_in@, ae, be, fa, fb, 0));
        }
        j = j + 1;
    }
    proof {
        assert(key_diffs_obj_b(key_in@, ae, be, fa, fb, b@.len() as int) == Seq::<
            KeyDiffV,
        >::empty());
        assert(r.deep_view() =~= r_a + key_diffs_obj_b(key_in@, ae, be, fa, fb, 0));
        assert(r.deep_view() =~= key_diffs_obj(key_in@, ae, be, fa, fb, so));
    }
    r
}

/// Finds every key diff below one visited pair of values.
pub fn find_key_diffs_in_values(
    key_in: &str,
    a: &DocumentNode,
    b: &DocumentNode,
    working_context: &WorkingContext,
) -> (r: Vec<KeyDiff>)
    ensures
        r.deep_view() == key_diffs_values(
            key_in@,
            a.deep_view(),
            b.deep_view(),
            working_context.file_a.name@,
            working_context.file_b.name@,
            working_context.config.array_same_order,
        ),
    decreases *a, *b, 3int, 0int,
{
    let ghost va = a.deep_view();
    let ghost vb = b.deep_view();
    let ghost fa = working_context.file_a.name@;
    let ghost fb = working_context.file_b.name@;
    let ghost so = working_context.config.array_same_order;
    let mut r: Vec<KeyDiff> = Vec::new();
    if let (DocumentNode::Object(a_entries), DocumentNode::Object(b_entries)) = (a, b) {
        proof {
            assert((*a)->Object_0 == *a_entries);
            assert(decreases_to!(*a => (*a)->Object_0));
            assert((*b)->Object_0 == *b_entries);
            assert(decreases_to!(*b => (*b)->Object_0));
        }
        let mut sub = find_key_diffs(key_in, a_entries, b_entries, working_context);
        let ghost subv = sub.deep_view();
        r.append(&mut sub);
        proof {
            assert(r.deep_view() =~= subv);
        }
    }
    let ghost r_obj = r.deep_view();
    proof {
        assert(r_obj == if va is Object && vb is Object {
            key_diffs_obj(key_in@, va->Object_0, vb->Object_0, fa, fb, so)
        } else {
            Seq::<KeyDiffV>::empty()
        });
    }
    if working_context.config.array_same_order {
        if let (DocumentNode::Array(a_items), DocumentNode::Array(b_items)) = (a, b) {
            if a_items.len() == b_items.len() {
                let ghost ai = va->Array_0;
                let ghost bi = vb->Array_0;
                let mut i: usize = 0;
                #[verifier::loop_isolation(false)]
                while i < a_items.len()
                    invariant
                        i <= a_items@.len(),
                        r.deep_view() + key_diffs_arr(key_in@, ai, bi, fa, fb, so, i as int)
                            == r_obj + key_diffs_arr(key_in@, ai, bi, fa, fb, so, 0),
                    decreases a_items@.len() - i,
                {
                    let ghost r0 = r.deep_view();
                    let array_key = build_index_path(key_in, i);
                    proof {
                        assert((*a)->Array_0 == *a_items);
                        assert(decreases_to!(*a => (*a)->Array_0));
                        assert(decreases_to!(*a_items => a_items@[i as int]));
                    }
                    let mut sub = find_key_diffs_in_values(
                        array_key.as_str(),
                        &a_items[i],
                        &b_items[i],
                        working_context,
                    );
                    let ghost subv = sub.deep_view();
                    r.append(&mut sub);
                    proof {
                        assert(r.deep_view() =~= r0 + subv);
                        assert(ai[i as int] == a_items@[i as int].deep_view());
                        assert(bi[i as int] == b_items@[i as int].deep_view());
                        assert(key_diffs_arr(key_in@, ai, bi, fa, fb, so, i as int)
                            == key_diffs_values(
                            index_path(key_in@, i as nat),
                            ai[i as int],
                            bi[i as int],
                            fa,
                            fb,
                            so,
                        ) + key_diffs_arr(key_in@, ai, bi, fa, fb, so, i as int + 1));
                        assert(r.deep_view() + key_diffs_arr(key_in@, ai, bi, fa, fb, so, i as int
                            + 1) =~= r_obj + key_diffs_arr(key_in@, ai, bi, fa, fb, so, 0));
                    }
                    i = i + 1;
                }
                proof {
                    assert(key_diffs_arr(key_in@, ai, bi, fa, fb, so, ai.len() as int) == Seq::<
                        KeyDiffV,
                    >::empty());
                    assert(r.deep_view() =~= r_obj + key_diffs_arr(key_in@, ai, bi, fa, fb, so, 0));
                }
            }
        }
    }
    proof {
        if !(so && va is Array && vb is Array && va->Array_0.len() == vb->Array_0.len()) {
            assert(r.deep_view() =~= r_obj + Seq::<KeyDiffV>::empty());
        }
        assert(r.deep_view() =~= key_diffs_values(key_in@, va, vb, fa, fb, so));
    }
    r
}

} // verus!
