//! The array checker: for an array pair not already covered index-wise by
//! the other checkers, computes a symmetric multiset difference over the
//! canonical renderings of the elements. Duplicates are matched one-to-one
//! by multiplicity, and per path the records come in the fixed order
//! `AHas`, `AMisses`, `BHas`, `BMisses`, the mirrored tags duplicating the
//! first two for callers that phrase the difference from either side.

use vstd::prelude::*;

use crate::diff_types::{ArrayDiff, ArrayDiffDesc, ArrayDiffV, WorkingContext};
use crate::node::{
    entries_view, items_view, obj_get1, obj_has, object_get, DocumentNode, NodeView,
};
use crate::render::{render_json, render_node};
use crate::text::{build_key_path, key_path};

verus! {

broadcast use
    vstd::std_specs::vec::axiom_vec_index_decreases,
    crate::node::lemma_obj_index_of,
    crate::node::lemma_view_array,
    crate::node::lemma_view_object;

/// The canonical renderings of an array's items, in order.
pub open spec fn renders(items: Seq<NodeView>) -> Seq<Seq<char>> {
    Seq::new(items.len(), |i: int| render_json(items[i]))
}

/// How many of the first `k` renderings equal `v`.
pub open spec fn count_prefix(s: Seq<Seq<char>>, k: int, v: Seq<char>) -> int
    decreases k,
{
    if k <= 0 || k > s.len() {
        0
    } else {
        count_prefix(s, k - 1, v) + if s[k - 1] == v {
            1int
        } else {
            0int
        }
    }
}

/// How many renderings in the whole list equal `v`.
pub open spec fn count_in(s: Seq<Seq<char>>, v: Seq<char>) -> int {
    count_prefix(s, s.len() as int, v)
}

/// The renderings of `ra` left over after matching each occurrence
/// one-to-one against an equal rendering in `rb`, in `ra`'s order: the
/// occurrences of a value beyond its count in `rb`.
pub open spec fn unmatched_from(ra: Seq<Seq<char>>, rb: Seq<Seq<char>>, i: int) -> Seq<Seq<char>>
    decreases ra.len() - i,
{
    if i < 0 || i >= ra.len() {
        Seq::empty()
    } else {
        let head = if count_prefix(ra, i + 1, ra[i]) > count_in(rb, ra[i]) {
            seq![ra[i]]
        } else {
            Seq::<Seq<char>>::empty()
        };
        head + unmatched_from(ra, rb, i + 1)
    }
}

pub open spec fn unmatched(ra: Seq<Seq<char>>, rb: Seq<Seq<char>>) -> Seq<Seq<char>> {
    unmatched_from(ra, rb, 0)
}

/// One record per value, all at one path under one side tag.
pub open spec fn tag_records(path: Seq<char>, d: ArrayDiffDesc, vals: Seq<Seq<char>>) -> Seq<
    ArrayDiffV,
> {
    Seq::new(vals.len(), |i: int| ArrayDiffV { key: path, descriptor: d, value: vals[i] })
}

/// Every record an array pair yields: the symmetric multiset difference,
/// phrased from all four sides in the fixed tag order.
pub open spec fn array_pair_diffs(path: Seq<char>, ai: Seq<NodeView>, bi: Seq<NodeView>) -> Seq<
    ArrayDiffV,
> {
    let ra = renders(ai);
    let rb = renders(bi);
    tag_records(path, ArrayDiffDesc::AHas, unmatched(ra, rb)) + tag_records(
        path,
        ArrayDiffDesc::AMisses,
        unmatched(rb, ra),
    ) + tag_records(path, ArrayDiffDesc::BHas, unmatched(rb, ra)) + tag_records(
        path,
        ArrayDiffDesc::BMisses,
        unmatched(ra, rb),
    )
}

/// The array diffs of one visited pair of values. An array pair under the
/// same-order policy with equal lengths yields nothing: the index-wise
/// checkers already cover it.
pub open spec fn array_diffs_values(path: Seq<char>, a: NodeView, b: NodeView, so: bool) -> Seq<
    ArrayDiffV,
>
    decreases a, b, 3int, 0int,
{
    let from_objects = if a is Object && b is Object {
        array_diffs_obj(path, a->Object_0, b->Object_0, so)
    } else {
        Seq::empty()
    };
    let own = if a is Array && b is Array && !(so && a->Array_0.len() == b->Array_0.len()) {
        array_pair_diffs(path, a->Array_0, b->Array_0)
    } else {
        Seq::<ArrayDiffV>::empty()
    };
    from_objects + own
}

/// The array diffs below one object pair, walking the keys both sides have,
/// in side A's order.
pub open spec fn array_diffs_obj(
    path: Seq<char>,
    ae: Seq<(Seq<char>, NodeView)>,
    be: Seq<(Seq<char>, NodeView)>,
    so: bool,
) -> Seq<ArrayDiffV>
    decreases ae, be, 2int, 0int,
{
    array_diffs_obj_a(path, ae, be, so, 0)
}

pub open spec fn array_diffs_obj_a(
    path: Seq<char>,
    ae: Seq<(Seq<char>, NodeView)>,
    be: Seq<(Seq<char>, NodeView)>,
    so: bool,
    i: int,
) -> Seq<ArrayDiffV>
    decreases ae, be, 1int, ae.len() - i,
{
    if i < 0 || i >= ae.len() {
        Seq::empty()
    } else {
        let head = if obj_has(be, ae[i].0) {
            array_diffs_values(key_path(path, ae[i].0), ae[i].1, obj_get1(be, ae[i].0), so)
        } else {
            Seq::<ArrayDiffV>::empty()
        };
        head + array_diffs_obj_a(path, ae, be, so, i + 1)
    }
}

/// A prefix count never exceeds the prefix length and never drops below
/// zero.
pub broadcast proof fn lemma_count_prefix_bounds(s: Seq<Seq<char>>, k: int, v: Seq<char>)
    ensures
        0 <= #[trigger] count_prefix(s, k, v) <= (if k <= s.len() {
            if k < 0 {
                0
            } else {
                k
            }
        } else {
            0int
        }),
    decreases k,
{
    if k <= 0 || k > s.len() {
    } else {
        lemma_count_prefix_bounds(s, k - 1, v);
    }
}

/// The canonical renderings of every item of an array, in order.
pub fn render_all(items: &Vec<DocumentNode>) -> (r: Vec<String>)
    ensures
        r.deep_view() == renders(items_view(items@)),
{
    let mut r: Vec<String> = Vec::new();
    let mut i: usize = 0;
    #[verifier::loop_isolation(false)]
    while i < items.len()
        invariant
            i <= items@.len(),
            r.deep_view() =~= renders(items_view(items@)).take(i as int),
        decreases items@.len() - i,
    {
        let ghost r0 = r.deep_view();
        let rendered = render_node(&items[i]);
        r.push(rendered);
        proof {
            assert(r.deep_view() =~= renders(items_view(items@)).take(i as int + 1));
        }
        i = i + 1;
    }
    proof {
        assert(renders(items_view(items@)).take(items@.len() as int) =~= renders(
            items_view(items@),
        ));
    }
    r
}

/// How many of the first `upto` renderings equal `v`.
fn count_matches(list: &Vec<String>, upto: usize, v: &String) -> (r: usize)
    requires
        upto <= list@.len(),
    ensures
        r as int == count_prefix(list.deep_view(), upto as int, v@),
{
    broadcast use lemma_count_prefix_bounds;

    let ghost lv = list.deep_view();
    let mut c: usize = 0;
    let mut k: usize = 0;
    #[verifier::loop_isolation(false)]
    while k < upto
        invariant
            k <= upto,
            c as int == count_prefix(lv, k as int, v@),
            c <= k,
        decreases upto - k,
    {
        if list[k] == *v {
            proof {
                assert(lv[k as int] == v@);
            }
            c = c + 1;
        } else {
            proof {
                assert(lv[k as int] != v@);
            }
        }
        proof {
            assert(count_prefix(lv, k as int + 1, v@) == count_prefix(lv, k as int, v@) + (if lv[
                k as int
            ] == v@ {
                1int
            } else {
                0int
            }));
        }
        k = k + 1;
    }
    c
}

/// The renderings of `ra` with no one-to-one counterpart in `rb`.
fn unmatched_values(ra: &Vec<String>, rb: &Vec<String>) -> (r: Vec<String>)
    ensures
        r.deep_view() == unmatched(ra.deep_view(), rb.deep_view()),
{
    let ghost rav = ra.deep_view();
    let ghost rbv = rb.deep_view();
    let mut r: Vec<String> = Vec::new();
    let mut i: usize = 0;
    #[verifier::loop_isolation(false)]
    while i < ra.len()
        invariant
            i <= ra@.len(),
            rav.len() == ra@.len(),
            r.deep_view() + unmatched_from(rav, rbv, i as int) == unmatched_from(rav, rbv, 0),
        decreases ra@.len() - i,
    {
        let ghost r0 = r.deep_view();
        let own = count_matches(ra, i + 1, &ra[i]);
        let other = count_matches(rb, rb.len(), &ra[i]);
        if own > other {
            let v = ra[i].clone();
            proof {
                assert(v@ == rav[i as int]);
            }
            r.push(v);
            proof {
                assert(r.deep_view() =~= r0 + seq![rav[i as int]]);
            }
        }
        proof {
            assert(unmatched_from(rav, rbv, i as int) == (if count_prefix(
                rav,
                i as int + 1,
                rav[i as int],
            ) > count_in(rbv, rav[i as int]) {
                seq![rav[i as int]]
            } else {
                Seq::<Seq<char>>::empty()
            }) + unmatched_from(rav, rbv, i as int + 1));
            assert(r.deep_view() + unmatched_from(rav, rbv, i as int + 1) =~= unmatched_from(
                rav,
                rbv,
                0,
            ));
        }
        i = i + 1;
    }
    proof {
        assert(unmatched_from(rav, rbv, ra@.len() as int) == Seq::<Seq<char>>::empty());
        assert(r.deep_view() =~= unmatched_from(rav, rbv, 0));
    }
    r
}

/// The four sides of the symmetric multiset difference of two arrays, as
/// rendered values: what only A has, what A misses, what only B has, what B
/// misses.
pub fn fill_diff_vectors(a: &Vec<DocumentNode>, b: &Vec<DocumentNode>) -> (r: (
    Vec<String>,
    Vec<String>,
    Vec<String>,
    Vec<String>,
))
    ensures
        r.0.deep_view() == unmatched(renders(items_view(a@)), renders(items_view(b@))),
        r.1.deep_view() == unmatched(renders(items_view(b@)), renders(items_view(a@))),
        r.2.deep_view() == unmatched(renders(items_view(b@)), renders(items_view(a@))),
        r.3.deep_view() == unmatched(renders(items_view(a@)), renders(items_view(b@))),
{
    let ra = render_all(a);
    let rb = render_all(b);
    let a_has = unmatched_values(&ra, &rb);
    let a_misses = unmatched_values(&rb, &ra);
    let b_has = unmatched_values(&rb, &ra);
    let b_misses = unmatched_values(&ra, &rb);
    (a_has, a_misses, b_has, b_misses)
}

/// Appends one record per value, all tagged with one side.
fn push_tagged(
    out: &mut Vec<ArrayDiff>,
    key_in: &str,
    d: ArrayDiffDesc,
    vals: Vec<String>,
)
    ensures
        final(out).deep_view() == old(out).deep_view() + tag_records(key_in@, d, vals.deep_view()),
{
    let ghost vv = vals.deep_view();
    let mut i: usize = 0;
    #[verifier::loop_isolation(false)]
    while i < vals.len()
        invariant
            i <= vals@.len(),
            vv == vals.deep_view(),
            out.deep_view() == old(out).deep_view() + tag_records(key_in@, d, vv).take(i as int),
        decreases vals@.len() - i,
    {
        let ghost o0 = out.deep_view();
        let ad = ArrayDiff::new(key_in.to_owned(), d, vals[i].clone());
        out.push(ad);
        proof {
            assert(out.deep_view() =~= o0.push(ad.deep_view()));
            assert(out.deep_view() =~= old(out).deep_view() + tag_records(key_in@, d, vv).take(
                i as int + 1,
            ));
        }
        i = i + 1;
    }
    proof {
        assert(tag_records(key_in@, d, vv).take(vv.len() as int) =~= tag_records(key_in@, d, vv));
    }
}

/// Finds every array diff below one matching object pair, rooted at
/// `key_in`.
pub fn find_array_diffs(
    key_in: &str,
    a: &Vec<(String, DocumentNode)>,
    b: &Vec<(String, DocumentNode)>,
    working_context: &WorkingContext,
) -> (r: Vec<ArrayDiff>)
    ensures
        r.deep_view() == array_diffs_obj(
            key_in@,
            entries_view(a@),
            entries_view(b@),
            working_context.config.array_same_order,
        ),
    decreases *a, *b, 2int, 0int,
{
    let ghost ae = entries_view(a@);
    let ghost be = entries_view(b@);
    let ghost so = working_context.config.array_same_order;
    let mut r: Vec<ArrayDiff> = Vec::new();
    let mut i: usize = 0;
    #[verifier::loop_isolation(false)]
    while i < a.len()
        invariant
            i <= a@.len(),
            r.deep_view() + array_diffs_obj_a(key_in@, ae, be, so, i as int) == array_diffs_obj_a(
                key_in@,
                ae,
                be,
                so,
                0,
            ),
        decreases a@.len() - i,
    {
        let ghost r0 = r.deep_view();
        if let Some(b_value) = object_get(b, &a[i].0) {
            let key = build_key_path(key_in, a[i].0.as_str());
            proof {
                assert(decreases_to!(*a => a@[i as int]));
                assert(decreases_to!(a@[i as int] => a@[i as int].1));
            }
            let mut sub = find_array_diffs_in_values(
                key.as_str(),
                &a[i].1,
                b_value,
                working_context,
            );
            let ghost subv = sub.deep_view();
            r.append(&mut sub);
            proof {
                assert(r.deep_view() =~= r0 + subv);
            }
        }
        proof {
            assert(array_diffs_obj_a(key_in@, ae, be, so, i as int) == (if obj_has(
                be,
                ae[i as int].0,
            ) {
                array_diffs_values(
                    key_path(key_in@, ae[i as int].0),
                    ae[i as int].1,
                    obj_get1(be, ae[i as int].0),
                    so,
                )
            } else {
                Seq::<ArrayDiffV>::empty()
            }) + array_diffs_obj_a(key_in@, ae, be, so, i as int + 1));
            assert(r.deep_view() + array_diffs_obj_a(key_in@, ae, be, so, i as int + 1)
                =~= array_diffs_obj_a(key_in@, ae, be, so, 0));
        }
        i = i + 1;
    }
    proof {
        assert(array_diffs_obj_a(key_in@, ae, be, so, a@.len() as int) == Seq::<
            ArrayDiffV,
        >::empty());
        assert(r.deep_view() =~= array_diffs_obj_a(key_in@, ae, be, so, 0));
    }
    r
}

/// Finds every array diff at and below one visited pair of values.
pub fn find_array_diffs_in_values(
    key_in: &str,
    a: &DocumentNode,
    b: &DocumentNode,
    working_context: &WorkingContext,
) -> (r: Vec<ArrayDiff>)
    ensures
        r.deep_view() == array_diffs_values(
            key_in@,
            a.deep_view(),
            b.deep_view(),
            working_context.config.array_same_order,
        ),
    decreases *a, *b, 3int, 0int,
{
    let ghost va = a.deep_view();
    let ghost vb = b.deep_view();
    let ghost so = working_context.config.array_same_order;
    let mut r: Vec<ArrayDiff> = Vec::new();
    if let (DocumentNode::Object(a_entries), DocumentNode::Object(b_entries)) = (a, b) {
        proof {
            assert((*a)->Object_0 == *a_entries);
            assert(decreases_to!(*a => (*a)->Object_0));
        }
        let mut sub = find_array_diffs(key_in, a_entries, b_entries, working_context);
        let ghost subv = sub.deep_view();
        r.append(&mut sub);
        proof {
            assert(r.deep_view() =~= subv);
        }
    }
    let ghost r_obj = r.deep_view();
    proof {
        assert(r_obj == if va is Object && vb is Object {
            array_diffs_obj(key_in@, va->Object_0, vb->Object_0, so)
        } else {
            Seq::<ArrayDiffV>::empty()
        });
    }
    if let (DocumentNode::Array(a_items), DocumentNode::Array(b_items)) = (a, b) {
        let index_wise = working_context.config.array_same_order && a_items.len() == b_items.len();
        if !index_wise {
            let ghost ai = va->Array_0;
            let ghost bi = vb->Array_0;
            let (a_has, a_misses, b_has, b_misses) = fill_diff_vectors(a_items, b_items);
            let ghost ra = renders(ai);
            let ghost rb = renders(bi);
            push_tagged(&mut r, key_in, ArrayDiffDesc::AHas, a_has);
            push_tagged(&mut r, key_in, ArrayDiffDesc::AMisses, a_misses);
            push_tagged(&mut r, key_in, ArrayDiffDesc::BHas, b_has);
            push_tagged(&mut r, key_in, ArrayDiffDesc::BMisses, b_misses);
            proof {
                assert(r.deep_view() =~= r_obj + array_pair_diffs(key_in@, ai, bi));
            }
        }
    }
    proof {
        assert(r.deep_view() =~= array_diffs_values(key_in@, va, vb, so));
    }
    r
}

} // verus!
