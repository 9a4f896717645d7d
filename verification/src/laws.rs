//! The engine's general guarantees, stated and proved over the checkers'
//! defining functions: what comparing a document with itself yields, what
//! same-order arrays yield, and that a scalar's canonical rendering reads
//! back as the value it came from.

use vstd::prelude::*;

use crate::array_checker::{
    array_diffs_obj, array_diffs_obj_a, array_diffs_values, array_pair_diffs, count_prefix,
    renders, tag_records, unmatched_from,
};
use crate::diff_types::ValueDiffV;
use crate::key_checker::{
    key_diffs_arr, key_diffs_obj, key_diffs_obj_a, key_diffs_obj_b, key_diffs_values,
};
use crate::node::{
    lemma_obj_get_unique, obj_get1, obj_has, view_wf, NodeView,
};
use crate::render::render_top;
use crate::scalar::{is_digit, is_number_token, parse_scalar_spec, scalar_shaped};
use crate::text::index_path;
use crate::type_checker::{type_diffs_arr, type_diffs_obj, type_diffs_obj_a, type_diffs_values};
use crate::value_checker::{
    value_diffs_arr, value_diffs_obj, value_diffs_obj_a, value_diffs_values,
};

verus! {

proof fn lemma_key_self_values(path: Seq<char>, v: NodeView, fa: Seq<char>, fb: Seq<char>, so: bool)
    requires
        view_wf(v),
    ensures
        key_diffs_values(path, v, v, fa, fb, so) == Seq::<crate::diff_types::KeyDiffV>::empty(),
    decreases v, 3int, 0int,
{
    if v is Object {
        let e = v->Object_0;
        lemma_key_self_obj_a(path, e, fa, fb, so, 0);
        lemma_key_self_obj_b(path, e, fa, fb, 0);
        assert(key_diffs_obj(path, e, e, fa, fb, so) =~= Seq::<
            crate::diff_types::KeyDiffV,
        >::empty());
    }
    if so && v is Array {
        lemma_key_self_arr(path, v->Array_0, fa, fb, so, 0);
    }
    assert(key_diffs_values(path, v, v, fa, fb, so) =~= Seq::<
        crate::diff_types::KeyDiffV,
    >::empty());
}

proof fn lemma_key_self_obj_a(
    path: Seq<char>,
    e: Seq<(Seq<char>, NodeView)>,
    fa: Seq<char>,
    fb: Seq<char>,
    so: bool,
    i: int,
)
    requires
        view_wf(NodeView::Object(e)),
    ensures
        key_diffs_obj_a(path, e, e, fa, fb, so, i) == Seq::<crate::diff_types::KeyDiffV>::empty(),
    decreases e, 1int, e.len() - i,
{
    if 0 <= i < e.len() {
        assert(view_wf(NodeView::Object(e)));
        assert((NodeView::Object(e))->Object_0 == e);
        assert(forall|p: int, q: int|
            0 <= p < q < e.len() ==> (#[trigger] e[p].0) != (#[trigger] e[q].0));
        assert(view_wf(e[i as int].1));
        lemma_obj_get_unique(e, i);
        lemma_key_self_values(crate::text::key_path(path, e[i].0), e[i].1, fa, fb, so);
        lemma_key_self_obj_a(path, e, fa, fb, so, i + 1);
        assert(key_diffs_obj_a(path, e, e, fa, fb, so, i) =~= Seq::<
            crate::diff_types::KeyDiffV,
        >::empty());
    }
}

proof fn lemma_key_self_obj_b(
    path: Seq<char>,
    e: Seq<(Seq<char>, NodeView)>,
    fa: Seq<char>,
    fb: Seq<char>,
    j: int,
)
    ensures
        key_diffs_obj_b(path, e, e, fa, fb, j) == Seq::<crate::diff_types::KeyDiffV>::empty(),
    decreases e.len() - j,
{
    if 0 <= j < e.len() {
        crate::node::lemma_obj_index_of(e, e[j].0);
        if !obj_has(e, e[j].0) {
            assert(e[j].0 != e[j].0);
        }
        lemma_key_self_obj_b(path, e, fa, fb, j + 1);
        assert(key_diffs_obj_b(path, e, e, fa, fb, j) =~= Seq::<
            crate::diff_types::KeyDiffV,
        >::empty());
    }
}

proof fn lemma_key_self_arr(
    path: Seq<char>,
    items: Seq<NodeView>,
    fa: Seq<char>,
    fb: Seq<char>,
    so: bool,
    i: int,
)
    requires
        view_wf(NodeView::Array(items)),
    ensures
        key_diffs_arr(path, items, items, fa, fb, so, i) == Seq::<
            crate::diff_types::KeyDiffV,
        >::empty(),
    decreases items, 2int, items.len() - i,
{
    if 0 <= i < items.len() {
        assert(view_wf(NodeView::Array(items)));
        assert((NodeView::Array(items))->Array_0 == items);
        assert(view_wf(items[i as int]));
        lemma_key_self_values(index_path(path, i as nat), items[i], fa, fb, so);
        lemma_key_self_arr(path, items, fa, fb, so, i + 1);
        assert(key_diffs_arr(path, items, items, fa, fb, so, i) =~= Seq::<
            crate::diff_types::KeyDiffV,
        >::empty());
    }
}

proof fn lemma_type_self_values(path: Seq<char>, v: NodeView, so: bool)
    requires
        view_wf(v),
    ensures
        type_diffs_values(path, v, v, so) == Seq::<crate::diff_types::TypeDiffV>::empty(),
    decreases v, 3int, 0int,
{
    if v is Object {
        lemma_type_self_obj_a(path, v->Object_0, so, 0);
    }
    if so && v is Array {
        lemma_type_self_arr(path, v->Array_0, so, 0);
    }
    assert(type_diffs_values(path, v, v, so) =~= Seq::<crate::diff_types::TypeDiffV>::empty());
}

proof fn lemma_type_self_obj_a(path: Seq<char>, e: Seq<(Seq<char>, NodeView)>, so: bool, i: int)
    requires
        view_wf(NodeView::Object(e)),
    ensures
        type_diffs_obj_a(path, e, e, so, i) == Seq::<crate::diff_types::TypeDiffV>::empty(),
    decreases e, 1int, e.len() - i,
{
    if 0 <= i < e.len() {
        assert(view_wf(NodeView::Object(e)));
        assert((NodeView::Object(e))->Object_0 == e);
        assert(forall|p: int, q: int|
            0 <= p < q < e.len() ==> (#[trigger] e[p].0) != (#[trigger] e[q].0));
        assert(view_wf(e[i as int].1));
        lemma_obj_get_unique(e, i);
        lemma_type_self_values(crate::text::key_path(path, e[i].0), e[i].1, so);
        lemma_type_self_obj_a(path, e, so, i + 1);
        assert(type_diffs_obj_a(path, e, e, so, i) =~= Seq::<
            crate::diff_types::TypeDiffV,
        >::empty());
    }
}

proof fn lemma_type_self_arr(path: Seq<char>, items: Seq<NodeView>, so: bool, i: int)
    requires
        view_wf(NodeView::Array(items)),
    ensures
        type_diffs_arr(path, items, items, so, i) == Seq::<crate::diff_types::TypeDiffV>::empty(),
    decreases items, 2int, items.len() - i,
{
    if 0 <= i < items.len() {
        assert(view_wf(NodeView::Array(items)));
        assert((NodeView::Array(items))->Array_0 == items);
        assert(view_wf(items[i as int]));
        lemma_type_self_values(index_path(path, i as nat), items[i], so);
        lemma_type_self_arr(path, items, so, i + 1);
        assert(type_diffs_arr(path, items, items, so, i) =~= Seq::<
            crate::diff_types::TypeDiffV,
        >::empty());
    }
}

proof fn lemma_value_self_values(path: Seq<char>, v: NodeView, so: bool)
    requires
        view_wf(v),
    ensures
        value_diffs_values(path, v, v, so) == Seq::<ValueDiffV>::empty(),
    decreases v, 3int, 0int,
{
    if v is Object {
        lemma_value_self_obj_a(path, v->Object_0, so, 0);
    }
    if v is Array && so {
        lemma_value_self_arr(path, v->Array_0, so, 0);
    }
    assert(value_diffs_values(path, v, v, so) =~= Seq::<ValueDiffV>::empty());
}

proof fn lemma_value_self_obj_a(path: Seq<char>, e: Seq<(Seq<char>, NodeView)>, so: bool, i: int)
    requires
        view_wf(NodeView::Object(e)),
    ensures
        value_diffs_obj_a(path, e, e, so, i) == Seq::<ValueDiffV>::empty(),
    decreases e, 1int, e.len() - i,
{
    if 0 <= i < e.len() {
        assert(view_wf(NodeView::Object(e)));
        assert((NodeView::Object(e))->Object_0 == e);
        assert(forall|p: int, q: int|
            0 <= p < q < e.len() ==> (#[trigger] e[p].0) != (#[trigger] e[q].0));
        assert(view_wf(e[i as int].1));
        lemma_obj_get_unique(e, i);
        lemma_value_self_values(crate::text::key_path(path, e[i].0), e[i].1, so);
        lemma_value_self_obj_a(path, e, so, i + 1);
        assert(value_diffs_obj_a(path, e, e, so, i) =~= Seq::<ValueDiffV>::empty());
    }
}

proof fn lemma_value_self_arr(path: Seq<char>, items: Seq<NodeView>, so: bool, i: int)
    requires
        view_wf(NodeView::Array(items)),
    ensures
        value_diffs_arr(path, items, items, so, i) == Seq::<ValueDiffV>::empty(),
    decreases items, 2int, items.len() - i,
{
    if 0 <= i < items.len() {
        assert(view_wf(NodeView::Array(items)));
        assert((NodeView::Array(items))->Array_0 == items);
        assert(view_wf(items[i as int]));
        lemma_value_self_values(index_path(path, i as nat), items[i], so);
        lemma_value_self_arr(path, items, so, i + 1);
        assert(value_diffs_arr(path, items, items, so, i) =~= Seq::<ValueDiffV>::empty());
    }
}

/// Counting over a longer prefix never counts less.
proof fn lemma_count_prefix_mono(s: Seq<Seq<char>>, k1: int, k2: int, v: Seq<char>)
    requires
        k1 <= k2 <= s.len(),
    ensures
        count_prefix(s, k1, v) <= count_prefix(s, k2, v),
    decreases k2 - k1,
{
    if k1 < k2 {
        lemma_count_prefix_mono(s, k1, k2 - 1, v);
    }
}

/// A list matched against itself leaves nothing over.
proof fn lemma_unmatched_self(ra: Seq<Seq<char>>, i: int)
    ensures
        unmatched_from(ra, ra, i) == Seq::<Seq<char>>::empty(),
    decreases ra.len() - i,
{
    if 0 <= i < ra.len() {
        lemma_count_prefix_mono(ra, i + 1, ra.len() as int, ra[i]);
        lemma_unmatched_self(ra, i + 1);
        assert(unmatched_from(ra, ra, i) =~= Seq::<Seq<char>>::empty());
    }
}

/// An array pair with identical contents yields no records at all.
proof fn lemma_array_pair_self(path: Seq<char>, items: Seq<NodeView>)
    ensures
        array_pair_diffs(path, items, items) == Seq::<crate::diff_types::ArrayDiffV>::empty(),
{
    lemma_unmatched_self(renders(items), 0);
    assert(array_pair_diffs(path, items, items) =~= Seq::<
        crate::diff_types::ArrayDiffV,
    >::empty());
}

proof fn lemma_array_self_values(path: Seq<char>, v: NodeView, so: bool)
    requires
        view_wf(v),
    ensures
        array_diffs_values(path, v, v, so) == Seq::<crate::diff_types::ArrayDiffV>::empty(),
    decreases v, 3int, 0int,
{
    if v is Object {
        lemma_array_self_obj_a(path, v->Object_0, so, 0);
    }
    if v is Array && !so {
        lemma_array_pair_self(path, v->Array_0);
    }
    assert(array_diffs_values(path, v, v, so) =~= Seq::<crate::diff_types::ArrayDiffV>::empty());
}

proof fn lemma_array_self_obj_a(path: Seq<char>, e: Seq<(Seq<char>, NodeView)>, so: bool, i: int)
    requires
        view_wf(NodeView::Object(e)),
    ensures
        array_diffs_obj_a(path, e, e, so, i) == Seq::<crate::diff_types::ArrayDiffV>::empty(),
    decreases e, 1int, e.len() - i,
{
    if 0 <= i < e.len() {
        assert(view_wf(NodeView::Object(e)));
        assert((NodeView::Object(e))->Object_0 == e);
        assert(forall|p: int, q: int|
            0 <= p < q < e.len() ==> (#[trigger] e[p].0) != (#[trigger] e[q].0));
        assert(view_wf(e[i as int].1));
        lemma_obj_get_unique(e, i);
        lemma_array_self_values(crate::text::key_path(path, e[i].0), e[i].1, so);
        lemma_array_self_obj_a(path, e, so, i + 1);
        assert(array_diffs_obj_a(path, e, e, so, i) =~= Seq::<
            crate::diff_types::ArrayDiffV,
        >::empty());
    }
}

/// Comparing any well-formed document against itself yields an empty record
/// list in every category, whichever categories run and whichever array
/// policy is set.
pub proof fn law_self_compare_empty(
    path: Seq<char>,
    ents: Seq<(Seq<char>, NodeView)>,
    fa: Seq<char>,
    fb: Seq<char>,
    so: bool,
)
    requires
        view_wf(NodeView::Object(ents)),
    ensures
        key_diffs_obj(path, ents, ents, fa, fb, so) == Seq::<
            crate::diff_types::KeyDiffV,
        >::empty(),
        type_diffs_obj(path, ents, ents, so) == Seq::<crate::diff_types::TypeDiffV>::empty(),
        value_diffs_obj(path, ents, ents, so) == Seq::<ValueDiffV>::empty(),
        array_diffs_obj(path, ents, ents, so) == Seq::<crate::diff_types::ArrayDiffV>::empty(),
{
    lemma_key_self_obj_a(path, ents, fa, fb, so, 0);
    lemma_key_self_obj_b(path, ents, fa, fb, 0);
    assert(key_diffs_obj(path, ents, ents, fa, fb, so) =~= Seq::<
        crate::diff_types::KeyDiffV,
    >::empty());
    lemma_type_self_obj_a(path, ents, so, 0);
    lemma_value_self_obj_a(path, ents, so, 0);
    lemma_array_self_obj_a(path, ents, so, 0);
}

/// Same-order arrays of equal length with identical well-formed elements
/// yield no array diff and no value diff for that array.
pub proof fn law_same_order_identical_arrays(path: Seq<char>, items: Seq<NodeView>)
    requires
        view_wf(NodeView::Array(items)),
    ensures
        value_diffs_values(path, NodeView::Array(items), NodeView::Array(items), true) == Seq::<
            ValueDiffV,
        >::empty(),
        array_diffs_values(path, NodeView::Array(items), NodeView::Array(items), true) == Seq::<
            crate::diff_types::ArrayDiffV,
        >::empty(),
{
    lemma_value_self_values(path, NodeView::Array(items), true);
    lemma_array_self_values(path, NodeView::Array(items), true);
}

proof fn lemma_value_arr_single(
    path: Seq<char>,
    ai: Seq<NodeView>,
    bi: Seq<NodeView>,
    i: int,
    j: int,
)
    requires
        ai.len() == bi.len(),
        0 <= i < ai.len(),
        forall|k: int| 0 <= k < ai.len() && k != i ==> (#[trigger] ai[k]) == bi[k],
        forall|k: int| 0 <= k < ai.len() ==> view_wf(#[trigger] ai[k]),
        ai[i].is_scalar(),
        bi[i].is_scalar(),
        ai[i].tag() == bi[i].tag(),
        render_top(ai[i]) != render_top(bi[i]),
        0 <= j <= ai.len(),
    ensures
        value_diffs_arr(path, ai, bi, true, j) == (if j <= i {
            seq![
                ValueDiffV {
                    key: index_path(path, i as nat),
                    value1: render_top(ai[i]),
                    value2: render_top(bi[i]),
                },
            ]
        } else {
            Seq::<ValueDiffV>::empty()
        }),
    decreases ai.len() - j,
{
    if j < ai.len() {
        lemma_value_arr_single(path, ai, bi, i, j + 1);
        if j == i {
            assert(value_diffs_values(index_path(path, j as nat), ai[j], bi[j], true) =~= seq![
                ValueDiffV {
                    key: index_path(path, i as nat),
                    value1: render_top(ai[i]),
                    value2: render_top(bi[i]),
                },
            ]);
        } else {
            assert(ai[j] == bi[j]);
            lemma_value_self_values(index_path(path, j as nat), ai[j], true);
        }
        assert(value_diffs_arr(path, ai, bi, true, j) =~= (if j <= i {
            seq![
                ValueDiffV {
                    key: index_path(path, i as nat),
                    value1: render_top(ai[i]),
                    value2: render_top(bi[i]),
                },
            ]
        } else {
            Seq::<ValueDiffV>::empty()
        }));
    } else {
        assert(value_diffs_arr(path, ai, bi, true, j) =~= Seq::<ValueDiffV>::empty());
    }
}

/// Same-order arrays of equal length whose elements agree everywhere but at
/// one position, where both sides hold same-tag scalars rendering
/// differently, yield exactly one value diff, at that element's indexed
/// path, and no array diff at the array's own path.
pub proof fn law_same_order_single_scalar_diff(
    path: Seq<char>,
    ai: Seq<NodeView>,
    bi: Seq<NodeView>,
    i: int,
)
    requires
        ai.len() == bi.len(),
        0 <= i < ai.len(),
        forall|k: int| 0 <= k < ai.len() && k != i ==> (#[trigger] ai[k]) == bi[k],
        forall|k: int| 0 <= k < ai.len() ==> view_wf(#[trigger] ai[k]),
        ai[i].is_scalar(),
        bi[i].is_scalar(),
        ai[i].tag() == bi[i].tag(),
        render_top(ai[i]) != render_top(bi[i]),
    ensures
        value_diffs_values(path, NodeView::Array(ai), NodeView::Array(bi), true) == seq![
            ValueDiffV {
                key: index_path(path, i as nat),
                value1: render_top(ai[i]),
                value2: render_top(bi[i]),
            },
        ],
        array_diffs_values(path, NodeView::Array(ai), NodeView::Array(bi), true) == Seq::<
            crate::diff_types::ArrayDiffV,
        >::empty(),
{
    lemma_value_arr_single(path, ai, bi, i, 0);
    assert(array_diffs_values(path, NodeView::Array(ai), NodeView::Array(bi), true) =~= Seq::<
        crate::diff_types::ArrayDiffV,
    >::empty());
}

/// A canonical scalar rendering, read back as a scalar token, yields the
/// value it came from: exactly, for null, booleans and well-formed number
/// tokens; for a string scalar, whenever its text is not itself shaped like
/// another scalar's rendering.
pub proof fn law_scalar_rendering_round_trip(v: NodeView)
    requires
        v.is_scalar(),
        v is Number ==> is_number_token(v->Number_0),
        v is String ==> !scalar_shaped(v->String_0),
    ensures
        parse_scalar_spec(render_top(v)) == v,
{
    reveal_strlit("null");
    reveal_strlit("true");
    reveal_strlit("false");
    match v {
        NodeView::Null => {
        },
        NodeView::Bool(b) => {
            assert("true"@.len() == 4 && "false"@.len() == 5 && "null"@.len() == 4);
            assert("true"@[0] == 't' && "null"@[0] == 'n');
        },
        NodeView::Number(t) => {
            assert(!is_digit('n') && 'n' != '-');
            assert(!is_number_token("null"@));
            assert(!is_number_token("true"@));
            assert(!is_number_token("false"@));
        },
        NodeView::String(s) => {
        },
        _ => {
        },
    }
}

} // verus!

verus! {

/// Membership in a concatenation is membership in either part.
proof fn lemma_mem_concat<T>(x: Seq<T>, y: Seq<T>, e: T)
    ensures
        (x + y).contains(e) <==> (x.contains(e) || y.contains(e)),
{
    if (x + y).contains(e) {
        let i = choose|i: int| 0 <= i < (x + y).len() && (x + y)[i] == e;
        if i < x.len() {
            assert(x[i] == e);
        } else {
            assert(y[i - x.len()] == e);
        }
    }
    if x.contains(e) {
        let i = choose|i: int| 0 <= i < x.len() && x[i] == e;
        assert((x + y)[i] == e);
    }
    if y.contains(e) {
        let i = choose|i: int| 0 <= i < y.len() && y[i] == e;
        assert((x + y)[x.len() + i] == e);
    }
}

/// A record in the walk from entry `j` on is in the walk from any earlier
/// entry on.
proof fn lemma_key_obj_a_mem_prefix(
    path: Seq<char>,
    ae: Seq<(Seq<char>, NodeView)>,
    be: Seq<(Seq<char>, NodeView)>,
    fa: Seq<char>,
    fb: Seq<char>,
    so: bool,
    m: int,
    j: int,
    kd: crate::diff_types::KeyDiffV,
)
    requires
        0 <= m <= j,
        key_diffs_obj_a(path, ae, be, fa, fb, so, j).contains(kd),
    ensures
        key_diffs_obj_a(path, ae, be, fa, fb, so, m).contains(kd),
    decreases j - m,
{
    if m < j {
        lemma_key_obj_a_mem_prefix(path, ae, be, fa, fb, so, m + 1, j, kd);
        if m < ae.len() {
            let head = if obj_has(be, ae[m].0) {
                key_diffs_values(
                    crate::text::key_path(path, ae[m].0),
                    ae[m].1,
                    obj_get1(be, ae[m].0),
                    fa,
                    fb,
                    so,
                )
            } else {
                seq![
                    crate::diff_types::KeyDiffV {
                        key: crate::text::key_path(path, ae[m].0),
                        has: fa,
                        misses: fb,
                    },
                ]
            };
            lemma_mem_concat(head, key_diffs_obj_a(path, ae, be, fa, fb, so, m + 1), kd);
        }
    }
}

proof fn lemma_key_obj_b_mem_prefix(
    path: Seq<char>,
    ae: Seq<(Seq<char>, NodeView)>,
    be: Seq<(Seq<char>, NodeView)>,
    fa: Seq<char>,
    fb: Seq<char>,
    m: int,
    j: int,
    kd: crate::diff_types::KeyDiffV,
)
    requires
        0 <= m <= j,
        key_diffs_obj_b(path, ae, be, fa, fb, j).contains(kd),
    ensures
        key_diffs_obj_b(path, ae, be, fa, fb, m).contains(kd),
    decreases j - m,
{
    if m < j {
        lemma_key_obj_b_mem_prefix(path, ae, be, fa, fb, m + 1, j, kd);
        if m < be.len() {
            let head = if !obj_has(ae, be[m].0) {
                seq![
                    crate::diff_types::KeyDiffV {
                        key: crate::text::key_path(path, be[m].0),
                        has: fb,
                        misses: fa,
                    },
                ]
            } else {
                Seq::<crate::diff_types::KeyDiffV>::empty()
            };
            lemma_mem_concat(head, key_diffs_obj_b(path, ae, be, fa, fb, m + 1), kd);
        }
    }
}

proof fn lemma_key_arr_mem_prefix(
    path: Seq<char>,
    ai: Seq<NodeView>,
    bi: Seq<NodeView>,
    fa: Seq<char>,
    fb: Seq<char>,
    so: bool,
    m: int,
    j: int,
    kd: crate::diff_types::KeyDiffV,
)
    requires
        0 <= m <= j,
        key_diffs_arr(path, ai, bi, fa, fb, so, j).contains(kd),
    ensures
        key_diffs_arr(path, ai, bi, fa, fb, so, m).contains(kd),
    decreases j - m,
{
    if m < j {
        lemma_key_arr_mem_prefix(path, ai, bi, fa, fb, so, m + 1, j, kd);
        if m < ai.len() && ai.len() == bi.len() {
            lemma_mem_concat(
                key_diffs_values(index_path(path, m as nat), ai[m], bi[m], fa, fb, so),
                key_diffs_arr(path, ai, bi, fa, fb, so, m + 1),
                kd,
            );
        }
    }
}

} // verus!

verus! {

proof fn lemma_key_swap_values(
    path: Seq<char>,
    a: NodeView,
    b: NodeView,
    fa: Seq<char>,
    fb: Seq<char>,
    so: bool,
    kd: crate::diff_types::KeyDiffV,
)
    requires
        view_wf(a),
        view_wf(b),
        key_diffs_values(path, a, b, fa, fb, so).contains(kd),
    ensures
        key_diffs_values(path, b, a, fb, fa, so).contains(kd),
    decreases a, b, 3int, 0int,
{
    let from_objects = if a is Object && b is Object {
        key_diffs_obj(path, a->Object_0, b->Object_0, fa, fb, so)
    } else {
        Seq::empty()
    };
    let from_arrays = if so && a is Array && b is Array && a->Array_0.len() == b->Array_0.len() {
        key_diffs_arr(path, a->Array_0, b->Array_0, fa, fb, so, 0)
    } else {
        Seq::empty()
    };
    lemma_mem_concat(from_objects, from_arrays, kd);
    let from_objects_swapped = if b is Object && a is Object {
        key_diffs_obj(path, b->Object_0, a->Object_0, fb, fa, so)
    } else {
        Seq::empty()
    };
    let from_arrays_swapped = if so && b is Array && a is Array && b->Array_0.len()
        == a->Array_0.len() {
        key_diffs_arr(path, b->Array_0, a->Array_0, fb, fa, so, 0)
    } else {
        Seq::empty()
    };
    if from_objects.contains(kd) {
        let ae = a->Object_0;
        let be = b->Object_0;
        assert(a == NodeView::Object(ae));
        assert(b == NodeView::Object(be));
        lemma_mem_concat(
            key_diffs_obj_a(path, ae, be, fa, fb, so, 0),
            key_diffs_obj_b(path, ae, be, fa, fb, 0),
            kd,
        );
        if key_diffs_obj_a(path, ae, be, fa, fb, so, 0).contains(kd) {
            lemma_key_swap_obj_a(path, ae, be, fa, fb, so, 0, kd);
        } else {
            lemma_key_swap_obj_b(path, ae, be, fa, fb, so, 0, kd);
        }
        assert(from_objects_swapped.contains(kd));
    } else {
        assert(from_arrays.contains(kd));
        let ai = a->Array_0;
        let bi = b->Array_0;
        assert(a == NodeView::Array(ai));
        assert(b == NodeView::Array(bi));
        lemma_key_swap_arr(path, ai, bi, fa, fb, so, 0, kd);
        assert(from_arrays_swapped.contains(kd));
    }
    lemma_mem_concat(from_objects_swapped, from_arrays_swapped, kd);
}

proof fn lemma_key_swap_obj_a(
    path: Seq<char>,
    ae: Seq<(Seq<char>, NodeView)>,
    be: Seq<(Seq<char>, NodeView)>,
    fa: Seq<char>,
    fb: Seq<char>,
    so: bool,
    i: int,
    kd: crate::diff_types::KeyDiffV,
)
    requires
        view_wf(NodeView::Object(ae)),
        view_wf(NodeView::Object(be)),
        0 <= i,
        key_diffs_obj_a(path, ae, be, fa, fb, so, i).contains(kd),
    ensures
        key_diffs_obj(path, be, ae, fb, fa, so).contains(kd),
    decreases ae, be, 1int, ae.len() - i,
{
    assert(view_wf(NodeView::Object(ae)));
    assert((NodeView::Object(ae))->Object_0 == ae);
    assert(view_wf(NodeView::Object(be)));
    assert((NodeView::Object(be))->Object_0 == be);
    if i >= ae.len() {
        assert(!Seq::<crate::diff_types::KeyDiffV>::empty().contains(kd));
    } else {
        let k = ae[i].0;
        let child = crate::text::key_path(path, k);
        let head = if obj_has(be, k) {
            key_diffs_values(child, ae[i].1, obj_get1(be, k), fa, fb, so)
        } else {
            seq![crate::diff_types::KeyDiffV { key: child, has: fa, misses: fb }]
        };
        lemma_mem_concat(head, key_diffs_obj_a(path, ae, be, fa, fb, so, i + 1), kd);
        if head.contains(kd) {
            if obj_has(be, k) {
                crate::node::lemma_obj_index_of(be, k);
                let j = crate::node::obj_index_of(be, k);
                assert(view_wf(ae[i as int].1));
                assert(view_wf(be[j].1));
                assert(obj_get1(be, k) == be[j].1);
                lemma_key_swap_values(child, ae[i].1, obj_get1(be, k), fa, fb, so, kd);
                lemma_obj_get_unique(ae, i);
                let target_head = key_diffs_values(
                    crate::text::key_path(path, be[j].0),
                    be[j].1,
                    obj_get1(ae, be[j].0),
                    fb,
                    fa,
                    so,
                );
                assert(target_head.contains(kd));
                lemma_mem_concat(
                    target_head,
                    key_diffs_obj_a(path, be, ae, fb, fa, so, j + 1),
                    kd,
                );
                assert(key_diffs_obj_a(path, be, ae, fb, fa, so, j).contains(kd));
                lemma_key_obj_a_mem_prefix(path, be, ae, fb, fa, so, 0, j, kd);
            } else {
                assert(kd == (crate::diff_types::KeyDiffV { key: child, has: fa, misses: fb }));
                let target_head = seq![
                    crate::diff_types::KeyDiffV {
                        key: crate::text::key_path(path, ae[i].0),
                        has: fa,
                        misses: fb,
                    },
                ];
                lemma_mem_concat(
                    target_head,
                    key_diffs_obj_b(path, be, ae, fb, fa, i + 1),
                    kd,
                );
                assert(key_diffs_obj_b(path, be, ae, fb, fa, i).contains(kd));
                lemma_key_obj_b_mem_prefix(path, be, ae, fb, fa, 0, i, kd);
            }
        } else {
            lemma_key_swap_obj_a(path, ae, be, fa, fb, so, i + 1, kd);
        }
    }
    if key_diffs_obj_a(path, be, ae, fb, fa, so, 0).contains(kd) || key_diffs_obj_b(
        path,
        be,
        ae,
        fb,
        fa,
        0,
    ).contains(kd) {
        lemma_mem_concat(
            key_diffs_obj_a(path, be, ae, fb, fa, so, 0),
            key_diffs_obj_b(path, be, ae, fb, fa, 0),
            kd,
        );
    }
}

proof fn lemma_key_swap_obj_b(
    path: Seq<char>,
    ae: Seq<(Seq<char>, NodeView)>,
    be: Seq<(Seq<char>, NodeView)>,
    fa: Seq<char>,
    fb: Seq<char>,
    so: bool,
    j: int,
    kd: crate::diff_types::KeyDiffV,
)
    requires
        0 <= j,
        key_diffs_obj_b(path, ae, be, fa, fb, j).contains(kd),
    ensures
        key_diffs_obj(path, be, ae, fb, fa, so).contains(kd),
    decreases be.len() - j,
{
    if j >= be.len() {
        assert(!Seq::<crate::diff_types::KeyDiffV>::empty().contains(kd));
    } else {
        let head = if !obj_has(ae, be[j].0) {
            seq![
                crate::diff_types::KeyDiffV {
                    key: crate::text::key_path(path, be[j].0),
                    has: fb,
                    misses: fa,
                },
            ]
        } else {
            Seq::<crate::diff_types::KeyDiffV>::empty()
        };
        lemma_mem_concat(head, key_diffs_obj_b(path, ae, be, fa, fb, j + 1), kd);
        if head.contains(kd) {
            let target_head = seq![
                crate::diff_types::KeyDiffV {
                    key: crate::text::key_path(path, be[j].0),
                    has: fb,
                    misses: fa,
                },
            ];
            lemma_mem_concat(
                target_head,
                key_diffs_obj_a(path, be, ae, fb, fa, so, j + 1),
                kd,
            );
            assert(key_diffs_obj_a(path, be, ae, fb, fa, so, j).contains(kd));
            lemma_key_obj_a_mem_prefix(path, be, ae, fb, fa, so, 0, j, kd);
            lemma_mem_concat(
                key_diffs_obj_a(path, be, ae, fb, fa, so, 0),
                key_diffs_obj_b(path, be, ae, fb, fa, 0),
                kd,
            );
        } else {
            lemma_key_swap_obj_b(path, ae, be, fa, fb, so, j + 1, kd);
        }
    }
}

proof fn lemma_key_swap_arr(
    path: Seq<char>,
    ai: Seq<NodeView>,
    bi: Seq<NodeView>,
    fa: Seq<char>,
    fb: Seq<char>,
    so: bool,
    i: int,
    kd: crate::diff_types::KeyDiffV,
)
    requires
        view_wf(NodeView::Array(ai)),
        view_wf(NodeView::Array(bi)),
        ai.len() == bi.len(),
        0 <= i,
        key_diffs_arr(path, ai, bi, fa, fb, so, i).contains(kd),
    ensures
        key_diffs_arr(path, bi, ai, fb, fa, so, 0).contains(kd),
    decreases ai, bi, 2int, ai.len() - i,
{
    assert(view_wf(NodeView::Array(ai)));
    assert((NodeView::Array(ai))->Array_0 == ai);
    assert(view_wf(NodeView::Array(bi)));
    assert((NodeView::Array(bi))->Array_0 == bi);
    if i >= ai.len() {
        assert(!Seq::<crate::diff_types::KeyDiffV>::empty().contains(kd));
    } else {
        let head = key_diffs_values(index_path(path, i as nat), ai[i], bi[i], fa, fb, so);
        lemma_mem_concat(head, key_diffs_arr(path, ai, bi, fa, fb, so, i + 1), kd);
        if head.contains(kd) {
            assert(view_wf(ai[i as int]));
            assert(view_wf(bi[i as int]));
            lemma_key_swap_values(index_path(path, i as nat), ai[i], bi[i], fa, fb, so, kd);
            lemma_mem_concat(
                key_diffs_values(index_path(path, i as nat), bi[i], ai[i], fb, fa, so),
                key_diffs_arr(path, bi, ai, fb, fa, so, i + 1),
                kd,
            );
            assert(key_diffs_arr(path, bi, ai, fb, fa, so, i).contains(kd));
            lemma_key_arr_mem_prefix(path, bi, ai, fb, fa, so, 0, i, kd);
        } else {
            lemma_key_swap_arr(path, ai, bi, fa, fb, so, i + 1, kd);
        }
    }
}

/// Antisymmetry of key diffs: a key reported present on one side and missing
/// on the other comes out of the swapped comparison, labels swapped with the
/// sides, as the very same record, and the swapped comparison reports
/// nothing beyond those mirrored records.
pub proof fn law_key_diff_antisymmetry(
    path: Seq<char>,
    ae: Seq<(Seq<char>, NodeView)>,
    be: Seq<(Seq<char>, NodeView)>,
    fa: Seq<char>,
    fb: Seq<char>,
    so: bool,
    kd: crate::diff_types::KeyDiffV,
)
    requires
        view_wf(NodeView::Object(ae)),
        view_wf(NodeView::Object(be)),
    ensures
        key_diffs_obj(path, ae, be, fa, fb, so).contains(kd) <==> key_diffs_obj(
            path,
            be,
            ae,
            fb,
            fa,
            so,
        ).contains(kd),
{
    if key_diffs_obj(path, ae, be, fa, fb, so).contains(kd) {
        lemma_mem_concat(
            key_diffs_obj_a(path, ae, be, fa, fb, so, 0),
            key_diffs_obj_b(path, ae, be, fa, fb, 0),
            kd,
        );
        if key_diffs_obj_a(path, ae, be, fa, fb, so, 0).contains(kd) {
            lemma_key_swap_obj_a(path, ae, be, fa, fb, so, 0, kd);
        } else {
            lemma_key_swap_obj_b(path, ae, be, fa, fb, so, 0, kd);
        }
    }
    if key_diffs_obj(path, be, ae, fb, fa, so).contains(kd) {
        lemma_mem_concat(
            key_diffs_obj_a(path, be, ae, fb, fa, so, 0),
            key_diffs_obj_b(path, be, ae, fb, fa, 0),
            kd,
        );
        if key_diffs_obj_a(path, be, ae, fb, fa, so, 0).contains(kd) {
            lemma_key_swap_obj_a(path, be, ae, fb, fa, so, 0, kd);
        } else {
            lemma_key_swap_obj_b(path, be, ae, fb, fa, so, 0, kd);
        }
    }
}

} // verus!

verus! {

/// The pair of values the two documents define at a path the comparison
/// visits: the starting pair at the starting path, or a pair below a key
/// both sides define, or, under the same-order policy, a pair at one index
/// of equally long arrays.
pub open spec fn pair_at(
    p0: Seq<char>,
    a: NodeView,
    b: NodeView,
    so: bool,
    p: Seq<char>,
    ta: NodeView,
    tb: NodeView,
) -> bool
    decreases a, b, 3int, 0int,
{
    ||| (p == p0 && ta == a && tb == b)
    ||| (a is Object && b is Object && exists|i: int, j: int|
        0 <= i < a->Object_0.len() && 0 <= j < b->Object_0.len() && (#[trigger] b->Object_0[j]).0
            == (#[trigger] a->Object_0[i]).0 && pair_at(
            crate::text::key_path(p0, a->Object_0[i].0),
            a->Object_0[i].1,
            b->Object_0[j].1,
            so,
            p,
            ta,
            tb,
        ))
    ||| (so && a is Array && b is Array && a->Array_0.len() == b->Array_0.len() && exists|i: int|
        0 <= i < a->Array_0.len() && pair_at(
            index_path(p0, i as nat),
            #[trigger] a->Array_0[i],
            b->Array_0[i],
            so,
            p,
            ta,
            tb,
        ))
}

/// Whether a type diff record speaks truly of the two documents: at its path
/// both sides define a value, the two tags differ, and the record names
/// them.
pub open spec fn type_diff_witnessed(
    p0: Seq<char>,
    a: NodeView,
    b: NodeView,
    so: bool,
    td: crate::diff_types::TypeDiffV,
) -> bool {
    exists|ta: NodeView, tb: NodeView|
        pair_at(p0, a, b, so, td.key, ta, tb) && (#[trigger] ta.tag()) != (#[trigger] tb.tag())
            && td.type1 == ta.tag().spec_name() && td.type2 == tb.tag().spec_name()
}

proof fn lemma_type_sound_values(
    p0: Seq<char>,
    a: NodeView,
    b: NodeView,
    so: bool,
    td: crate::diff_types::TypeDiffV,
)
    requires
        type_diffs_values(p0, a, b, so).contains(td),
    ensures
        type_diff_witnessed(p0, a, b, so, td),
    decreases a, b, 3int, 0int,
{
    let from_objects = if a is Object && b is Object {
        type_diffs_obj(p0, a->Object_0, b->Object_0, so)
    } else {
        Seq::empty()
    };
    let from_arrays = if so && a is Array && b is Array && a->Array_0.len() == b->Array_0.len() {
        type_diffs_arr(p0, a->Array_0, b->Array_0, so, 0)
    } else {
        Seq::empty()
    };
    let own = if a.tag() != b.tag() {
        seq![
            crate::diff_types::TypeDiffV {
                key: p0,
                type1: a.tag().spec_name(),
                type2: b.tag().spec_name(),
            },
        ]
    } else {
        Seq::<crate::diff_types::TypeDiffV>::empty()
    };
    lemma_mem_concat(from_objects + from_arrays, own, td);
    lemma_mem_concat(from_objects, from_arrays, td);
    if own.contains(td) {
        assert(pair_at(p0, a, b, so, td.key, a, b));
        assert(type_diff_witnessed(p0, a, b, so, td));
    } else if from_objects.contains(td) {
        assert(a == NodeView::Object(a->Object_0));
        assert(b == NodeView::Object(b->Object_0));
        lemma_type_sound_obj_a(p0, a->Object_0, b->Object_0, so, 0, td, a, b);
    } else {
        assert(from_arrays.contains(td));
        assert(a == NodeView::Array(a->Array_0));
        assert(b == NodeView::Array(b->Array_0));
        lemma_type_sound_arr(p0, a->Array_0, b->Array_0, so, 0, td, a, b);
    }
}

proof fn lemma_type_sound_obj_a(
    p0: Seq<char>,
    ae: Seq<(Seq<char>, NodeView)>,
    be: Seq<(Seq<char>, NodeView)>,
    so: bool,
    i: int,
    td: crate::diff_types::TypeDiffV,
    a: NodeView,
    b: NodeView,
)
    requires
        0 <= i,
        type_diffs_obj_a(p0, ae, be, so, i).contains(td),
        a == NodeView::Object(ae),
        b == NodeView::Object(be),
    ensures
        type_diff_witnessed(p0, a, b, so, td),
    decreases ae, be, 1int, ae.len() - i,
{
    if i >= ae.len() {
        assert(!Seq::<crate::diff_types::TypeDiffV>::empty().contains(td));
    } else {
        let k = ae[i].0;
        let head = if obj_has(be, k) {
            type_diffs_values(crate::text::key_path(p0, k), ae[i].1, obj_get1(be, k), so)
        } else {
            Seq::<crate::diff_types::TypeDiffV>::empty()
        };
        lemma_mem_concat(head, type_diffs_obj_a(p0, ae, be, so, i + 1), td);
        if head.contains(td) {
            crate::node::lemma_obj_index_of(be, k);
            let j = crate::node::obj_index_of(be, k);
            lemma_type_sound_values(crate::text::key_path(p0, k), ae[i].1, be[j].1, so, td);
            let (ta, tb) = choose|ta: NodeView, tb: NodeView|
                pair_at(crate::text::key_path(p0, k), ae[i].1, be[j].1, so, td.key, ta, tb) && (
                #[trigger] ta.tag()) != (#[trigger] tb.tag()) && td.type1 == ta.tag().spec_name()
                    && td.type2 == tb.tag().spec_name();
            assert(0 <= i < a->Object_0.len() && 0 <= j < b->Object_0.len() && b->Object_0[j].0
                == a->Object_0[i].0 && pair_at(
                crate::text::key_path(p0, a->Object_0[i].0),
                a->Object_0[i].1,
                b->Object_0[j].1,
                so,
                td.key,
                ta,
                tb,
            ));
            assert(pair_at(p0, a, b, so, td.key, ta, tb));
        } else {
            lemma_type_sound_obj_a(p0, ae, be, so, i + 1, td, a, b);
        }
    }
}

proof fn lemma_type_sound_arr(
    p0: Seq<char>,
    ai: Seq<NodeView>,
    bi: Seq<NodeView>,
    so: bool,
    i: int,
    td: crate::diff_types::TypeDiffV,
    a: NodeView,
    b: NodeView,
)
    requires
        0 <= i,
        so,
        ai.len() == bi.len(),
        type_diffs_arr(p0, ai, bi, so, i).contains(td),
        a == NodeView::Array(ai),
        b == NodeView::Array(bi),
    ensures
        type_diff_witnessed(p0, a, b, so, td),
    decreases ai, bi, 2int, ai.len() - i,
{
    if i >= ai.len() {
        assert(!Seq::<crate::diff_types::TypeDiffV>::empty().contains(td));
    } else {
        let head = type_diffs_values(index_path(p0, i as nat), ai[i], bi[i], so);
        lemma_mem_concat(head, type_diffs_arr(p0, ai, bi, so, i + 1), td);
        if head.contains(td) {
            lemma_type_sound_values(index_path(p0, i as nat), ai[i], bi[i], so, td);
            let (ta, tb) = choose|ta: NodeView, tb: NodeView|
                pair_at(index_path(p0, i as nat), ai[i], bi[i], so, td.key, ta, tb) && (
                #[trigger] ta.tag()) != (#[trigger] tb.tag()) && td.type1 == ta.tag().spec_name()
                    && td.type2 == tb.tag().spec_name();
            assert(0 <= i < a->Array_0.len() && pair_at(
                index_path(p0, i as nat),
                a->Array_0[i],
                b->Array_0[i],
                so,
                td.key,
                ta,
                tb,
            ));
            assert(pair_at(p0, a, b, so, td.key, ta, tb));
        } else {
            lemma_type_sound_arr(p0, ai, bi, so, i + 1, td, a, b);
        }
    }
}

/// Every reported type diff is witnessed: at its path both documents define
/// a value, the two type tags differ, and the record carries exactly those
/// tags' names. No type diff is ever reported at a path one side lacks.
pub proof fn law_type_diff_soundness(
    path: Seq<char>,
    ae: Seq<(Seq<char>, NodeView)>,
    be: Seq<(Seq<char>, NodeView)>,
    so: bool,
    td: crate::diff_types::TypeDiffV,
)
    requires
        type_diffs_obj(path, ae, be, so).contains(td),
    ensures
        type_diff_witnessed(path, NodeView::Object(ae), NodeView::Object(be), so, td),
{
    lemma_type_sound_obj_a(path, ae, be, so, 0, td, NodeView::Object(ae), NodeView::Object(be));
}

} // verus!

verus! {

/// A key that the dotted/bracketed path grammar can carry unambiguously:
/// non-empty, with no separator characters of its own.
pub open spec fn sep_free_key(k: Seq<char>) -> bool {
    k.len() > 0 && forall|i: int| 0 <= i < k.len() ==> k[i] != '.' && k[i] != '['
}

/// Well-formed for unambiguous paths: unique, separator-free keys at every
/// depth.
pub open spec fn sep_wf(v: NodeView) -> bool
    decreases v,
{
    match v {
        NodeView::Null => true,
        NodeView::Bool(_) => true,
        NodeView::Number(_) => true,
        NodeView::String(_) => true,
        NodeView::Array(items) => forall|i: int|
            0 <= i < items.len() ==> sep_wf(#[trigger] items[i]),
        NodeView::Object(entries) => {
            &&& forall|i: int, j: int|
                0 <= i < j < entries.len() ==> (#[trigger] entries[i].0) != (#[trigger] entries[j].0)
            &&& forall|i: int| 0 <= i < entries.len() ==> sep_free_key(#[trigger] entries[i].0)
            &&& forall|i: int| 0 <= i < entries.len() ==> sep_wf(#[trigger] entries[i].1)
        },
    }
}

/// What may follow a finished path segment: nothing, or another segment.
pub open spec fn rel_ok(t: Seq<char>) -> bool {
    t.len() == 0 || t[0] == '.' || t[0] == '['
}

/// Two separator-free keys head two equal strings only as the same key with
/// the same remainder.
proof fn lemma_key_heads_cancel(k1: Seq<char>, t1: Seq<char>, k2: Seq<char>, t2: Seq<char>)
    requires
        sep_free_key(k1),
        sep_free_key(k2),
        rel_ok(t1),
        rel_ok(t2),
        k1 + t1 == k2 + t2,
    ensures
        k1 == k2,
        t1 == t2,
{
    assert((k1 + t1).len() == k1.len() + t1.len());
    assert((k2 + t2).len() == k2.len() + t2.len());
    if k1.len() == k2.len() {
        assert forall|i: int| 0 <= i < k1.len() implies k1[i] == k2[i] by {
            assert((k1 + t1)[i] == k1[i]);
            assert((k2 + t2)[i] == k2[i]);
        }
        assert(k1 =~= k2);
        assert(t1.len() == t2.len());
        assert forall|i: int| 0 <= i < t1.len() implies t1[i] == t2[i] by {
            assert((k1 + t1)[k1.len() + i] == t1[i]);
            assert((k2 + t2)[k2.len() + i] == t2[i]);
        }
        assert(t1 =~= t2);
    } else if k1.len() < k2.len() {
        assert((k1 + t1)[k1.len() as int] == t1[0]);
        assert((k2 + t2)[k1.len() as int] == k2[k1.len() as int]);
        assert(t1.len() > 0);
    } else {
        assert((k2 + t2)[k2.len() as int] == t2[0]);
        assert((k1 + t1)[k2.len() as int] == k1[k2.len() as int]);
        assert(t2.len() > 0);
    }
}

/// Decimal renderings hold digits only.
proof fn lemma_dec_digits_are_digits(n: nat)
    ensures
        forall|i: int|
            0 <= i < crate::text::dec_digits(n).len() ==> is_digit(
                #[trigger] crate::text::dec_digits(n)[i],
            ),
    decreases n,
{
    let d = crate::text::dec_digits(n);
    if n < 10 {
        assert(d == seq![crate::text::digit_char(n)]);
        assert(is_digit(d[0]));
    } else {
        lemma_dec_digits_are_digits(n / 10);
        let pre = crate::text::dec_digits(n / 10);
        assert(d == pre.push(crate::text::digit_char(n % 10)));
        assert forall|i: int| 0 <= i < d.len() implies is_digit(#[trigger] d[i]) by {
            if i < pre.len() {
                assert(d[i] == pre[i]);
            } else {
                assert(d[i] == crate::text::digit_char(n % 10));
            }
        }
    }
}

/// Different numbers render differently.
proof fn lemma_dec_digits_injective(m: nat, n: nat)
    requires
        crate::text::dec_digits(m) == crate::text::dec_digits(n),
    ensures
        m == n,
    decreases m,
{
    let dm = crate::text::dec_digits(m);
    let dn = crate::text::dec_digits(n);
    assert(dm.last() == crate::text::digit_char(m % 10));
    assert(dn.last() == crate::text::digit_char(n % 10));
    assert(m % 10 == n % 10);
    if m < 10 && n < 10 {
        assert(m == m % 10 && n == n % 10) by (nonlinear_arith)
            requires
                m < 10 && n < 10,
        ;
    } else if m >= 10 && n >= 10 {
        assert(dm.drop_last() =~= crate::text::dec_digits(m / 10));
        assert(dn.drop_last() =~= crate::text::dec_digits(n / 10));
        lemma_dec_digits_injective(m / 10, n / 10);
        assert(m == 10 * (m / 10) + m % 10) by (nonlinear_arith);
        assert(n == 10 * (n / 10) + n % 10) by (nonlinear_arith);
    } else if m < 10 {
        assert(dm.len() == 1);
        assert(crate::text::dec_digits(n / 10).len() >= 1);
        assert(dn.len() >= 2);
    } else {
        assert(dn.len() == 1);
        assert(crate::text::dec_digits(m / 10).len() >= 1);
        assert(dm.len() >= 2);
    }
}

/// Two bracketed indices head two equal strings only as the same index with
/// the same remainder.
proof fn lemma_index_heads_cancel(m: nat, t1: Seq<char>, n: nat, t2: Seq<char>)
    requires
        "["@ + crate::text::dec_digits(m) + "]"@ + t1 == "["@ + crate::text::dec_digits(n) + "]"@
            + t2,
    ensures
        m == n,
        t1 == t2,
{
    reveal_strlit("[");
    reveal_strlit("]");
    let dm = crate::text::dec_digits(m);
    let dn = crate::text::dec_digits(n);
    let s1 = "["@ + dm + "]"@ + t1;
    let s2 = "["@ + dn + "]"@ + t2;
    lemma_dec_digits_are_digits(m);
    lemma_dec_digits_are_digits(n);
    let h1 = "["@ + dm + "]"@;
    let h2 = "["@ + dn + "]"@;
    assert(h1.len() == dm.len() + 2);
    assert(h2.len() == dn.len() + 2);
    assert(s1.len() == h1.len() + t1.len());
    assert(s2.len() == h2.len() + t2.len());
    if dm.len() == dn.len() {
        assert forall|i: int| 0 <= i < dm.len() implies dm[i] == dn[i] by {
            assert(s1[1 + i] == h1[1 + i]);
            assert(h1[1 + i] == dm[i]);
            assert(s2[1 + i] == h2[1 + i]);
            assert(h2[1 + i] == dn[i]);
        }
        assert(dm =~= dn);
        lemma_dec_digits_injective(m, n);
        assert(t1.len() == t2.len());
        assert forall|i: int| 0 <= i < t1.len() implies t1[i] == t2[i] by {
            assert(s1[h1.len() + i] == t1[i]);
            assert(s2[h2.len() + i] == t2[i]);
        }
        assert(t1 =~= t2);
    } else if dm.len() < dn.len() {
        let pos = 1 + dm.len() as int;
        assert(s1[pos] == h1[pos]);
        assert(h1[pos] == ']');
        assert(s2[pos] == h2[pos]);
        assert(h2[pos] == dn[dm.len() as int]);
        assert(is_digit(dn[dm.len() as int]));
        assert(!is_digit(']'));
    } else {
        let pos = 1 + dn.len() as int;
        assert(s2[pos] == h2[pos]);
        assert(h2[pos] == ']');
        assert(s1[pos] == h1[pos]);
        assert(h1[pos] == dm[dn.len() as int]);
        assert(is_digit(dm[dn.len() as int]));
        assert(!is_digit(']'));
    }
}

} // verus!

verus! {

/// No two records in the list share a path.
pub open spec fn keys_unique(s: Seq<crate::diff_types::KeyDiffV>) -> bool {
    forall|x: int, y: int|
        0 <= x < y < s.len() ==> (#[trigger] s[x]).key != (#[trigger] s[y]).key
}

/// Every record's path continues the given prefix with a fresh segment.
pub open spec fn all_ext(p: Seq<char>, s: Seq<crate::diff_types::KeyDiffV>) -> bool {
    forall|x: int| 0 <= x < s.len() ==> ext_of(p, (#[trigger] s[x]).key)
}

/// `q` strictly extends `p` by a dotted or bracketed segment.
pub open spec fn ext_of(p: Seq<char>, q: Seq<char>) -> bool {
    q.len() > p.len() && q.subrange(0, p.len() as int) == p && (q[p.len() as int] == '.' || q[
        p.len() as int
    ] == '[')
}

/// `q` names the key `k` below `p`, possibly deeper.
pub open spec fn from_key(p: Seq<char>, k: Seq<char>, q: Seq<char>) -> bool {
    exists|t: Seq<char>| rel_ok(t) && q == crate::text::key_path(p, k) + t
}

/// `q` names the index `n` below `p`, possibly deeper.
pub open spec fn from_index(p: Seq<char>, n: nat, q: Seq<char>) -> bool {
    exists|t: Seq<char>| rel_ok(t) && q == index_path(p, n) + t
}

proof fn lemma_prefix_cancel(p: Seq<char>, u1: Seq<char>, u2: Seq<char>)
    requires
        p + u1 == p + u2,
    ensures
        u1 == u2,
{
    assert((p + u1).len() == p.len() + u1.len());
    assert((p + u2).len() == p.len() + u2.len());
    assert(u1.len() == u2.len());
    assert forall|i: int| 0 <= i < u1.len() implies u1[i] == u2[i] by {
        assert((p + u1)[p.len() + i] == u1[i]);
        assert((p + u2)[p.len() + i] == u2[i]);
    }
    assert(u1 =~= u2);
}

/// Paths below different separator-free keys never coincide.
proof fn lemma_from_key_distinct(
    p: Seq<char>,
    k1: Seq<char>,
    k2: Seq<char>,
    q1: Seq<char>,
    q2: Seq<char>,
)
    requires
        sep_free_key(k1),
        sep_free_key(k2),
        k1 != k2,
        from_key(p, k1, q1),
        from_key(p, k2, q2),
    ensures
        q1 != q2,
{
    if q1 == q2 {
        let t1 = choose|t: Seq<char>| rel_ok(t) && q1 == crate::text::key_path(p, k1) + t;
        let t2 = choose|t: Seq<char>| rel_ok(t) && q2 == crate::text::key_path(p, k2) + t;
        if p.len() == 0 {
            assert(crate::text::key_path(p, k1) == k1);
            assert(crate::text::key_path(p, k2) == k2);
            lemma_key_heads_cancel(k1, t1, k2, t2);
        } else {
            assert((p + "."@ + k1) + t1 =~= (p + "."@) + (k1 + t1));
            assert((p + "."@ + k2) + t2 =~= (p + "."@) + (k2 + t2));
            lemma_prefix_cancel(p + "."@, k1 + t1, k2 + t2);
            lemma_key_heads_cancel(k1, t1, k2, t2);
        }
    }
}

/// Paths below different indices never coincide.
proof fn lemma_from_index_distinct(p: Seq<char>, m: nat, n: nat, q1: Seq<char>, q2: Seq<char>)
    requires
        m != n,
        from_index(p, m, q1),
        from_index(p, n, q2),
    ensures
        q1 != q2,
{
    if q1 == q2 {
        let t1 = choose|t: Seq<char>| rel_ok(t) && q1 == index_path(p, m) + t;
        let t2 = choose|t: Seq<char>| rel_ok(t) && q2 == index_path(p, n) + t;
        let dm = crate::text::dec_digits(m);
        let dn = crate::text::dec_digits(n);
        assert((p + "["@ + dm + "]"@) + t1 =~= p + ("["@ + dm + "]"@ + t1));
        assert((p + "["@ + dn + "]"@) + t2 =~= p + ("["@ + dn + "]"@ + t2));
        lemma_prefix_cancel(p, "["@ + dm + "]"@ + t1, "["@ + dn + "]"@ + t2);
        lemma_index_heads_cancel(m, t1, n, t2);
    }
}

/// A path below a key extends a non-empty prefix with a dot.
proof fn lemma_from_key_ext(p: Seq<char>, k: Seq<char>, q: Seq<char>)
    requires
        p.len() > 0,
        from_key(p, k, q),
    ensures
        ext_of(p, q),
        q[p.len() as int] == '.',
{
    reveal_strlit(".");
    let t = choose|t: Seq<char>| rel_ok(t) && q == crate::text::key_path(p, k) + t;
    assert(q == (p + "."@ + k) + t);
    assert(q.len() == p.len() + 1 + k.len() + t.len());
    assert forall|i: int| 0 <= i < p.len() implies q[i] == p[i] by {
        assert(q[i] == (p + "."@ + k)[i]);
    }
    assert(q.subrange(0, p.len() as int) =~= p);
    assert(q[p.len() as int] == (p + "."@ + k)[p.len() as int]);
    assert((p + "."@ + k)[p.len() as int] == "."@[0]);
}

/// A path below an index extends its prefix with a bracket.
proof fn lemma_from_index_ext(p: Seq<char>, n: nat, q: Seq<char>)
    requires
        from_index(p, n, q),
    ensures
        ext_of(p, q),
        q[p.len() as int] == '[',
{
    reveal_strlit("[");
    reveal_strlit("]");
    let t = choose|t: Seq<char>| rel_ok(t) && q == index_path(p, n) + t;
    let d = crate::text::dec_digits(n);
    assert(q == (p + "["@ + d + "]"@) + t);
    assert(q.len() == p.len() + 1 + d.len() + 1 + t.len());
    assert forall|i: int| 0 <= i < p.len() implies q[i] == p[i] by {
        assert(q[i] == (p + "["@ + d + "]"@)[i]);
    }
    assert(q.subrange(0, p.len() as int) =~= p);
    assert(q[p.len() as int] == (p + "["@ + d + "]"@)[p.len() as int]);
    assert((p + "["@ + d + "]"@)[p.len() as int] == "["@[0]);
}

/// A path at a key is a path below that key, with nothing after.
proof fn lemma_from_key_exact(p: Seq<char>, k: Seq<char>)
    ensures
        from_key(p, k, crate::text::key_path(p, k)),
{
    let t = Seq::<char>::empty();
    assert(crate::text::key_path(p, k) + t =~= crate::text::key_path(p, k));
    assert(rel_ok(t) && crate::text::key_path(p, k) == crate::text::key_path(p, k) + t);
}

/// A path that extends a child location is a path below the child's key.
proof fn lemma_from_key_deeper(p: Seq<char>, k: Seq<char>, q: Seq<char>)
    requires
        ext_of(crate::text::key_path(p, k), q),
    ensures
        from_key(p, k, q),
{
    let child = crate::text::key_path(p, k);
    let t = q.subrange(child.len() as int, q.len() as int);
    assert(q =~= child + t);
    assert(t[0] == q[child.len() as int]);
    assert(rel_ok(t) && q == child + t);
}

/// A path that extends an element location is a path below its index.
proof fn lemma_from_index_deeper(p: Seq<char>, n: nat, q: Seq<char>)
    requires
        ext_of(index_path(p, n), q),
    ensures
        from_index(p, n, q),
{
    let child = index_path(p, n);
    let t = q.subrange(child.len() as int, q.len() as int);
    assert(q =~= child + t);
    assert(t[0] == q[child.len() as int]);
    assert(rel_ok(t) && q == child + t);
}

/// Unique keys concatenate to unique keys when no key crosses the parts.
proof fn lemma_unique_concat(x: Seq<crate::diff_types::KeyDiffV>, y: Seq<crate::diff_types::KeyDiffV>)
    requires
        keys_unique(x),
        keys_unique(y),
        forall|i: int, j: int|
            0 <= i < x.len() && 0 <= j < y.len() ==> (#[trigger] x[i]).key != (#[trigger] y[j]).key,
    ensures
        keys_unique(x + y),
{
    assert forall|a: int, b: int| 0 <= a < b < (x + y).len() implies ((x + y)[a]).key != ((x
        + y)[b]).key by {
        if b < x.len() {
            assert((x + y)[a] == x[a] && (x + y)[b] == x[b]);
        } else if a >= x.len() {
            assert((x + y)[a] == y[a - x.len()] && (x + y)[b] == y[b - x.len()]);
        } else {
            assert((x + y)[a] == x[a] && (x + y)[b] == y[b - x.len()]);
        }
    }
}

} // verus!

verus! {

/// Some separator-free key heads this path.
pub open spec fn some_key(p: Seq<char>, q: Seq<char>) -> bool {
    exists|k: Seq<char>| sep_free_key(k) && #[trigger] from_key(p, k, q)
}

/// Every record's path lies below one of the objects' own keys.
pub open spec fn all_from_keys(
    p: Seq<char>,
    s: Seq<crate::diff_types::KeyDiffV>,
) -> bool {
    forall|x: int| 0 <= x < s.len() ==> some_key(p, (#[trigger] s[x]).key)
}

proof fn lemma_unique_values(
    p: Seq<char>,
    a: NodeView,
    b: NodeView,
    fa: Seq<char>,
    fb: Seq<char>,
    so: bool,
)
    requires
        sep_wf(a),
        sep_wf(b),
        p.len() > 0,
    ensures
        keys_unique(key_diffs_values(p, a, b, fa, fb, so)),
        all_ext(p, key_diffs_values(p, a, b, fa, fb, so)),
    decreases a, b, 3int, 0int,
{
    let from_objects = if a is Object && b is Object {
        key_diffs_obj(p, a->Object_0, b->Object_0, fa, fb, so)
    } else {
        Seq::empty()
    };
    let from_arrays = if so && a is Array && b is Array && a->Array_0.len() == b->Array_0.len() {
        key_diffs_arr(p, a->Array_0, b->Array_0, fa, fb, so, 0)
    } else {
        Seq::empty()
    };
    if a is Object && b is Object {
        assert(a == NodeView::Object(a->Object_0));
        assert(b == NodeView::Object(b->Object_0));
        lemma_unique_obj(p, a->Object_0, b->Object_0, fa, fb, so);
    }
    if so && a is Array && b is Array && a->Array_0.len() == b->Array_0.len() {
        assert(a == NodeView::Array(a->Array_0));
        assert(b == NodeView::Array(b->Array_0));
        lemma_unique_arr(p, a->Array_0, b->Array_0, fa, fb, so, 0);
    }
    assert forall|x: int| 0 <= x < from_objects.len() implies ext_of(
        p,
        (#[trigger] from_objects[x]).key,
    ) && from_objects[x].key[p.len() as int] == '.' by {
        assert(some_key(p, from_objects[x].key));
        let k = choose|k: Seq<char>| sep_free_key(k) && #[trigger] from_key(
            p,
            k,
            from_objects[x].key,
        );
        lemma_from_key_ext(p, k, from_objects[x].key);
    }
    assert forall|x: int| 0 <= x < from_arrays.len() implies ext_of(
        p,
        (#[trigger] from_arrays[x]).key,
    ) && from_arrays[x].key[p.len() as int] == '[' by {
        assert(some_index(p, 0, a->Array_0.len() as int, from_arrays[x].key));
        let j = choose|j: nat| 0 <= j && #[trigger] from_index(p, j, from_arrays[x].key);
        lemma_from_index_ext(p, j, from_arrays[x].key);
    }
    lemma_unique_concat(from_objects, from_arrays);
    let whole = from_objects + from_arrays;
    assert forall|x: int| 0 <= x < whole.len() implies ext_of(p, (#[trigger] whole[x]).key) by {
        if x < from_objects.len() {
            assert(whole[x] == from_objects[x]);
        } else {
            assert(whole[x] == from_arrays[x - from_objects.len()]);
        }
    }
    assert(key_diffs_values(p, a, b, fa, fb, so) == whole);
}

proof fn lemma_unique_obj(
    p: Seq<char>,
    ae: Seq<(Seq<char>, NodeView)>,
    be: Seq<(Seq<char>, NodeView)>,
    fa: Seq<char>,
    fb: Seq<char>,
    so: bool,
)
    requires
        sep_wf(NodeView::Object(ae)),
        sep_wf(NodeView::Object(be)),
    ensures
        keys_unique(key_diffs_obj(p, ae, be, fa, fb, so)),
        all_from_keys(p, key_diffs_obj(p, ae, be, fa, fb, so)),
    decreases ae, be, 2int, 0int,
{
    let part_a = key_diffs_obj_a(p, ae, be, fa, fb, so, 0);
    let part_b = key_diffs_obj_b(p, ae, be, fa, fb, 0);
    lemma_unique_obj_a(p, ae, be, fa, fb, so, 0);
    lemma_unique_obj_b(p, ae, be, fa, fb, 0);
    assert forall|x: int, y: int|
        0 <= x < part_a.len() && 0 <= y < part_b.len() implies (#[trigger] part_a[x]).key != (
    #[trigger] part_b[y]).key by {
        let j = choose|j: int| #![auto]
            0 <= j < ae.len() && from_key(p, ae[j].0, part_a[x].key);
        let j2 = choose|j2: int| #![auto]
            0 <= j2 < be.len() && !obj_has(ae, be[j2].0) && from_key(p, be[j2].0, part_b[y].key);
        assert(sep_wf(NodeView::Object(ae)));
        assert((NodeView::Object(ae))->Object_0 == ae);
        assert(sep_free_key(ae[j].0));
        assert(sep_wf(NodeView::Object(be)));
        assert((NodeView::Object(be))->Object_0 == be);
        assert(sep_free_key(be[j2].0));
        if ae[j].0 == be[j2].0 {
            crate::node::lemma_obj_index_of(ae, be[j2].0);
            if !obj_has(ae, be[j2].0) {
                assert(ae[j].0 != be[j2].0);
            }
        } else {
            lemma_from_key_distinct(p, ae[j].0, be[j2].0, part_a[x].key, part_b[y].key);
        }
    }
    lemma_unique_concat(part_a, part_b);
    let whole = part_a + part_b;
    assert forall|x: int| 0 <= x < whole.len() implies some_key(p, (#[trigger] whole[x]).key) by {
        assert(sep_wf(NodeView::Object(ae)));
        assert((NodeView::Object(ae))->Object_0 == ae);
        assert(sep_wf(NodeView::Object(be)));
        assert((NodeView::Object(be))->Object_0 == be);
        if x < part_a.len() {
            assert(whole[x] == part_a[x]);
            let j = choose|j: int| #![auto]
                0 <= j < ae.len() && from_key(p, ae[j].0, part_a[x].key);
            assert(sep_free_key(ae[j].0) && from_key(p, ae[j].0, whole[x].key));
        } else {
            assert(whole[x] == part_b[x - part_a.len()]);
            let j2 = choose|j2: int| #![auto]
                0 <= j2 < be.len() && !obj_has(ae, be[j2].0) && from_key(
                    p,
                    be[j2].0,
                    whole[x].key,
                );
            assert(sep_free_key(be[j2].0) && from_key(p, be[j2].0, whole[x].key));
        }
    }
    assert(all_from_keys(p, whole));
    assert(key_diffs_obj(p, ae, be, fa, fb, so) == whole);
    assert(all_from_keys(p, key_diffs_obj(p, ae, be, fa, fb, so)));
}

proof fn lemma_unique_obj_a(
    p: Seq<char>,
    ae: Seq<(Seq<char>, NodeView)>,
    be: Seq<(Seq<char>, NodeView)>,
    fa: Seq<char>,
    fb: Seq<char>,
    so: bool,
    i: int,
)
    requires
        sep_wf(NodeView::Object(ae)),
        sep_wf(NodeView::Object(be)),
        0 <= i,
    ensures
        keys_unique(key_diffs_obj_a(p, ae, be, fa, fb, so, i)),
        forall|x: int|
            0 <= x < key_diffs_obj_a(p, ae, be, fa, fb, so, i).len() ==> exists|j: int| #![auto]
                i <= j < ae.len() && from_key(
                    p,
                    ae[j].0,
                    (#[trigger] key_diffs_obj_a(p, ae, be, fa, fb, so, i)[x]).key,
                ),
    decreases ae, be, 1int, ae.len() - i,
{
    assert(sep_wf(NodeView::Object(ae)));
    assert((NodeView::Object(ae))->Object_0 == ae);
    assert(sep_wf(NodeView::Object(be)));
    assert((NodeView::Object(be))->Object_0 == be);
    if 0 <= i < ae.len() {
        let k = ae[i].0;
        let child = crate::text::key_path(p, k);
        assert(sep_free_key(k));
        assert(child.len() > 0);
        let head = if obj_has(be, k) {
            key_diffs_values(child, ae[i].1, obj_get1(be, k), fa, fb, so)
        } else {
            seq![crate::diff_types::KeyDiffV { key: child, has: fa, misses: fb }]
        };
        if obj_has(be, k) {
            crate::node::lemma_obj_index_of(be, k);
            let idx = crate::node::obj_index_of(be, k);
            assert(sep_wf(ae[i as int].1));
            assert(sep_wf(be[idx].1));
            lemma_unique_values(child, ae[i].1, obj_get1(be, k), fa, fb, so);
            assert forall|x: int| 0 <= x < head.len() implies from_key(
                p,
                k,
                (#[trigger] head[x]).key,
            ) by {
                assert(ext_of(child, head[x].key));
                lemma_from_key_deeper(p, k, head[x].key);
            }
        } else {
            lemma_from_key_exact(p, k);
            assert(from_key(p, k, head[0].key));
        }
        lemma_unique_obj_a(p, ae, be, fa, fb, so, i + 1);
        let tail = key_diffs_obj_a(p, ae, be, fa, fb, so, i + 1);
        assert forall|x: int, y: int|
            0 <= x < head.len() && 0 <= y < tail.len() implies (#[trigger] head[x]).key != (
        #[trigger] tail[y]).key by {
            let j = choose|j: int| #![auto]
                i + 1 <= j < ae.len() && from_key(p, ae[j].0, tail[y].key);
            assert(sep_free_key(ae[j].0));
            assert(ae[i as int].0 != ae[j].0);
            lemma_from_key_distinct(p, k, ae[j].0, head[x].key, tail[y].key);
        }
        lemma_unique_concat(head, tail);
        let whole = head + tail;
        assert forall|x: int| 0 <= x < whole.len() implies exists|j: int| #![auto]
            i <= j < ae.len() && from_key(p, ae[j].0, (#[trigger] whole[x]).key) by {
            if x < head.len() {
                assert(whole[x] == head[x]);
                assert(from_key(p, ae[i as int].0, whole[x].key));
            } else {
                assert(whole[x] == tail[x - head.len()]);
                let j = choose|j: int| #![auto]
                    i + 1 <= j < ae.len() && from_key(p, ae[j].0, tail[x - head.len()].key);
                assert(from_key(p, ae[j].0, whole[x].key));
            }
        }
        assert(key_diffs_obj_a(p, ae, be, fa, fb, so, i) == whole);
        assert forall|x: int|
            0 <= x < key_diffs_obj_a(p, ae, be, fa, fb, so, i).len() implies exists|j: int| #![auto]
            i <= j < ae.len() && from_key(
                p,
                ae[j].0,
                (#[trigger] key_diffs_obj_a(p, ae, be, fa, fb, so, i)[x]).key,
            ) by {
            assert(key_diffs_obj_a(p, ae, be, fa, fb, so, i)[x] == whole[x]);
            let j = choose|j: int| #![auto] i <= j < ae.len() && from_key(p, ae[j].0, whole[x].key);
            assert(from_key(p, ae[j].0, key_diffs_obj_a(p, ae, be, fa, fb, so, i)[x].key));
        }
    }
}

proof fn lemma_unique_obj_b(
    p: Seq<char>,
    ae: Seq<(Seq<char>, NodeView)>,
    be: Seq<(Seq<char>, NodeView)>,
    fa: Seq<char>,
    fb: Seq<char>,
    j: int,
)
    requires
        sep_wf(NodeView::Object(ae)),
        sep_wf(NodeView::Object(be)),
        0 <= j,
    ensures
        keys_unique(key_diffs_obj_b(p, ae, be, fa, fb, j)),
        forall|x: int|
            0 <= x < key_diffs_obj_b(p, ae, be, fa, fb, j).len() ==> exists|j2: int| #![auto]
                j <= j2 < be.len() && !obj_has(ae, be[j2].0) && from_key(
                    p,
                    be[j2].0,
                    (#[trigger] key_diffs_obj_b(p, ae, be, fa, fb, j)[x]).key,
                ),
    decreases be.len() - j,
{
    assert(sep_wf(NodeView::Object(be)));
    assert((NodeView::Object(be))->Object_0 == be);
    if 0 <= j < be.len() {
        let head = if !obj_has(ae, be[j].0) {
            seq![
                crate::diff_types::KeyDiffV {
                    key: crate::text::key_path(p, be[j].0),
                    has: fb,
                    misses: fa,
                },
            ]
        } else {
            Seq::<crate::diff_types::KeyDiffV>::empty()
        };
        if !obj_has(ae, be[j].0) {
            lemma_from_key_exact(p, be[j].0);
        }
        lemma_unique_obj_b(p, ae, be, fa, fb, j + 1);
        let tail = key_diffs_obj_b(p, ae, be, fa, fb, j + 1);
        assert forall|x: int, y: int|
            0 <= x < head.len() && 0 <= y < tail.len() implies (#[trigger] head[x]).key != (
        #[trigger] tail[y]).key by {
            let j2 = choose|j2: int| #![auto]
                j + 1 <= j2 < be.len() && !obj_has(ae, be[j2].0) && from_key(
                    p,
                    be[j2].0,
                    tail[y].key,
                );
            assert(sep_free_key(be[j as int].0));
            assert(sep_free_key(be[j2].0));
            assert(be[j as int].0 != be[j2].0);
            lemma_from_key_distinct(p, be[j as int].0, be[j2].0, head[x].key, tail[y].key);
        }
        lemma_unique_concat(head, tail);
        let whole = head + tail;
        assert forall|x: int| 0 <= x < whole.len() implies exists|j2: int| #![auto]
            j <= j2 < be.len() && !obj_has(ae, be[j2].0) && from_key(
                p,
                be[j2].0,
                (#[trigger] whole[x]).key,
            ) by {
            if x < head.len() {
                assert(whole[x] == head[x]);
                assert(from_key(p, be[j as int].0, whole[x].key));
            } else {
                assert(whole[x] == tail[x - head.len()]);
                let j2 = choose|j2: int| #![auto]
                    j + 1 <= j2 < be.len() && !obj_has(ae, be[j2].0) && from_key(
                        p,
                        be[j2].0,
                        tail[x - head.len()].key,
                    );
                assert(from_key(p, be[j2].0, whole[x].key));
            }
        }
        assert(key_diffs_obj_b(p, ae, be, fa, fb, j) == whole);
        assert forall|x: int|
            0 <= x < key_diffs_obj_b(p, ae, be, fa, fb, j).len() implies exists|j2: int| #![auto]
            j <= j2 < be.len() && !obj_has(ae, be[j2].0) && from_key(
                p,
                be[j2].0,
                (#[trigger] key_diffs_obj_b(p, ae, be, fa, fb, j)[x]).key,
            ) by {
            assert(key_diffs_obj_b(p, ae, be, fa, fb, j)[x] == whole[x]);
            let j2 = choose|j2: int| #![auto]
                j <= j2 < be.len() && !obj_has(ae, be[j2].0) && from_key(
                    p,
                    be[j2].0,
                    whole[x].key,
                );
            assert(from_key(p, be[j2].0, key_diffs_obj_b(p, ae, be, fa, fb, j)[x].key));
        }
    }
}

/// Some index in the given range names this path.
pub open spec fn some_index(p: Seq<char>, lo: int, hi: int, q: Seq<char>) -> bool {
    exists|j: nat| lo <= j < hi && #[trigger] from_index(p, j, q)
}

proof fn lemma_unique_arr(
    p: Seq<char>,
    ai: Seq<NodeView>,
    bi: Seq<NodeView>,
    fa: Seq<char>,
    fb: Seq<char>,
    so: bool,
    i: int,
)
    requires
        sep_wf(NodeView::Array(ai)),
        sep_wf(NodeView::Array(bi)),
        ai.len() == bi.len(),
        0 <= i,
    ensures
        keys_unique(key_diffs_arr(p, ai, bi, fa, fb, so, i)),
        forall|x: int|
            0 <= x < key_diffs_arr(p, ai, bi, fa, fb, so, i).len() ==> some_index(
                p,
                i,
                ai.len() as int,
                (#[trigger] key_diffs_arr(p, ai, bi, fa, fb, so, i)[x]).key,
            ),
    decreases ai, bi, 2int, ai.len() - i,
{
    assert(sep_wf(NodeView::Array(ai)));
    assert((NodeView::Array(ai))->Array_0 == ai);
    assert(sep_wf(NodeView::Array(bi)));
    assert((NodeView::Array(bi))->Array_0 == bi);
    if 0 <= i < ai.len() {
        let child = index_path(p, i as nat);
        reveal_strlit("[");
        reveal_strlit("]");
        assert(child.len() > 0);
        assert(sep_wf(ai[i as int]));
        assert(sep_wf(bi[i as int]));
        lemma_unique_values(child, ai[i], bi[i], fa, fb, so);
        let head = key_diffs_values(child, ai[i], bi[i], fa, fb, so);
        assert forall|x: int| 0 <= x < head.len() implies from_index(
            p,
            i as nat,
            (#[trigger] head[x]).key,
        ) by {
            assert(ext_of(child, head[x].key));
            lemma_from_index_deeper(p, i as nat, head[x].key);
        }
        lemma_unique_arr(p, ai, bi, fa, fb, so, i + 1);
        let tail = key_diffs_arr(p, ai, bi, fa, fb, so, i + 1);
        assert forall|x: int, y: int|
            0 <= x < head.len() && 0 <= y < tail.len() implies (#[trigger] head[x]).key != (
        #[trigger] tail[y]).key by {
            assert(some_index(p, i + 1, ai.len() as int, tail[y].key));
            let j = choose|j: nat| i + 1 <= j < ai.len() && #[trigger] from_index(
                p,
                j,
                tail[y].key,
            );
            lemma_from_index_distinct(p, i as nat, j, head[x].key, tail[y].key);
        }
        lemma_unique_concat(head, tail);
        let whole = head + tail;
        assert forall|x: int| 0 <= x < whole.len() implies some_index(
            p,
            i,
            ai.len() as int,
            (#[trigger] whole[x]).key,
        ) by {
            if x < head.len() {
                assert(whole[x] == head[x]);
                assert(from_index(p, i as nat, whole[x].key));
            } else {
                assert(whole[x] == tail[x - head.len()]);
                assert(some_index(p, i + 1, ai.len() as int, tail[x - head.len()].key));
                let j = choose|j: nat| i + 1 <= j < ai.len() && #[trigger] from_index(
                    p,
                    j,
                    tail[x - head.len()].key,
                );
                assert(from_index(p, j, whole[x].key));
            }
        }
        assert(key_diffs_arr(p, ai, bi, fa, fb, so, i) == whole);
        assert forall|x: int|
            0 <= x < key_diffs_arr(p, ai, bi, fa, fb, so, i).len() implies some_index(
            p,
            i,
            ai.len() as int,
            (#[trigger] key_diffs_arr(p, ai, bi, fa, fb, so, i)[x]).key,
        ) by {
            assert(key_diffs_arr(p, ai, bi, fa, fb, so, i)[x] == whole[x]);
        }
    }
}

/// Within one comparison of documents whose keys are non-empty and free of
/// separator characters, no two key diffs share a path: at any one path
/// there is at most one record.
pub proof fn law_key_diff_path_uniqueness(
    path: Seq<char>,
    ae: Seq<(Seq<char>, NodeView)>,
    be: Seq<(Seq<char>, NodeView)>,
    fa: Seq<char>,
    fb: Seq<char>,
    so: bool,
)
    requires
        sep_wf(NodeView::Object(ae)),
        sep_wf(NodeView::Object(be)),
    ensures
        keys_unique(key_diffs_obj(path, ae, be, fa, fb, so)),
{
    lemma_unique_obj(path, ae, be, fa, fb, so);
}

} // verus!

verus! {

/// Antisymmetry at one path, document-level: a key diff at path `p` naming
/// one side as present comes out of the swapped comparison unchanged, and is
/// the only record the swapped comparison holds at `p` — for documents whose
/// keys are non-empty and free of separator characters.
pub proof fn law_key_diff_antisymmetry_at_path(
    path: Seq<char>,
    ae: Seq<(Seq<char>, NodeView)>,
    be: Seq<(Seq<char>, NodeView)>,
    fa: Seq<char>,
    fb: Seq<char>,
    so: bool,
    kd: crate::diff_types::KeyDiffV,
    kd2: crate::diff_types::KeyDiffV,
)
    requires
        sep_wf(NodeView::Object(ae)),
        sep_wf(NodeView::Object(be)),
        key_diffs_obj(path, ae, be, fa, fb, so).contains(kd),
        key_diffs_obj(path, be, ae, fb, fa, so).contains(kd2),
        kd2.key == kd.key,
    ensures
        key_diffs_obj(path, be, ae, fb, fa, so).contains(kd),
        kd2 == kd,
{
    lemma_sep_wf_view_wf(NodeView::Object(ae));
    lemma_sep_wf_view_wf(NodeView::Object(be));
    law_key_diff_antisymmetry(path, ae, be, fa, fb, so, kd);
    law_key_diff_path_uniqueness(path, be, ae, fb, fa, so);
    let swapped = key_diffs_obj(path, be, ae, fb, fa, so);
    let x = choose|x: int| 0 <= x < swapped.len() && swapped[x] == kd;
    let y = choose|y: int| 0 <= y < swapped.len() && swapped[y] == kd2;
    if x != y {
        assert(swapped[x].key != swapped[y].key);
    }
}

/// A tree whose objects carry unique keys is well-formed whenever its keys
/// are also separator-free: the stronger shape implies the weaker.
proof fn lemma_sep_wf_view_wf(v: NodeView)
    requires
        sep_wf(v),
    ensures
        view_wf(v),
    decreases v,
{
    match v {
        NodeView::Array(items) => {
            assert forall|i: int| 0 <= i < items.len() implies view_wf(#[trigger] items[i]) by {
                lemma_sep_wf_view_wf(items[i]);
            }
        },
        NodeView::Object(entries) => {
            assert forall|i: int| 0 <= i < entries.len() implies view_wf(
                #[trigger] entries[i].1,
            ) by {
                lemma_sep_wf_view_wf(entries[i].1);
            }
        },
        _ => {},
    }
}

} // verus!

verus! {

/// Some index names this path below `p`.
pub open spec fn any_index(p: Seq<char>, q: Seq<char>) -> bool {
    exists|n: nat| #[trigger] from_index(p, n, q)
}

/// Where a walk that starts at `q` can put a record: at `q` itself, or
/// below one of the keys or indices that extend it.
pub open spec fn reached_from(q: Seq<char>, p: Seq<char>) -> bool {
    p == q || some_key(q, p) || any_index(q, p)
}

/// A path below a child key is a path below that key's parent.
proof fn lemma_reach_through_key(p0: Seq<char>, k: Seq<char>, p: Seq<char>)
    requires
        sep_free_key(k),
        reached_from(crate::text::key_path(p0, k), p),
    ensures
        from_key(p0, k, p),
{
    reveal_strlit(".");
    reveal_strlit("[");
    reveal_strlit("]");
    let child = crate::text::key_path(p0, k);
    if p == child {
        lemma_from_key_exact(p0, k);
    } else if some_key(child, p) {
        let k2 = choose|k2: Seq<char>| sep_free_key(k2) && #[trigger] from_key(child, k2, p);
        let t2 = choose|t: Seq<char>| rel_ok(t) && p == crate::text::key_path(child, k2) + t;
        assert(crate::text::key_path(child, k2) == child + "."@ + k2);
        let rest = "."@ + k2 + t2;
        assert(p =~= child + rest);
        assert(rest[0] == '.');
        assert(rel_ok(rest) && p == child + rest);
    } else {
        let n = choose|n: nat| #[trigger] from_index(child, n, p);
        let t2 = choose|t: Seq<char>| rel_ok(t) && p == index_path(child, n) + t;
        assert(index_path(child, n) == child + "["@ + crate::text::dec_digits(n) + "]"@);
        let rest = "["@ + crate::text::dec_digits(n) + "]"@ + t2;
        assert(p =~= child + rest);
        assert(rest[0] == '[');
        assert(rel_ok(rest) && p == child + rest);
    }
}

/// A path below a child index is a path below that index's parent.
proof fn lemma_reach_through_index(p0: Seq<char>, n: nat, p: Seq<char>)
    requires
        reached_from(index_path(p0, n), p),
    ensures
        from_index(p0, n, p),
{
    reveal_strlit(".");
    reveal_strlit("[");
    reveal_strlit("]");
    let child = index_path(p0, n);
    if p == child {
        let t = Seq::<char>::empty();
        assert(child + t =~= child);
        assert(rel_ok(t) && p == child + t);
    } else if some_key(child, p) {
        let k2 = choose|k2: Seq<char>| sep_free_key(k2) && #[trigger] from_key(child, k2, p);
        let t2 = choose|t: Seq<char>| rel_ok(t) && p == crate::text::key_path(child, k2) + t;
        assert(child.len() > 0);
        assert(crate::text::key_path(child, k2) == child + "."@ + k2);
        let rest = "."@ + k2 + t2;
        assert(p =~= child + rest);
        assert(rest[0] == '.');
        assert(rel_ok(rest) && p == child + rest);
    } else {
        let n2 = choose|n2: nat| #[trigger] from_index(child, n2, p);
        let t2 = choose|t: Seq<char>| rel_ok(t) && p == index_path(child, n2) + t;
        assert(index_path(child, n2) == child + "["@ + crate::text::dec_digits(n2) + "]"@);
        let rest = "["@ + crate::text::dec_digits(n2) + "]"@ + t2;
        assert(p =~= child + rest);
        assert(rest[0] == '[');
        assert(rel_ok(rest) && p == child + rest);
    }
}

/// Every path a comparison of path-unambiguous documents visits is the
/// starting path or lies below one of its keys or indices.
proof fn lemma_pair_at_shape(
    q: Seq<char>,
    a: NodeView,
    b: NodeView,
    so: bool,
    p: Seq<char>,
    ta: NodeView,
    tb: NodeView,
)
    requires
        sep_wf(a),
        sep_wf(b),
        pair_at(q, a, b, so, p, ta, tb),
    ensures
        reached_from(q, p),
    decreases a, b, 3int, 0int,
{
    if p == q && ta == a && tb == b {
    } else if a is Object && b is Object && exists|i: int, j: int|
        0 <= i < a->Object_0.len() && 0 <= j < b->Object_0.len() && (#[trigger] b->Object_0[j]).0
            == (#[trigger] a->Object_0[i]).0 && pair_at(
            crate::text::key_path(q, a->Object_0[i].0),
            a->Object_0[i].1,
            b->Object_0[j].1,
            so,
            p,
            ta,
            tb,
        ) {
        let (i, j) = choose|i: int, j: int|
            0 <= i < a->Object_0.len() && 0 <= j < b->Object_0.len() && (#[trigger] b->Object_0[
                j
            ]).0 == (#[trigger] a->Object_0[i]).0 && pair_at(
                crate::text::key_path(q, a->Object_0[i].0),
                a->Object_0[i].1,
                b->Object_0[j].1,
                so,
                p,
                ta,
                tb,
            );
        let ae = a->Object_0;
        let be = b->Object_0;
        assert(a == NodeView::Object(ae));
        assert(b == NodeView::Object(be));
        assert(sep_free_key(ae[i].0));
        assert(sep_wf(ae[i].1));
        assert(sep_wf(be[j].1));
        lemma_pair_at_shape(
            crate::text::key_path(q, ae[i].0),
            ae[i].1,
            be[j].1,
            so,
            p,
            ta,
            tb,
        );
        lemma_reach_through_key(q, ae[i].0, p);
        assert(some_key(q, p));
    } else {
        let i = choose|i: int|
            0 <= i < a->Array_0.len() && pair_at(
                index_path(q, i as nat),
                #[trigger] a->Array_0[i],
                b->Array_0[i],
                so,
                p,
                ta,
                tb,
            );
        let ai = a->Array_0;
        let bi = b->Array_0;
        assert(a == NodeView::Array(ai));
        assert(b == NodeView::Array(bi));
        assert(sep_wf(ai[i]));
        assert(sep_wf(bi[i]));
        lemma_pair_at_shape(index_path(q, i as nat), ai[i], bi[i], so, p, ta, tb);
        lemma_reach_through_index(q, i as nat, p);
        assert(any_index(q, p));
    }
}

} // verus!

verus! {

/// A path below a separator-free key is strictly longer than its prefix.
proof fn lemma_from_key_longer(p0: Seq<char>, k: Seq<char>, q: Seq<char>)
    requires
        sep_free_key(k),
        from_key(p0, k, q),
    ensures
        q.len() > p0.len(),
{
    reveal_strlit(".");
    let t = choose|t: Seq<char>| rel_ok(t) && q == crate::text::key_path(p0, k) + t;
    assert(q.len() == crate::text::key_path(p0, k).len() + t.len());
}

/// A path below an index is strictly longer than its prefix.
proof fn lemma_from_index_longer(p0: Seq<char>, n: nat, q: Seq<char>)
    requires
        from_index(p0, n, q),
    ensures
        q.len() > p0.len(),
{
    reveal_strlit("[");
    reveal_strlit("]");
    let t = choose|t: Seq<char>| rel_ok(t) && q == index_path(p0, n) + t;
    assert(crate::text::dec_digits(n).len() >= 1);
    assert(q.len() == index_path(p0, n).len() + t.len());
    assert(index_path(p0, n).len() == p0.len() + 2 + crate::text::dec_digits(n).len());
}

/// A path below a key and a path below an index never coincide.
proof fn lemma_key_index_paths_differ(
    p0: Seq<char>,
    k: Seq<char>,
    n: nat,
    q1: Seq<char>,
    q2: Seq<char>,
)
    requires
        sep_free_key(k),
        from_key(p0, k, q1),
        from_index(p0, n, q2),
    ensures
        q1 != q2,
{
    reveal_strlit(".");
    reveal_strlit("[");
    reveal_strlit("]");
    if q1 == q2 {
        lemma_from_index_ext(p0, n, q2);
        if p0.len() == 0 {
            let t = choose|t: Seq<char>| rel_ok(t) && q1 == crate::text::key_path(p0, k) + t;
            assert(q1 == k + t);
            assert(q1[0] == k[0]);
            assert(k[0] != '[');
        } else {
            lemma_from_key_ext(p0, k, q1);
        }
    }
}

/// At most one pair of values stands at any one path a comparison of
/// path-unambiguous documents visits.
proof fn lemma_pair_at_unique(
    q: Seq<char>,
    a: NodeView,
    b: NodeView,
    so: bool,
    p: Seq<char>,
    t1a: NodeView,
    t1b: NodeView,
    t2a: NodeView,
    t2b: NodeView,
)
    requires
        sep_wf(a),
        sep_wf(b),
        pair_at(q, a, b, so, p, t1a, t1b),
        pair_at(q, a, b, so, p, t2a, t2b),
    ensures
        t1a == t2a,
        t1b == t2b,
    decreases a, b, 3int, 0int,
{
    let ae = a->Object_0;
    let be = b->Object_0;
    let ai = a->Array_0;
    let bi = b->Array_0;
    if a is Object && b is Object {
        assert(a == NodeView::Object(ae));
        assert(b == NodeView::Object(be));
    }
    if a is Array && b is Array {
        assert(a == NodeView::Array(ai));
        assert(b == NodeView::Array(bi));
    }
    if p == q {
        // Only the starting pair itself can stand at the starting path: any
        // child location lies strictly below it.
        assert forall|ta: NodeView, tb: NodeView|
            pair_at(q, a, b, so, p, ta, tb) implies ta == a && tb == b by {
            if !(p == q && ta == a && tb == b) {
                if a is Object && b is Object && exists|i: int, j: int|
                    0 <= i < ae.len() && 0 <= j < be.len() && (#[trigger] be[j]).0 == (
                    #[trigger] ae[i]).0 && pair_at(
                        crate::text::key_path(q, ae[i].0),
                        ae[i].1,
                        be[j].1,
                        so,
                        p,
                        ta,
                        tb,
                    ) {
                    let (i, j) = choose|i: int, j: int|
                        0 <= i < ae.len() && 0 <= j < be.len() && (#[trigger] be[j]).0 == (
                        #[trigger] ae[i]).0 && pair_at(
                            crate::text::key_path(q, ae[i].0),
                            ae[i].1,
                            be[j].1,
                            so,
                            p,
                            ta,
                            tb,
                        );
                    assert(sep_free_key(ae[i].0) && sep_wf(ae[i].1) && sep_wf(be[j].1));
                    lemma_pair_at_shape(
                        crate::text::key_path(q, ae[i].0),
                        ae[i].1,
                        be[j].1,
                        so,
                        p,
                        ta,
                        tb,
                    );
                    lemma_reach_through_key(q, ae[i].0, p);
                    lemma_from_key_longer(q, ae[i].0, p);
                } else {
                    let i = choose|i: int|
                        0 <= i < ai.len() && pair_at(
                            index_path(q, i as nat),
                            #[trigger] ai[i],
                            bi[i],
                            so,
                            p,
                            ta,
                            tb,
                        );
                    assert(sep_wf(ai[i]) && sep_wf(bi[i]));
                    lemma_pair_at_shape(index_path(q, i as nat), ai[i], bi[i], so, p, ta, tb);
                    lemma_reach_through_index(q, i as nat, p);
                    lemma_from_index_longer(q, i as nat, p);
                }
            }
        }
    } else {
        // Both facts go through a child. Work out which child each one
        // names; unambiguous paths force the same one.
        let child_key_1 = a is Object && b is Object && exists|i: int, j: int|
            0 <= i < ae.len() && 0 <= j < be.len() && (#[trigger] be[j]).0 == (#[trigger] ae[
                i
            ]).0 && pair_at(
                crate::text::key_path(q, ae[i].0),
                ae[i].1,
                be[j].1,
                so,
                p,
                t1a,
                t1b,
            );
        let child_key_2 = a is Object && b is Object && exists|i: int, j: int|
            0 <= i < ae.len() && 0 <= j < be.len() && (#[trigger] be[j]).0 == (#[trigger] ae[
                i
            ]).0 && pair_at(
                crate::text::key_path(q, ae[i].0),
                ae[i].1,
                be[j].1,
                so,
                p,
                t2a,
                t2b,
            );
        if child_key_1 {
            let (i1, j1) = choose|i: int, j: int|
                0 <= i < ae.len() && 0 <= j < be.len() && (#[trigger] be[j]).0 == (#[trigger] ae[
                    i
                ]).0 && pair_at(
                    crate::text::key_path(q, ae[i].0),
                    ae[i].1,
                    be[j].1,
                    so,
                    p,
                    t1a,
                    t1b,
                );
            assert(sep_free_key(ae[i1].0) && sep_wf(ae[i1].1) && sep_wf(be[j1].1));
            lemma_pair_at_shape(
                crate::text::key_path(q, ae[i1].0),
                ae[i1].1,
                be[j1].1,
                so,
                p,
                t1a,
                t1b,
            );
            lemma_reach_through_key(q, ae[i1].0, p);
            assert(child_key_2) by {
                if !child_key_2 {
                    let i = choose|i: int|
                        0 <= i < ai.len() && pair_at(
                            index_path(q, i as nat),
                            #[trigger] ai[i],
                            bi[i],
                            so,
                            p,
                            t2a,
                            t2b,
                        );
                    assert(sep_wf(ai[i]) && sep_wf(bi[i]));
                    lemma_pair_at_shape(index_path(q, i as nat), ai[i], bi[i], so, p, t2a, t2b);
                    lemma_reach_through_index(q, i as nat, p);
                    lemma_key_index_paths_differ(q, ae[i1].0, i as nat, p, p);
                }
            }
            let (i2, j2) = choose|i: int, j: int|
                0 <= i < ae.len() && 0 <= j < be.len() && (#[trigger] be[j]).0 == (#[trigger] ae[
                    i
                ]).0 && pair_at(
                    crate::text::key_path(q, ae[i].0),
                    ae[i].1,
                    be[j].1,
                    so,
                    p,
                    t2a,
                    t2b,
                );
            assert(sep_free_key(ae[i2].0) && sep_wf(ae[i2].1) && sep_wf(be[j2].1));
            lemma_pair_at_shape(
                crate::text::key_path(q, ae[i2].0),
                ae[i2].1,
                be[j2].1,
                so,
                p,
                t2a,
                t2b,
            );
            lemma_reach_through_key(q, ae[i2].0, p);
            if ae[i1].0 != ae[i2].0 {
                lemma_from_key_distinct(q, ae[i1].0, ae[i2].0, p, p);
            }
            assert(ae[i1].0 == ae[i2].0);
            if i1 != i2 {
                assert(ae[i1].0 != ae[i2].0);
            }
            if j1 != j2 {
                assert(be[j1].0 != be[j2].0);
            }
            lemma_pair_at_unique(
                crate::text::key_path(q, ae[i1].0),
                ae[i1].1,
                be[j1].1,
                so,
                p,
                t1a,
                t1b,
                t2a,
                t2b,
            );
        } else {
            let i1 = choose|i: int|
                0 <= i < ai.len() && pair_at(
                    index_path(q, i as nat),
                    #[trigger] ai[i],
                    bi[i],
                    so,
                    p,
                    t1a,
                    t1b,
                );
            assert(sep_wf(ai[i1]) && sep_wf(bi[i1]));
            lemma_pair_at_shape(index_path(q, i1 as nat), ai[i1], bi[i1], so, p, t1a, t1b);
            lemma_reach_through_index(q, i1 as nat, p);
            assert(!child_key_2) by {
                if child_key_2 {
                    let (i, j) = choose|i: int, j: int|
                        0 <= i < ae.len() && 0 <= j < be.len() && (#[trigger] be[j]).0 == (
                        #[trigger] ae[i]).0 && pair_at(
                            crate::text::key_path(q, ae[i].0),
                            ae[i].1,
                            be[j].1,
                            so,
                            p,
                            t2a,
                            t2b,
                        );
                    assert(sep_free_key(ae[i].0) && sep_wf(ae[i].1) && sep_wf(be[j].1));
                    lemma_pair_at_shape(
                        crate::text::key_path(q, ae[i].0),
                        ae[i].1,
                        be[j].1,
                        so,
                        p,
                        t2a,
                        t2b,
                    );
                    lemma_reach_through_key(q, ae[i].0, p);
                    lemma_key_index_paths_differ(q, ae[i].0, i1 as nat, p, p);
                }
            }
            let i2 = choose|i: int|
                0 <= i < ai.len() && pair_at(
                    index_path(q, i as nat),
                    #[trigger] ai[i],
                    bi[i],
                    so,
                    p,
                    t2a,
                    t2b,
                );
            assert(sep_wf(ai[i2]) && sep_wf(bi[i2]));
            lemma_pair_at_shape(index_path(q, i2 as nat), ai[i2], bi[i2], so, p, t2a, t2b);
            lemma_reach_through_index(q, i2 as nat, p);
            if i1 != i2 {
                lemma_from_index_distinct(q, i1 as nat, i2 as nat, p, p);
            }
            lemma_pair_at_unique(
                index_path(q, i1 as nat),
                ai[i1],
                bi[i1],
                so,
                p,
                t1a,
                t1b,
                t2a,
                t2b,
            );
        }
    }
}

} // verus!

verus! {

/// Whether an array diff record speaks truly of the two documents: at its
/// path both sides hold arrays that the index-wise checkers do not cover.
pub open spec fn array_diff_witnessed(
    p0: Seq<char>,
    a: NodeView,
    b: NodeView,
    so: bool,
    ad: crate::diff_types::ArrayDiffV,
) -> bool {
    exists|xs: Seq<NodeView>, ys: Seq<NodeView>|
        #[trigger] pair_at(p0, a, b, so, ad.key, NodeView::Array(xs), NodeView::Array(ys)) && !(so
            && xs.len() == ys.len())
}

/// Every record an array pair yields carries the pair's own path.
proof fn lemma_array_pair_keys(
    path: Seq<char>,
    x: Seq<NodeView>,
    y: Seq<NodeView>,
    ad: crate::diff_types::ArrayDiffV,
)
    requires
        array_pair_diffs(path, x, y).contains(ad),
    ensures
        ad.key == path,
{
    let rx = renders(x);
    let ry = renders(y);
    let s1 = tag_records(path, crate::diff_types::ArrayDiffDesc::AHas, unmatched_from(rx, ry, 0));
    let s2 = tag_records(
        path,
        crate::diff_types::ArrayDiffDesc::AMisses,
        unmatched_from(ry, rx, 0),
    );
    let s3 = tag_records(path, crate::diff_types::ArrayDiffDesc::BHas, unmatched_from(ry, rx, 0));
    let s4 = tag_records(
        path,
        crate::diff_types::ArrayDiffDesc::BMisses,
        unmatched_from(rx, ry, 0),
    );
    lemma_mem_concat(s1 + s2 + s3, s4, ad);
    lemma_mem_concat(s1 + s2, s3, ad);
    lemma_mem_concat(s1, s2, ad);
}

proof fn lemma_array_sound_values(
    p0: Seq<char>,
    a: NodeView,
    b: NodeView,
    so: bool,
    ad: crate::diff_types::ArrayDiffV,
)
    requires
        array_diffs_values(p0, a, b, so).contains(ad),
    ensures
        array_diff_witnessed(p0, a, b, so, ad),
    decreases a, b, 3int, 0int,
{
    let from_objects = if a is Object && b is Object {
        array_diffs_obj(p0, a->Object_0, b->Object_0, so)
    } else {
        Seq::empty()
    };
    let own = if a is Array && b is Array && !(so && a->Array_0.len() == b->Array_0.len()) {
        array_pair_diffs(p0, a->Array_0, b->Array_0)
    } else {
        Seq::<crate::diff_types::ArrayDiffV>::empty()
    };
    lemma_mem_concat(from_objects, own, ad);
    if own.contains(ad) {
        assert(a == NodeView::Array(a->Array_0));
        assert(b == NodeView::Array(b->Array_0));
        lemma_array_pair_keys(p0, a->Array_0, b->Array_0, ad);
        assert(pair_at(p0, a, b, so, ad.key, NodeView::Array(a->Array_0), NodeView::Array(
            b->Array_0,
        )));
    } else {
        assert(a == NodeView::Object(a->Object_0));
        assert(b == NodeView::Object(b->Object_0));
        lemma_array_sound_obj_a(p0, a->Object_0, b->Object_0, so, 0, ad, a, b);
    }
}

proof fn lemma_array_sound_obj_a(
    p0: Seq<char>,
    ae: Seq<(Seq<char>, NodeView)>,
    be: Seq<(Seq<char>, NodeView)>,
    so: bool,
    i: int,
    ad: crate::diff_types::ArrayDiffV,
    a: NodeView,
    b: NodeView,
)
    requires
        0 <= i,
        array_diffs_obj_a(p0, ae, be, so, i).contains(ad),
        a == NodeView::Object(ae),
        b == NodeView::Object(be),
    ensures
        array_diff_witnessed(p0, a, b, so, ad),
    decreases ae, be, 1int, ae.len() - i,
{
    if i >= ae.len() {
        assert(!Seq::<crate::diff_types::ArrayDiffV>::empty().contains(ad));
    } else {
        let k = ae[i].0;
        let head = if obj_has(be, k) {
            array_diffs_values(crate::text::key_path(p0, k), ae[i].1, obj_get1(be, k), so)
        } else {
            Seq::<crate::diff_types::ArrayDiffV>::empty()
        };
        lemma_mem_concat(head, array_diffs_obj_a(p0, ae, be, so, i + 1), ad);
        if head.contains(ad) {
            crate::node::lemma_obj_index_of(be, k);
            let j = crate::node::obj_index_of(be, k);
            lemma_array_sound_values(crate::text::key_path(p0, k), ae[i].1, be[j].1, so, ad);
            let (xs, ys) = choose|xs: Seq<NodeView>, ys: Seq<NodeView>|
                #[trigger] pair_at(
                    crate::text::key_path(p0, k),
                    ae[i].1,
                    be[j].1,
                    so,
                    ad.key,
                    NodeView::Array(xs),
                    NodeView::Array(ys),
                ) && !(so && xs.len() == ys.len());
            assert(0 <= i < a->Object_0.len() && 0 <= j < b->Object_0.len() && b->Object_0[j].0
                == a->Object_0[i].0 && pair_at(
                crate::text::key_path(p0, a->Object_0[i].0),
                a->Object_0[i].1,
                b->Object_0[j].1,
                so,
                ad.key,
                NodeView::Array(xs),
                NodeView::Array(ys),
            ));
            assert(pair_at(p0, a, b, so, ad.key, NodeView::Array(xs), NodeView::Array(ys)));
        } else {
            lemma_array_sound_obj_a(p0, ae, be, so, i + 1, ad, a, b);
        }
    }
}

/// Every reported array diff is witnessed: at its path both documents hold
/// arrays that the index-wise checkers do not cover.
pub proof fn law_array_diff_soundness(
    path: Seq<char>,
    ae: Seq<(Seq<char>, NodeView)>,
    be: Seq<(Seq<char>, NodeView)>,
    so: bool,
    ad: crate::diff_types::ArrayDiffV,
)
    requires
        array_diffs_obj(path, ae, be, so).contains(ad),
    ensures
        array_diff_witnessed(path, NodeView::Object(ae), NodeView::Object(be), so, ad),
{
    lemma_array_sound_obj_a(path, ae, be, so, 0, ad, NodeView::Object(ae), NodeView::Object(be));
}

/// Wherever a same-order comparison of path-unambiguous documents visits an
/// array pair of equal length, the array checker reports nothing at that
/// pair's path: the index-wise checkers own it. This covers arrays with
/// identical elements and arrays differing at single positions alike.
pub proof fn law_same_order_covered_arrays_no_array_diff(
    path: Seq<char>,
    ae: Seq<(Seq<char>, NodeView)>,
    be: Seq<(Seq<char>, NodeView)>,
    p: Seq<char>,
    xs: Seq<NodeView>,
    ys: Seq<NodeView>,
    ad: crate::diff_types::ArrayDiffV,
)
    requires
        sep_wf(NodeView::Object(ae)),
        sep_wf(NodeView::Object(be)),
        pair_at(path, NodeView::Object(ae), NodeView::Object(be), true, p, NodeView::Array(xs),
            NodeView::Array(ys)),
        xs.len() == ys.len(),
        array_diffs_obj(path, ae, be, true).contains(ad),
    ensures
        ad.key != p,
{
    law_array_diff_soundness(path, ae, be, true, ad);
    let (xs2, ys2) = choose|xs2: Seq<NodeView>, ys2: Seq<NodeView>|
        #[trigger] pair_at(
            path,
            NodeView::Object(ae),
            NodeView::Object(be),
            true,
            ad.key,
            NodeView::Array(xs2),
            NodeView::Array(ys2),
        ) && !(true && xs2.len() == ys2.len());
    if ad.key == p {
        lemma_pair_at_unique(
            path,
            NodeView::Object(ae),
            NodeView::Object(be),
            true,
            p,
            NodeView::Array(xs2),
            NodeView::Array(ys2),
            NodeView::Array(xs),
            NodeView::Array(ys),
        );
    }
}

} // verus!

verus! {

/// Whether a value diff record speaks truly of the two documents: at its
/// path both sides hold scalars of one type whose canonical renderings are
/// the recorded, differing values.
pub open spec fn value_diff_witnessed(
    p0: Seq<char>,
    a: NodeView,
    b: NodeView,
    so: bool,
    vd: ValueDiffV,
) -> bool {
    exists|sa: NodeView, sb: NodeView|
        #[trigger] pair_at(p0, a, b, so, vd.key, sa, sb) && sa.is_scalar() && sb.is_scalar()
            && sa.tag() == sb.tag() && vd.value1 == render_top(sa) && vd.value2 == render_top(sb)
            && render_top(sa) != render_top(sb)
}

proof fn lemma_value_sound_values(p0: Seq<char>, a: NodeView, b: NodeView, so: bool, vd: ValueDiffV)
    requires
        value_diffs_values(p0, a, b, so).contains(vd),
    ensures
        value_diff_witnessed(p0, a, b, so, vd),
    decreases a, b, 3int, 0int,
{
    if a is Object && b is Object {
        assert(a == NodeView::Object(a->Object_0));
        assert(b == NodeView::Object(b->Object_0));
        lemma_value_sound_obj_a(p0, a->Object_0, b->Object_0, so, 0, vd, a, b);
    } else if a is Array && b is Array {
        if so && a->Array_0.len() == b->Array_0.len() {
            assert(a == NodeView::Array(a->Array_0));
            assert(b == NodeView::Array(b->Array_0));
            lemma_value_sound_arr(p0, a->Array_0, b->Array_0, so, 0, vd, a, b);
        } else {
            assert(!Seq::<ValueDiffV>::empty().contains(vd));
        }
    } else if a.is_scalar() && b.is_scalar() && a.tag() == b.tag() && render_top(a) != render_top(
        b,
    ) {
        assert(vd == (ValueDiffV { key: p0, value1: render_top(a), value2: render_top(b) }));
        assert(pair_at(p0, a, b, so, vd.key, a, b));
    } else {
        assert(!Seq::<ValueDiffV>::empty().contains(vd));
    }
}

proof fn lemma_value_sound_obj_a(
    p0: Seq<char>,
    ae: Seq<(Seq<char>, NodeView)>,
    be: Seq<(Seq<char>, NodeView)>,
    so: bool,
    i: int,
    vd: ValueDiffV,
    a: NodeView,
    b: NodeView,
)
    requires
        0 <= i,
        value_diffs_obj_a(p0, ae, be, so, i).contains(vd),
        a == NodeView::Object(ae),
        b == NodeView::Object(be),
    ensures
        value_diff_witnessed(p0, a, b, so, vd),
    decreases ae, be, 1int, ae.len() - i,
{
    if i >= ae.len() {
        assert(!Seq::<ValueDiffV>::empty().contains(vd));
    } else {
        let k = ae[i].0;
        let head = if obj_has(be, k) {
            value_diffs_values(crate::text::key_path(p0, k), ae[i].1, obj_get1(be, k), so)
        } else {
            Seq::<ValueDiffV>::empty()
        };
        lemma_mem_concat(head, value_diffs_obj_a(p0, ae, be, so, i + 1), vd);
        if head.contains(vd) {
            crate::node::lemma_obj_index_of(be, k);
            let j = crate::node::obj_index_of(be, k);
            lemma_value_sound_values(crate::text::key_path(p0, k), ae[i].1, be[j].1, so, vd);
            let (sa, sb) = choose|sa: NodeView, sb: NodeView|
                #[trigger] pair_at(crate::text::key_path(p0, k), ae[i].1, be[j].1, so, vd.key, sa, sb)
                    && sa.is_scalar() && sb.is_scalar() && sa.tag() == sb.tag() && vd.value1
                    == render_top(sa) && vd.value2 == render_top(sb) && render_top(sa)
                    != render_top(sb);
            assert(0 <= i < a->Object_0.len() && 0 <= j < b->Object_0.len() && b->Object_0[j].0
                == a->Object_0[i].0 && pair_at(
                crate::text::key_path(p0, a->Object_0[i].0),
                a->Object_0[i].1,
                b->Object_0[j].1,
                so,
                vd.key,
                sa,
                sb,
            ));
            assert(pair_at(p0, a, b, so, vd.key, sa, sb));
        } else {
            lemma_value_sound_obj_a(p0, ae, be, so, i + 1, vd, a, b);
        }
    }
}

proof fn lemma_value_sound_arr(
    p0: Seq<char>,
    ai: Seq<NodeView>,
    bi: Seq<NodeView>,
    so: bool,
    i: int,
    vd: ValueDiffV,
    a: NodeView,
    b: NodeView,
)
    requires
        0 <= i,
        so,
        ai.len() == bi.len(),
        value_diffs_arr(p0, ai, bi, so, i).contains(vd),
        a == NodeView::Array(ai),
        b == NodeView::Array(bi),
    ensures
        value_diff_witnessed(p0, a, b, so, vd),
    decreases ai, bi, 2int, ai.len() - i,
{
    if i >= ai.len() {
        assert(!Seq::<ValueDiffV>::empty().contains(vd));
    } else {
        let head = value_diffs_values(index_path(p0, i as nat), ai[i], bi[i], so);
        lemma_mem_concat(head, value_diffs_arr(p0, ai, bi, so, i + 1), vd);
        if head.contains(vd) {
            lemma_value_sound_values(index_path(p0, i as nat), ai[i], bi[i], so, vd);
            let (sa, sb) = choose|sa: NodeView, sb: NodeView|
                #[trigger] pair_at(index_path(p0, i as nat), ai[i], bi[i], so, vd.key, sa, sb)
                    && sa.is_scalar() && sb.is_scalar() && sa.tag() == sb.tag() && vd.value1
                    == render_top(sa) && vd.value2 == render_top(sb) && render_top(sa)
                    != render_top(sb);
            assert(0 <= i < a->Array_0.len() && pair_at(
                index_path(p0, i as nat),
                a->Array_0[i],
                b->Array_0[i],
                so,
                vd.key,
                sa,
                sb,
            ));
            assert(pair_at(p0, a, b, so, vd.key, sa, sb));
        } else {
            lemma_value_sound_arr(p0, ai, bi, so, i + 1, vd, a, b);
        }
    }
}

/// Every reported value diff is witnessed: at its path both documents hold
/// scalars of one type, and the record carries exactly their differing
/// canonical renderings. Pairs of differing tags and container pairs yield
/// no value diff.
pub proof fn law_value_diff_soundness(
    path: Seq<char>,
    ae: Seq<(Seq<char>, NodeView)>,
    be: Seq<(Seq<char>, NodeView)>,
    so: bool,
    vd: ValueDiffV,
)
    requires
        value_diffs_obj(path, ae, be, so).contains(vd),
    ensures
        value_diff_witnessed(path, NodeView::Object(ae), NodeView::Object(be), so, vd),
{
    lemma_value_sound_obj_a(path, ae, be, so, 0, vd, NodeView::Object(ae), NodeView::Object(be));
}

/// Wherever a comparison of path-unambiguous documents visits an array
/// pair, the value checker reports nothing at that pair's own path: a
/// difference between arrays is never phrased as a value diff.
pub proof fn law_array_pair_no_value_diff_at_path(
    path: Seq<char>,
    ae: Seq<(Seq<char>, NodeView)>,
    be: Seq<(Seq<char>, NodeView)>,
    so: bool,
    p: Seq<char>,
    xs: Seq<NodeView>,
    ys: Seq<NodeView>,
    vd: ValueDiffV,
)
    requires
        sep_wf(NodeView::Object(ae)),
        sep_wf(NodeView::Object(be)),
        pair_at(path, NodeView::Object(ae), NodeView::Object(be), so, p, NodeView::Array(xs),
            NodeView::Array(ys)),
        value_diffs_obj(path, ae, be, so).contains(vd),
    ensures
        vd.key != p,
{
    law_value_diff_soundness(path, ae, be, so, vd);
    let (sa, sb) = choose|sa: NodeView, sb: NodeView|
        #[trigger] pair_at(path, NodeView::Object(ae), NodeView::Object(be), so, vd.key, sa, sb)
            && sa.is_scalar() && sb.is_scalar() && sa.tag() == sb.tag() && vd.value1 == render_top(
            sa,
        ) && vd.value2 == render_top(sb) && render_top(sa) != render_top(sb);
    if vd.key == p {
        lemma_pair_at_unique(
            path,
            NodeView::Object(ae),
            NodeView::Object(be),
            so,
            p,
            sa,
            sb,
            NodeView::Array(xs),
            NodeView::Array(ys),
        );
    }
}

} // verus!

verus! {

proof fn lemma_value_complete_values(
    p0: Seq<char>,
    a: NodeView,
    b: NodeView,
    so: bool,
    p: Seq<char>,
    ta: NodeView,
    tb: NodeView,
    vd: ValueDiffV,
)
    requires
        sep_wf(a),
        sep_wf(b),
        pair_at(p0, a, b, so, p, ta, tb),
        value_diffs_values(p, ta, tb, so).contains(vd),
    ensures
        value_diffs_values(p0, a, b, so).contains(vd),
    decreases a, b, 3int, 0int,
{
    let ae = a->Object_0;
    let be = b->Object_0;
    let ai = a->Array_0;
    let bi = b->Array_0;
    if p == p0 && ta == a && tb == b {
    } else if a is Object && b is Object && exists|i: int, j: int|
        0 <= i < ae.len() && 0 <= j < be.len() && (#[trigger] be[j]).0 == (#[trigger] ae[i]).0
            && pair_at(crate::text::key_path(p0, ae[i].0), ae[i].1, be[j].1, so, p, ta, tb) {
        let (i, j) = choose|i: int, j: int|
            0 <= i < ae.len() && 0 <= j < be.len() && (#[trigger] be[j]).0 == (#[trigger] ae[
                i
            ]).0 && pair_at(crate::text::key_path(p0, ae[i].0), ae[i].1, be[j].1, so, p, ta, tb);
        assert(a == NodeView::Object(ae));
        assert(b == NodeView::Object(be));
        let k = ae[i].0;
        crate::node::lemma_obj_index_of(be, k);
        let j0 = crate::node::obj_index_of(be, k);
        assert(obj_has(be, k)) by {
            if !obj_has(be, k) {
                assert(be[j].0 != k);
            }
        }
        // With unique keys, the occurrence the witness names is the first
        // one, which is the entry the walk pairs side A's value with.
        if j0 != j {
            assert(be[j0].0 != be[j].0);
        }
        assert(obj_get1(be, k) == be[j].1);
        assert(sep_wf(ae[i].1) && sep_wf(be[j].1));
        lemma_value_complete_values(
            crate::text::key_path(p0, k),
            ae[i].1,
            be[j].1,
            so,
            p,
            ta,
            tb,
            vd,
        );
        lemma_value_include_obj_a(p0, ae, be, so, 0, i, vd);
        assert(value_diffs_values(p0, a, b, so) == value_diffs_obj_a(p0, ae, be, so, 0));
    } else {
        let i = choose|i: int|
            0 <= i < ai.len() && pair_at(
                index_path(p0, i as nat),
                #[trigger] ai[i],
                bi[i],
                so,
                p,
                ta,
                tb,
            );
        assert(a == NodeView::Array(ai));
        assert(b == NodeView::Array(bi));
        assert(sep_wf(ai[i]) && sep_wf(bi[i]));
        lemma_value_complete_values(index_path(p0, i as nat), ai[i], bi[i], so, p, ta, tb, vd);
        lemma_value_include_arr(p0, ai, bi, so, 0, i, vd);
        assert(value_diffs_values(p0, a, b, so) == value_diffs_arr(p0, ai, bi, so, 0));
    }
}

/// A record of the walk at one shared key is a record of the walk over the
/// whole object pair.
proof fn lemma_value_include_obj_a(
    p0: Seq<char>,
    ae: Seq<(Seq<char>, NodeView)>,
    be: Seq<(Seq<char>, NodeView)>,
    so: bool,
    m: int,
    i: int,
    vd: ValueDiffV,
)
    requires
        0 <= m <= i < ae.len(),
        obj_has(be, ae[i].0),
        value_diffs_values(
            crate::text::key_path(p0, ae[i].0),
            ae[i].1,
            obj_get1(be, ae[i].0),
            so,
        ).contains(vd),
    ensures
        value_diffs_obj_a(p0, ae, be, so, m).contains(vd),
    decreases i - m,
{
    let head = if obj_has(be, ae[m].0) {
        value_diffs_values(crate::text::key_path(p0, ae[m].0), ae[m].1, obj_get1(be, ae[m].0), so)
    } else {
        Seq::<ValueDiffV>::empty()
    };
    if m == i {
        lemma_mem_concat(head, value_diffs_obj_a(p0, ae, be, so, m + 1), vd);
    } else {
        lemma_value_include_obj_a(p0, ae, be, so, m + 1, i, vd);
        lemma_mem_concat(head, value_diffs_obj_a(p0, ae, be, so, m + 1), vd);
    }
}

/// A record of the walk at one index is a record of the walk over the whole
/// array pair.
proof fn lemma_value_include_arr(
    p0: Seq<char>,
    ai: Seq<NodeView>,
    bi: Seq<NodeView>,
    so: bool,
    m: int,
    i: int,
    vd: ValueDiffV,
)
    requires
        0 <= m <= i < ai.len(),
        ai.len() == bi.len(),
        value_diffs_values(index_path(p0, i as nat), ai[i], bi[i], so).contains(vd),
    ensures
        value_diffs_arr(p0, ai, bi, so, m).contains(vd),
    decreases i - m,
{
    let head = value_diffs_values(index_path(p0, m as nat), ai[m], bi[m], so);
    if m == i {
        lemma_mem_concat(head, value_diffs_arr(p0, ai, bi, so, m + 1), vd);
    } else {
        lemma_value_include_arr(p0, ai, bi, so, m + 1, i, vd);
        lemma_mem_concat(head, value_diffs_arr(p0, ai, bi, so, m + 1), vd);
    }
}

/// Wherever a same-order comparison of path-unambiguous documents visits an
/// equal-length array pair holding same-tag scalars that differ at one
/// index, the comparison reports a value diff at that element's indexed
/// path, carrying the two renderings — and every value diff at that path
/// carries exactly them.
pub proof fn law_visited_single_scalar_diff(
    path: Seq<char>,
    ae: Seq<(Seq<char>, NodeView)>,
    be: Seq<(Seq<char>, NodeView)>,
    p: Seq<char>,
    xs: Seq<NodeView>,
    ys: Seq<NodeView>,
    i: int,
    vd: ValueDiffV,
)
    requires
        sep_wf(NodeView::Object(ae)),
        sep_wf(NodeView::Object(be)),
        pair_at(path, NodeView::Object(ae), NodeView::Object(be), true, p, NodeView::Array(xs),
            NodeView::Array(ys)),
        xs.len() == ys.len(),
        0 <= i < xs.len(),
        forall|m: int| 0 <= m < xs.len() ==> sep_wf(#[trigger] xs[m]) && sep_wf(#[trigger] ys[m]),
        xs[i].is_scalar(),
        ys[i].is_scalar(),
        xs[i].tag() == ys[i].tag(),
        render_top(xs[i]) != render_top(ys[i]),
    ensures
        value_diffs_obj(path, ae, be, true).contains(
            ValueDiffV {
                key: index_path(p, i as nat),
                value1: render_top(xs[i]),
                value2: render_top(ys[i]),
            },
        ),
        value_diffs_obj(path, ae, be, true).contains(vd) && vd.key == index_path(p, i as nat)
            ==> vd == (ValueDiffV {
            key: index_path(p, i as nat),
            value1: render_top(xs[i]),
            value2: render_top(ys[i]),
        }),
{
    let expected = ValueDiffV {
        key: index_path(p, i as nat),
        value1: render_top(xs[i]),
        value2: render_top(ys[i]),
    };
    let a = NodeView::Object(ae);
    let b = NodeView::Object(be);
    // The element pair is itself visited, and its own walk yields exactly
    // the expected record.
    assert(pair_at(path, a, b, true, index_path(p, i as nat), xs[i], ys[i])) by {
        assert(pair_at(index_path(p, i as nat), xs[i], ys[i], true, index_path(p, i as nat), xs[i],
            ys[i]));
        lemma_pair_at_below_array(path, a, b, true, p, xs, ys, i, index_path(p, i as nat), xs[i],
            ys[i]);
    }
    assert(value_diffs_values(index_path(p, i as nat), xs[i], ys[i], true) == seq![expected]);
    assert(seq![expected][0] == expected);
    assert(seq![expected].contains(expected));
    lemma_value_complete_values(
        path,
        a,
        b,
        true,
        index_path(p, i as nat),
        xs[i],
        ys[i],
        expected,
    );
    assert(value_diffs_values(path, a, b, true) == value_diffs_obj(path, ae, be, true));
    if value_diffs_obj(path, ae, be, true).contains(vd) && vd.key == index_path(p, i as nat) {
        law_value_diff_soundness(path, ae, be, true, vd);
        let (sa, sb) = choose|sa: NodeView, sb: NodeView|
            #[trigger] pair_at(path, a, b, true, vd.key, sa, sb) && sa.is_scalar()
                && sb.is_scalar() && sa.tag() == sb.tag() && vd.value1 == render_top(sa)
                && vd.value2 == render_top(sb) && render_top(sa) != render_top(sb);
        lemma_pair_at_unique(path, a, b, true, vd.key, sa, sb, xs[i], ys[i]);
    }
}

/// A pair visited below a same-order array pair is visited below the
/// documents the array pair came from.
proof fn lemma_pair_at_below_array(
    path: Seq<char>,
    a: NodeView,
    b: NodeView,
    so: bool,
    p: Seq<char>,
    xs: Seq<NodeView>,
    ys: Seq<NodeView>,
    i: int,
    q: Seq<char>,
    ta: NodeView,
    tb: NodeView,
)
    requires
        so,
        pair_at(path, a, b, so, p, NodeView::Array(xs), NodeView::Array(ys)),
        xs.len() == ys.len(),
        0 <= i < xs.len(),
        pair_at(index_path(p, i as nat), xs[i], ys[i], so, q, ta, tb),
    ensures
        pair_at(path, a, b, so, q, ta, tb),
    decreases a, b, 3int, 0int,
{
    let ae = a->Object_0;
    let be = b->Object_0;
    let ai = a->Array_0;
    let bi = b->Array_0;
    if p == path && NodeView::Array(xs) == a && NodeView::Array(ys) == b {
        assert(a->Array_0 == xs && b->Array_0 == ys);
        assert(pair_at(path, a, b, so, q, ta, tb)) by {
            assert(0 <= i < a->Array_0.len() && pair_at(
                index_path(path, i as nat),
                a->Array_0[i],
                b->Array_0[i],
                so,
                q,
                ta,
                tb,
            ));
        }
    } else if a is Object && b is Object && exists|i2: int, j2: int|
        0 <= i2 < ae.len() && 0 <= j2 < be.len() && (#[trigger] be[j2]).0 == (#[trigger] ae[
            i2
        ]).0 && pair_at(
            crate::text::key_path(path, ae[i2].0),
            ae[i2].1,
            be[j2].1,
            so,
            p,
            NodeView::Array(xs),
            NodeView::Array(ys),
        ) {
        let (i2, j2) = choose|i2: int, j2: int|
            0 <= i2 < ae.len() && 0 <= j2 < be.len() && (#[trigger] be[j2]).0 == (#[trigger] ae[
                i2
            ]).0 && pair_at(
                crate::text::key_path(path, ae[i2].0),
                ae[i2].1,
                be[j2].1,
                so,
                p,
                NodeView::Array(xs),
                NodeView::Array(ys),
            );
        assert(a == NodeView::Object(ae));
        assert(b == NodeView::Object(be));
        lemma_pair_at_below_array(
            crate::text::key_path(path, ae[i2].0),
            ae[i2].1,
            be[j2].1,
            so,
            p,
            xs,
            ys,
            i,
            q,
            ta,
            tb,
        );
        assert(pair_at(path, a, b, so, q, ta, tb));
    } else {
        let i2 = choose|i2: int|
            0 <= i2 < ai.len() && pair_at(
                index_path(path, i2 as nat),
                #[trigger] ai[i2],
                bi[i2],
                so,
                p,
                NodeView::Array(xs),
                NodeView::Array(ys),
            );
        assert(a == NodeView::Array(ai));
        assert(b == NodeView::Array(bi));
        lemma_pair_at_below_array(
            index_path(path, i2 as nat),
            ai[i2],
            bi[i2],
            so,
            p,
            xs,
            ys,
            i,
            q,
            ta,
            tb,
        );
        assert(pair_at(path, a, b, so, q, ta, tb));
    }
}

} // verus!

verus! {

/// Comparing a well-formed value with itself visits only pairs of one and
/// the same value.
proof fn lemma_pair_at_self(
    q: Seq<char>,
    v: NodeView,
    so: bool,
    p: Seq<char>,
    ta: NodeView,
    tb: NodeView,
)
    requires
        sep_wf(v),
        pair_at(q, v, v, so, p, ta, tb),
    ensures
        ta == tb,
    decreases v, 3int, 0int,
{
    let e = v->Object_0;
    let items = v->Array_0;
    if p == q && ta == v && tb == v {
    } else if v is Object && exists|i: int, j: int|
        0 <= i < e.len() && 0 <= j < e.len() && (#[trigger] e[j]).0 == (#[trigger] e[i]).0
            && pair_at(crate::text::key_path(q, e[i].0), e[i].1, e[j].1, so, p, ta, tb) {
        let (i, j) = choose|i: int, j: int|
            0 <= i < e.len() && 0 <= j < e.len() && (#[trigger] e[j]).0 == (#[trigger] e[i]).0
                && pair_at(crate::text::key_path(q, e[i].0), e[i].1, e[j].1, so, p, ta, tb);
        assert(v == NodeView::Object(e));
        if i != j {
            assert(e[i].0 != e[j].0);
        }
        assert(sep_wf(e[i].1));
        lemma_pair_at_self(crate::text::key_path(q, e[i].0), e[i].1, so, p, ta, tb);
    } else {
        let i = choose|i: int|
            0 <= i < items.len() && pair_at(
                index_path(q, i as nat),
                #[trigger] items[i],
                items[i],
                so,
                p,
                ta,
                tb,
            );
        assert(v == NodeView::Array(items));
        assert(sep_wf(items[i]));
        lemma_pair_at_self(index_path(q, i as nat), items[i], so, p, ta, tb);
    }
}

} // verus!

verus! {

/// A path below a key stays below that key when extended by more segments.
proof fn lemma_from_key_extend(p0: Seq<char>, k: Seq<char>, p: Seq<char>, q: Seq<char>)
    requires
        from_key(p0, k, p),
        ext_of(p, q),
    ensures
        from_key(p0, k, q),
{
    let t = choose|t: Seq<char>| rel_ok(t) && p == crate::text::key_path(p0, k) + t;
    let ext = q.subrange(p.len() as int, q.len() as int);
    assert(q =~= p + ext);
    assert(ext[0] == q[p.len() as int]);
    assert((crate::text::key_path(p0, k) + t) + ext =~= crate::text::key_path(p0, k) + (t + ext));
    assert(rel_ok(t + ext)) by {
        if t.len() > 0 {
            assert((t + ext)[0] == t[0]);
        } else {
            assert(t + ext =~= ext);
        }
    }
    assert(q == crate::text::key_path(p0, k) + (t + ext));
}

/// A path below an index stays below that index when extended by more
/// segments.
proof fn lemma_from_index_extend(p0: Seq<char>, n: nat, p: Seq<char>, q: Seq<char>)
    requires
        from_index(p0, n, p),
        ext_of(p, q),
    ensures
        from_index(p0, n, q),
{
    let t = choose|t: Seq<char>| rel_ok(t) && p == index_path(p0, n) + t;
    let ext = q.subrange(p.len() as int, q.len() as int);
    assert(q =~= p + ext);
    assert(ext[0] == q[p.len() as int]);
    assert((index_path(p0, n) + t) + ext =~= index_path(p0, n) + (t + ext));
    assert(rel_ok(t + ext)) by {
        if t.len() > 0 {
            assert((t + ext)[0] == t[0]);
        } else {
            assert(t + ext =~= ext);
        }
    }
    assert(q == index_path(p0, n) + (t + ext));
}

/// A visit below a visited pair factors through that pair: what the walk
/// finds at a longer path, the walk of the pair at the shorter path finds
/// too.
proof fn lemma_pair_at_factor(
    path: Seq<char>,
    a: NodeView,
    b: NodeView,
    so: bool,
    p: Seq<char>,
    pa: NodeView,
    pb: NodeView,
    q: Seq<char>,
    ta: NodeView,
    tb: NodeView,
)
    requires
        sep_wf(a),
        sep_wf(b),
        pair_at(path, a, b, so, p, pa, pb),
        pair_at(path, a, b, so, q, ta, tb),
        ext_of(p, q),
    ensures
        pair_at(p, pa, pb, so, q, ta, tb),
    decreases a, b, 3int, 0int,
{
    let ae = a->Object_0;
    let be = b->Object_0;
    let ai = a->Array_0;
    let bi = b->Array_0;
    if a is Object && b is Object {
        assert(a == NodeView::Object(ae));
        assert(b == NodeView::Object(be));
    }
    if a is Array && b is Array {
        assert(a == NodeView::Array(ai));
        assert(b == NodeView::Array(bi));
    }
    if p == path {
        lemma_pair_at_unique(path, a, b, so, p, pa, pb, a, b);
        assert(pa == a && pb == b);
    } else {
        assert(q.len() > p.len());
        let p_key = a is Object && b is Object && exists|i: int, j: int|
            0 <= i < ae.len() && 0 <= j < be.len() && (#[trigger] be[j]).0 == (#[trigger] ae[
                i
            ]).0 && pair_at(crate::text::key_path(path, ae[i].0), ae[i].1, be[j].1, so, p, pa, pb);
        let q_key = a is Object && b is Object && exists|i: int, j: int|
            0 <= i < ae.len() && 0 <= j < be.len() && (#[trigger] be[j]).0 == (#[trigger] ae[
                i
            ]).0 && pair_at(crate::text::key_path(path, ae[i].0), ae[i].1, be[j].1, so, q, ta, tb);
        if p_key {
            let (i1, j1) = choose|i: int, j: int|
                0 <= i < ae.len() && 0 <= j < be.len() && (#[trigger] be[j]).0 == (#[trigger] ae[
                    i
                ]).0 && pair_at(
                    crate::text::key_path(path, ae[i].0),
                    ae[i].1,
                    be[j].1,
                    so,
                    p,
                    pa,
                    pb,
                );
            assert(sep_free_key(ae[i1].0) && sep_wf(ae[i1].1) && sep_wf(be[j1].1));
            lemma_pair_at_shape(
                crate::text::key_path(path, ae[i1].0),
                ae[i1].1,
                be[j1].1,
                so,
                p,
                pa,
                pb,
            );
            lemma_reach_through_key(path, ae[i1].0, p);
            lemma_from_key_extend(path, ae[i1].0, p, q);
            assert(q_key) by {
                if !q_key {
                    let i = choose|i: int|
                        0 <= i < ai.len() && pair_at(
                            index_path(path, i as nat),
                            #[trigger] ai[i],
                            bi[i],
                            so,
                            q,
                            ta,
                            tb,
                        );
                    assert(sep_wf(ai[i]) && sep_wf(bi[i]));
                    lemma_pair_at_shape(index_path(path, i as nat), ai[i], bi[i], so, q, ta, tb);
                    lemma_reach_through_index(path, i as nat, q);
                    lemma_key_index_paths_differ(path, ae[i1].0, i as nat, q, q);
                }
            }
            let (i2, j2) = choose|i: int, j: int|
                0 <= i < ae.len() && 0 <= j < be.len() && (#[trigger] be[j]).0 == (#[trigger] ae[
                    i
                ]).0 && pair_at(
                    crate::text::key_path(path, ae[i].0),
                    ae[i].1,
                    be[j].1,
                    so,
                    q,
                    ta,
                    tb,
                );
            assert(sep_free_key(ae[i2].0) && sep_wf(ae[i2].1) && sep_wf(be[j2].1));
            lemma_pair_at_shape(
                crate::text::key_path(path, ae[i2].0),
                ae[i2].1,
                be[j2].1,
                so,
                q,
                ta,
                tb,
            );
            lemma_reach_through_key(path, ae[i2].0, q);
            if ae[i1].0 != ae[i2].0 {
                lemma_from_key_distinct(path, ae[i1].0, ae[i2].0, q, q);
            }
            assert(ae[i1].0 == ae[i2].0);
            if i1 != i2 {
                assert(ae[i1].0 != ae[i2].0);
            }
            if j1 != j2 {
                assert(be[j1].0 != be[j2].0);
            }
            lemma_pair_at_factor(
                crate::text::key_path(path, ae[i1].0),
                ae[i1].1,
                be[j1].1,
                so,
                p,
                pa,
                pb,
                q,
                ta,
                tb,
            );
        } else {
            let i1 = choose|i: int|
                0 <= i < ai.len() && pair_at(
                    index_path(path, i as nat),
                    #[trigger] ai[i],
                    bi[i],
                    so,
                    p,
                    pa,
                    pb,
                );
            assert(sep_wf(ai[i1]) && sep_wf(bi[i1]));
            lemma_pair_at_shape(index_path(path, i1 as nat), ai[i1], bi[i1], so, p, pa, pb);
            lemma_reach_through_index(path, i1 as nat, p);
            lemma_from_index_extend(path, i1 as nat, p, q);
            assert(!q_key) by {
                if q_key {
                    let (i, j) = choose|i: int, j: int|
                        0 <= i < ae.len() && 0 <= j < be.len() && (#[trigger] be[j]).0 == (
                        #[trigger] ae[i]).0 && pair_at(
                            crate::text::key_path(path, ae[i].0),
                            ae[i].1,
                            be[j].1,
                            so,
                            q,
                            ta,
                            tb,
                        );
                    assert(sep_free_key(ae[i].0) && sep_wf(ae[i].1) && sep_wf(be[j].1));
                    lemma_pair_at_shape(
                        crate::text::key_path(path, ae[i].0),
                        ae[i].1,
                        be[j].1,
                        so,
                        q,
                        ta,
                        tb,
                    );
                    lemma_reach_through_key(path, ae[i].0, q);
                    lemma_key_index_paths_differ(path, ae[i].0, i1 as nat, q, q);
                }
            }
            let i2 = choose|i: int|
                0 <= i < ai.len() && pair_at(
                    index_path(path, i as nat),
                    #[trigger] ai[i],
                    bi[i],
                    so,
                    q,
                    ta,
                    tb,
                );
            assert(sep_wf(ai[i2]) && sep_wf(bi[i2]));
            lemma_pair_at_shape(index_path(path, i2 as nat), ai[i2], bi[i2], so, q, ta, tb);
            lemma_reach_through_index(path, i2 as nat, q);
            if i1 != i2 {
                lemma_from_index_distinct(path, i1 as nat, i2 as nat, q, q);
            }
            lemma_pair_at_factor(
                index_path(path, i1 as nat),
                ai[i1],
                bi[i1],
                so,
                p,
                pa,
                pb,
                q,
                ta,
                tb,
            );
        }
    }
}

} // verus!

verus! {

/// Every pair a comparison of path-unambiguous documents visits is itself
/// path-unambiguous.
proof fn lemma_pair_at_wf(
    q: Seq<char>,
    a: NodeView,
    b: NodeView,
    so: bool,
    p: Seq<char>,
    ta: NodeView,
    tb: NodeView,
)
    requires
        sep_wf(a),
        sep_wf(b),
        pair_at(q, a, b, so, p, ta, tb),
    ensures
        sep_wf(ta),
        sep_wf(tb),
    decreases a, b, 3int, 0int,
{
    let ae = a->Object_0;
    let be = b->Object_0;
    let ai = a->Array_0;
    let bi = b->Array_0;
    if p == q && ta == a && tb == b {
    } else if a is Object && b is Object && exists|i: int, j: int|
        0 <= i < ae.len() && 0 <= j < be.len() && (#[trigger] be[j]).0 == (#[trigger] ae[i]).0
            && pair_at(crate::text::key_path(q, ae[i].0), ae[i].1, be[j].1, so, p, ta, tb) {
        let (i, j) = choose|i: int, j: int|
            0 <= i < ae.len() && 0 <= j < be.len() && (#[trigger] be[j]).0 == (#[trigger] ae[
                i
            ]).0 && pair_at(crate::text::key_path(q, ae[i].0), ae[i].1, be[j].1, so, p, ta, tb);
        assert(a == NodeView::Object(ae));
        assert(b == NodeView::Object(be));
        assert(sep_wf(ae[i].1) && sep_wf(be[j].1));
        lemma_pair_at_wf(crate::text::key_path(q, ae[i].0), ae[i].1, be[j].1, so, p, ta, tb);
    } else {
        let i = choose|i: int|
            0 <= i < ai.len() && pair_at(
                index_path(q, i as nat),
                #[trigger] ai[i],
                bi[i],
                so,
                p,
                ta,
                tb,
            );
        assert(a == NodeView::Array(ai));
        assert(b == NodeView::Array(bi));
        assert(sep_wf(ai[i]) && sep_wf(bi[i]));
        lemma_pair_at_wf(index_path(q, i as nat), ai[i], bi[i], so, p, ta, tb);
    }
}

/// Wherever a same-order comparison of path-unambiguous documents visits an
/// equal-length array pair with identical elements, no value diff stands at
/// that array's path or anywhere below it.
pub proof fn law_visited_identical_arrays_no_value_diff(
    path: Seq<char>,
    ae: Seq<(Seq<char>, NodeView)>,
    be: Seq<(Seq<char>, NodeView)>,
    p: Seq<char>,
    xs: Seq<NodeView>,
    vd: ValueDiffV,
)
    requires
        sep_wf(NodeView::Object(ae)),
        sep_wf(NodeView::Object(be)),
        pair_at(path, NodeView::Object(ae), NodeView::Object(be), true, p, NodeView::Array(xs),
            NodeView::Array(xs)),
        value_diffs_obj(path, ae, be, true).contains(vd),
    ensures
        vd.key != p,
        !ext_of(p, vd.key),
{
    let a = NodeView::Object(ae);
    let b = NodeView::Object(be);
    law_value_diff_soundness(path, ae, be, true, vd);
    let (sa, sb) = choose|sa: NodeView, sb: NodeView|
        #[trigger] pair_at(path, a, b, true, vd.key, sa, sb) && sa.is_scalar() && sb.is_scalar()
            && sa.tag() == sb.tag() && vd.value1 == render_top(sa) && vd.value2 == render_top(sb)
            && render_top(sa) != render_top(sb);
    if vd.key == p {
        lemma_pair_at_unique(path, a, b, true, p, sa, sb, NodeView::Array(xs), NodeView::Array(xs));
    }
    if ext_of(p, vd.key) {
        lemma_pair_at_factor(
            path,
            a,
            b,
            true,
            p,
            NodeView::Array(xs),
            NodeView::Array(xs),
            vd.key,
            sa,
            sb,
        );
        lemma_pair_at_wf(path, a, b, true, p, NodeView::Array(xs), NodeView::Array(xs));
        lemma_pair_at_self(p, NodeView::Array(xs), true, vd.key, sa, sb);
    }
}

/// Wherever a same-order comparison of path-unambiguous documents visits an
/// equal-length array pair of same-tag scalars that differ at one index
/// only, every value diff at or below that array's path is the one record
/// at that element's indexed path, carrying the two renderings.
pub proof fn law_visited_single_scalar_diff_localized(
    path: Seq<char>,
    ae: Seq<(Seq<char>, NodeView)>,
    be: Seq<(Seq<char>, NodeView)>,
    p: Seq<char>,
    xs: Seq<NodeView>,
    ys: Seq<NodeView>,
    i: int,
    vd: ValueDiffV,
)
    requires
        sep_wf(NodeView::Object(ae)),
        sep_wf(NodeView::Object(be)),
        pair_at(path, NodeView::Object(ae), NodeView::Object(be), true, p, NodeView::Array(xs),
            NodeView::Array(ys)),
        xs.len() == ys.len(),
        0 <= i < xs.len(),
        forall|m: int| 0 <= m < xs.len() && m != i ==> (#[trigger] xs[m]) == ys[m],
        xs[i].is_scalar(),
        ys[i].is_scalar(),
        xs[i].tag() == ys[i].tag(),
        render_top(xs[i]) != render_top(ys[i]),
        value_diffs_obj(path, ae, be, true).contains(vd),
        vd.key == p || ext_of(p, vd.key),
    ensures
        vd == (ValueDiffV {
            key: index_path(p, i as nat),
            value1: render_top(xs[i]),
            value2: render_top(ys[i]),
        }),
{
    let a = NodeView::Object(ae);
    let b = NodeView::Object(be);
    let pxs = NodeView::Array(xs);
    let pys = NodeView::Array(ys);
    law_value_diff_soundness(path, ae, be, true, vd);
    let (sa, sb) = choose|sa: NodeView, sb: NodeView|
        #[trigger] pair_at(path, a, b, true, vd.key, sa, sb) && sa.is_scalar() && sb.is_scalar()
            && sa.tag() == sb.tag() && vd.value1 == render_top(sa) && vd.value2 == render_top(sb)
            && render_top(sa) != render_top(sb);
    if vd.key == p {
        lemma_pair_at_unique(path, a, b, true, p, sa, sb, pxs, pys);
        assert(false);
    }
    lemma_pair_at_factor(path, a, b, true, p, pxs, pys, vd.key, sa, sb);
    lemma_pair_at_wf(path, a, b, true, p, pxs, pys);
    // The visit below the array pair picks one index; every index but `i`
    // holds one and the same value on both sides.
    assert(vd.key != p);
    let m = choose|m: int|
        0 <= m < pxs->Array_0.len() && pair_at(
            index_path(p, m as nat),
            #[trigger] pxs->Array_0[m],
            pys->Array_0[m],
            true,
            vd.key,
            sa,
            sb,
        );
    assert(pxs->Array_0 == xs && pys->Array_0 == ys);
    if m != i {
        assert(xs[m] == ys[m]);
        assert(sep_wf(xs[m]));
        lemma_pair_at_self(index_path(p, m as nat), xs[m], true, vd.key, sa, sb);
        assert(false);
    }
    // Below a scalar pair nothing further is visited: the pair itself is
    // the record's witness.
    assert(vd.key == index_path(p, i as nat) && sa == xs[i] && sb == ys[i]) by {
        assert(!(xs[i] is Object) && !(xs[i] is Array));
    }
}

} // verus!

verus! {

proof fn lemma_value_unique_values(p: Seq<char>, a: NodeView, b: NodeView, so: bool)
    requires
        sep_wf(a),
        sep_wf(b),
        p.len() > 0,
    ensures
        keys_unique_values(value_diffs_values(p, a, b, so)),
        forall|x: int|
            0 <= x < value_diffs_values(p, a, b, so).len() ==> (#[trigger] value_diffs_values(
                p,
                a,
                b,
                so,
            )[x]).key == p || ext_of(p, value_diffs_values(p, a, b, so)[x].key),
    decreases a, b, 3int, 0int,
{
    if a is Object && b is Object {
        assert(a == NodeView::Object(a->Object_0));
        assert(b == NodeView::Object(b->Object_0));
        lemma_value_unique_obj_a(p, a->Object_0, b->Object_0, so, 0);
        let part = value_diffs_obj_a(p, a->Object_0, b->Object_0, so, 0);
        assert forall|x: int| 0 <= x < part.len() implies ext_of(p, (#[trigger] part[x]).key) by {
            assert(some_key(p, part[x].key));
            let k = choose|k: Seq<char>| sep_free_key(k) && #[trigger] from_key(p, k, part[x].key);
            lemma_from_key_ext(p, k, part[x].key);
        }
        assert(value_diffs_values(p, a, b, so) == value_diffs_obj(p, a->Object_0, b->Object_0, so));
    } else if a is Array && b is Array {
        if so && a->Array_0.len() == b->Array_0.len() {
            assert(a == NodeView::Array(a->Array_0));
            assert(b == NodeView::Array(b->Array_0));
            lemma_value_unique_arr(p, a->Array_0, b->Array_0, so, 0);
            let part = value_diffs_arr(p, a->Array_0, b->Array_0, so, 0);
            assert forall|x: int| 0 <= x < part.len() implies ext_of(
                p,
                (#[trigger] part[x]).key,
            ) by {
                assert(some_index(p, 0, a->Array_0.len() as int, part[x].key));
                let n = choose|n: nat| 0 <= n && #[trigger] from_index(p, n, part[x].key);
                lemma_from_index_ext(p, n, part[x].key);
            }
        }
    }
}

/// No two value diff records in the list share a path.
pub open spec fn keys_unique_values(s: Seq<ValueDiffV>) -> bool {
    forall|x: int, y: int|
        0 <= x < y < s.len() ==> (#[trigger] s[x]).key != (#[trigger] s[y]).key
}

proof fn lemma_value_unique_concat(x: Seq<ValueDiffV>, y: Seq<ValueDiffV>)
    requires
        keys_unique_values(x),
        keys_unique_values(y),
        forall|i: int, j: int|
            0 <= i < x.len() && 0 <= j < y.len() ==> (#[trigger] x[i]).key != (#[trigger] y[j]).key,
    ensures
        keys_unique_values(x + y),
{
    assert forall|a: int, b: int| 0 <= a < b < (x + y).len() implies ((x + y)[a]).key != ((x
        + y)[b]).key by {
        if b < x.len() {
            assert((x + y)[a] == x[a] && (x + y)[b] == x[b]);
        } else if a >= x.len() {
            assert((x + y)[a] == y[a - x.len()] && (x + y)[b] == y[b - x.len()]);
        } else {
            assert((x + y)[a] == x[a] && (x + y)[b] == y[b - x.len()]);
        }
    }
}

proof fn lemma_value_unique_obj_a(
    p: Seq<char>,
    ae: Seq<(Seq<char>, NodeView)>,
    be: Seq<(Seq<char>, NodeView)>,
    so: bool,
    i: int,
)
    requires
        sep_wf(NodeView::Object(ae)),
        sep_wf(NodeView::Object(be)),
        0 <= i,
    ensures
        keys_unique_values(value_diffs_obj_a(p, ae, be, so, i)),
        forall|x: int|
            0 <= x < value_diffs_obj_a(p, ae, be, so, i).len() ==> some_key(
                p,
                (#[trigger] value_diffs_obj_a(p, ae, be, so, i)[x]).key,
            ),
        forall|x: int|
            0 <= x < value_diffs_obj_a(p, ae, be, so, i).len() ==> exists|j: int| #![auto]
                i <= j < ae.len() && from_key(
                    p,
                    ae[j].0,
                    (#[trigger] value_diffs_obj_a(p, ae, be, so, i)[x]).key,
                ),
    decreases ae, be, 1int, ae.len() - i,
{
    assert(sep_wf(NodeView::Object(ae)));
    assert((NodeView::Object(ae))->Object_0 == ae);
    assert(sep_wf(NodeView::Object(be)));
    assert((NodeView::Object(be))->Object_0 == be);
    if 0 <= i < ae.len() {
        let k = ae[i].0;
        let child = crate::text::key_path(p, k);
        assert(sep_free_key(k));
        assert(child.len() > 0);
        let head = if obj_has(be, k) {
            value_diffs_values(child, ae[i].1, obj_get1(be, k), so)
        } else {
            Seq::<ValueDiffV>::empty()
        };
        if obj_has(be, k) {
            crate::node::lemma_obj_index_of(be, k);
            let idx = crate::node::obj_index_of(be, k);
            assert(sep_wf(ae[i as int].1));
            assert(sep_wf(be[idx].1));
            lemma_value_unique_values(child, ae[i].1, obj_get1(be, k), so);
            assert forall|x: int| 0 <= x < head.len() implies from_key(
                p,
                k,
                (#[trigger] head[x]).key,
            ) by {
                if head[x].key == child {
                    lemma_from_key_exact(p, k);
                } else {
                    assert(ext_of(child, head[x].key));
                    lemma_from_key_deeper(p, k, head[x].key);
                }
            }
        }
        lemma_value_unique_obj_a(p, ae, be, so, i + 1);
        let tail = value_diffs_obj_a(p, ae, be, so, i + 1);
        assert forall|x: int, y: int|
            0 <= x < head.len() && 0 <= y < tail.len() implies (#[trigger] head[x]).key != (
        #[trigger] tail[y]).key by {
            let j = choose|j: int| #![auto]
                i + 1 <= j < ae.len() && from_key(p, ae[j].0, tail[y].key);
            assert(sep_free_key(ae[j].0));
            assert(ae[i as int].0 != ae[j].0);
            lemma_from_key_distinct(p, k, ae[j].0, head[x].key, tail[y].key);
        }
        lemma_value_unique_concat(head, tail);
        let whole = head + tail;
        assert forall|x: int| 0 <= x < whole.len() implies exists|j: int| #![auto]
            i <= j < ae.len() && from_key(p, ae[j].0, (#[trigger] whole[x]).key) by {
            if x < head.len() {
                assert(whole[x] == head[x]);
                assert(from_key(p, ae[i as int].0, whole[x].key));
            } else {
                assert(whole[x] == tail[x - head.len()]);
                let j = choose|j: int| #![auto]
                    i + 1 <= j < ae.len() && from_key(p, ae[j].0, tail[x - head.len()].key);
                assert(from_key(p, ae[j].0, whole[x].key));
            }
        }
        assert(value_diffs_obj_a(p, ae, be, so, i) == whole);
        assert forall|x: int|
            0 <= x < value_diffs_obj_a(p, ae, be, so, i).len() implies some_key(
            p,
            (#[trigger] value_diffs_obj_a(p, ae, be, so, i)[x]).key,
        ) by {
            assert(value_diffs_obj_a(p, ae, be, so, i)[x] == whole[x]);
            let j = choose|j: int| #![auto]
                i <= j < ae.len() && from_key(p, ae[j].0, whole[x].key);
            assert(sep_free_key(ae[j].0) && from_key(p, ae[j].0, whole[x].key));
        }
        assert forall|x: int|
            0 <= x < value_diffs_obj_a(p, ae, be, so, i).len() implies exists|j: int| #![auto]
            i <= j < ae.len() && from_key(
                p,
                ae[j].0,
                (#[trigger] value_diffs_obj_a(p, ae, be, so, i)[x]).key,
            ) by {
            assert(value_diffs_obj_a(p, ae, be, so, i)[x] == whole[x]);
        }
    }
}

proof fn lemma_value_unique_arr(
    p: Seq<char>,
    ai: Seq<NodeView>,
    bi: Seq<NodeView>,
    so: bool,
    i: int,
)
    requires
        sep_wf(NodeView::Array(ai)),
        sep_wf(NodeView::Array(bi)),
        ai.len() == bi.len(),
        0 <= i,
    ensures
        keys_unique_values(value_diffs_arr(p, ai, bi, so, i)),
        forall|x: int|
            0 <= x < value_diffs_arr(p, ai, bi, so, i).len() ==> some_index(
                p,
                i,
                ai.len() as int,
                (#[trigger] value_diffs_arr(p, ai, bi, so, i)[x]).key,
            ),
    decreases ai, bi, 2int, ai.len() - i,
{
    assert(sep_wf(NodeView::Array(ai)));
    assert((NodeView::Array(ai))->Array_0 == ai);
    assert(sep_wf(NodeView::Array(bi)));
    assert((NodeView::Array(bi))->Array_0 == bi);
    if 0 <= i < ai.len() {
        let child = index_path(p, i as nat);
        reveal_strlit("[");
        reveal_strlit("]");
        assert(child.len() > 0);
        assert(sep_wf(ai[i as int]));
        assert(sep_wf(bi[i as int]));
        lemma_value_unique_values(child, ai[i], bi[i], so);
        let head = value_diffs_values(child, ai[i], bi[i], so);
        assert forall|x: int| 0 <= x < head.len() implies from_index(
            p,
            i as nat,
            (#[trigger] head[x]).key,
        ) by {
            if head[x].key == child {
                let t = Seq::<char>::empty();
                assert(child + t =~= child);
                assert(rel_ok(t) && head[x].key == child + t);
            } else {
                assert(ext_of(child, head[x].key));
                lemma_from_index_deeper(p, i as nat, head[x].key);
            }
        }
        lemma_value_unique_arr(p, ai, bi, so, i + 1);
        let tail = value_diffs_arr(p, ai, bi, so, i + 1);
        assert forall|x: int, y: int|
            0 <= x < head.len() && 0 <= y < tail.len() implies (#[trigger] head[x]).key != (
        #[trigger] tail[y]).key by {
            assert(some_index(p, i + 1, ai.len() as int, tail[y].key));
            let n = choose|n: nat| i + 1 <= n < ai.len() && #[trigger] from_index(
                p,
                n,
                tail[y].key,
            );
            lemma_from_index_distinct(p, i as nat, n, head[x].key, tail[y].key);
        }
        lemma_value_unique_concat(head, tail);
        let whole = head + tail;
        assert forall|x: int| 0 <= x < whole.len() implies some_index(
            p,
            i,
            ai.len() as int,
            (#[trigger] whole[x]).key,
        ) by {
            if x < head.len() {
                assert(whole[x] == head[x]);
                assert(from_index(p, i as nat, whole[x].key));
            } else {
                assert(whole[x] == tail[x - head.len()]);
                assert(some_index(p, i + 1, ai.len() as int, tail[x - head.len()].key));
                let n = choose|n: nat| i + 1 <= n < ai.len() && #[trigger] from_index(
                    p,
                    n,
                    tail[x - head.len()].key,
                );
                assert(from_index(p, n, whole[x].key));
            }
        }
        assert(value_diffs_arr(p, ai, bi, so, i) == whole);
        assert forall|x: int|
            0 <= x < value_diffs_arr(p, ai, bi, so, i).len() implies some_index(
            p,
            i,
            ai.len() as int,
            (#[trigger] value_diffs_arr(p, ai, bi, so, i)[x]).key,
        ) by {
            assert(value_diffs_arr(p, ai, bi, so, i)[x] == whole[x]);
        }
    }
}

/// Within one comparison of documents whose keys are non-empty and free of
/// separator characters, no two value diffs share a path: together with the
/// localized single-difference law, a single differing array element yields
/// exactly one record.
pub proof fn law_value_diff_path_uniqueness(
    path: Seq<char>,
    ae: Seq<(Seq<char>, NodeView)>,
    be: Seq<(Seq<char>, NodeView)>,
    so: bool,
)
    requires
        sep_wf(NodeView::Object(ae)),
        sep_wf(NodeView::Object(be)),
    ensures
        keys_unique_values(value_diffs_obj(path, ae, be, so)),
{
    lemma_value_unique_obj_a(path, ae, be, so, 0);
}

} // verus!
