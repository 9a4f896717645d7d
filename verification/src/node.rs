//! The format-agnostic document tree both inputs are normalized into before
//! comparison. A number is carried as its canonical decimal rendering, so the
//! engine never depends on a concrete parser's number representation.

use vstd::prelude::*;

use crate::diff_types::ValueType;

verus! {

broadcast use vstd::std_specs::vec::axiom_vec_index_decreases;

/// Mathematical image of a document tree.
pub enum NodeView {
    Null,
    Bool(bool),
    Number(Seq<char>),
    String(Seq<char>),
    Array(Seq<NodeView>),
    Object(Seq<(Seq<char>, NodeView)>),
}

impl NodeView {
    /// The type tag of this node.
    pub open spec fn tag(self) -> ValueType {
        match self {
            NodeView::Null => ValueType::Null,
            NodeView::Bool(_) => ValueType::Boolean,
            NodeView::Number(_) => ValueType::Number,
            NodeView::String(_) => ValueType::String,
            NodeView::Array(_) => ValueType::Array,
            NodeView::Object(_) => ValueType::Object,
        }
    }

    /// True of the scalar variants: everything but arrays and objects.
    pub open spec fn is_scalar(self) -> bool {
        !(self is Array) && !(self is Object)
    }
}

/// A tagged document value: exactly one variant is active per node.
/// Objects hold an ordered mapping with unique keys, in insertion order.
#[derive(Debug)]
pub enum DocumentNode {
    Null,
    Bool(bool),
    Number(String),
    String(String),
    Array(Vec<DocumentNode>),
    Object(Vec<(String, DocumentNode)>),
}

/// The mathematical value of a document tree.
pub open spec fn node_view(n: DocumentNode) -> NodeView
    decreases n,
{
    match n {
        DocumentNode::Null => NodeView::Null,
        DocumentNode::Bool(b) => NodeView::Bool(b),
        DocumentNode::Number(s) => NodeView::Number(s@),
        DocumentNode::String(s) => NodeView::String(s@),
        DocumentNode::Array(items) => NodeView::Array(
            Seq::new(
                items@.len(),
                |i: int|
                    if 0 <= i < items@.len() {
                        node_view(items@[i])
                    } else {
                        NodeView::Null
                    },
            ),
        ),
        DocumentNode::Object(entries) => NodeView::Object(
            Seq::new(
                entries@.len(),
                |i: int|
                    if 0 <= i < entries@.len() {
                        (entries@[i].0@, node_view(entries@[i].1))
                    } else {
                        (Seq::empty(), NodeView::Null)
                    },
            ),
        ),
    }
}

impl DeepView for DocumentNode {
    type V = NodeView;

    open spec fn deep_view(&self) -> NodeView {
        node_view(*self)
    }
}

/// The mathematical value of an object's entry list.
pub open spec fn entries_view(entries: Seq<(String, DocumentNode)>) -> Seq<(Seq<char>, NodeView)> {
    Seq::new(entries.len(), |i: int| (entries[i].0@, node_view(entries[i].1)))
}

/// The mathematical value of an array's item list.
pub open spec fn items_view(items: Seq<DocumentNode>) -> Seq<NodeView> {
    Seq::new(items.len(), |i: int| node_view(items[i]))
}

/// An array node's view is its item list's view.
pub broadcast proof fn lemma_view_array(n: DocumentNode)
    requires
        n is Array,
    ensures
        #[trigger] node_view(n) == NodeView::Array(items_view(n->Array_0@)),
{
    let items = n->Array_0;
    assert(node_view(n)->Array_0 =~= items_view(items@));
}

/// An object node's view is its entry list's view.
pub broadcast proof fn lemma_view_object(n: DocumentNode)
    requires
        n is Object,
    ensures
        #[trigger] node_view(n) == NodeView::Object(entries_view(n->Object_0@)),
{
    let entries = n->Object_0;
    assert(node_view(n)->Object_0 =~= entries_view(entries@));
}

/// A node and its view always carry the same variant.
pub broadcast proof fn lemma_view_variant(n: DocumentNode)
    ensures
        (#[trigger] node_view(n) is Null) == (n is Null),
        (node_view(n) is Bool) == (n is Bool),
        (node_view(n) is Number) == (n is Number),
        (node_view(n) is String) == (n is String),
        (node_view(n) is Array) == (n is Array),
        (node_view(n) is Object) == (n is Object),
{
    match n {
        DocumentNode::Null => {},
        DocumentNode::Bool(_) => {},
        DocumentNode::Number(_) => {},
        DocumentNode::String(_) => {},
        DocumentNode::Array(_) => {},
        DocumentNode::Object(_) => {},
    }
}

impl DocumentNode {
    /// The type tag of this node.
    pub fn get_type(&self) -> (r: ValueType)
        ensures
            r == self.deep_view().tag(),
    {
        match self {
            DocumentNode::Null => ValueType::Null,
            DocumentNode::Bool(_) => ValueType::Boolean,
            DocumentNode::Number(_) => ValueType::Number,
            DocumentNode::String(_) => ValueType::String,
            DocumentNode::Array(_) => ValueType::Array,
            DocumentNode::Object(_) => ValueType::Object,
        }
    }

    pub fn is_object(&self) -> (r: bool)
        ensures
            r == (self.deep_view() is Object),
    {
        proof {
            lemma_view_variant(*self);
        }
        matches!(self, DocumentNode::Object(_))
    }

    pub fn is_array(&self) -> (r: bool)
        ensures
            r == (self.deep_view() is Array),
    {
        proof {
            lemma_view_variant(*self);
        }
        matches!(self, DocumentNode::Array(_))
    }

    /// The entry list of an object node; `None` on every other variant.
    pub fn as_object(&self) -> (r: Option<&Vec<(String, DocumentNode)>>)
        ensures
            match r {
                Some(entries) => self.deep_view() == NodeView::Object(entries_view(entries@)),
                None => !(self.deep_view() is Object),
            },
    {
        proof {
            lemma_view_variant(*self);
        }
        match self {
            DocumentNode::Object(entries) => {
                proof {
                    lemma_view_object(*self);
                }
                Some(entries)
            },
            _ => None,
        }
    }

    /// The item list of an array node; `None` on every other variant.
    pub fn as_array(&self) -> (r: Option<&Vec<DocumentNode>>)
        ensures
            match r {
                Some(items) => self.deep_view() == NodeView::Array(items_view(items@)),
                None => !(self.deep_view() is Array),
            },
    {
        proof {
            lemma_view_variant(*self);
        }
        match self {
            DocumentNode::Array(items) => {
                proof {
                    lemma_view_array(*self);
                }
                Some(items)
            },
            _ => None,
        }
    }
}

/// Structural equality of two document trees, decided recursively.
#[verifier::rlimit(50)]
pub fn deep_eq(a: &DocumentNode, b: &DocumentNode) -> (r: bool)
    ensures
        r == (a.deep_view() == b.deep_view()),
    decreases *a,
{
    match (a, b) {
        (DocumentNode::Null, DocumentNode::Null) => true,
        (DocumentNode::Bool(x), DocumentNode::Bool(y)) => *x == *y,
        (DocumentNode::Number(x), DocumentNode::Number(y)) => {
            let e = *x == *y;
            proof { assert(e == (a.deep_view() == b.deep_view())); }
            e
        },
        (DocumentNode::String(x), DocumentNode::String(y)) => {
            let e = *x == *y;
            proof { assert(e == (a.deep_view() == b.deep_view())); }
            e
        },
        (DocumentNode::Array(xs), DocumentNode::Array(ys)) => {
            proof {
                lemma_view_array(*a);
                lemma_view_array(*b);
            }
            if xs.len() != ys.len() {
                proof {
                    assert(items_view(xs@).len() != items_view(ys@).len());
                    assert(a.deep_view() != b.deep_view());
                }
                false
            } else {
                let ghost va = items_view(xs@);
                let ghost vb = items_view(ys@);
                let mut i: usize = 0;
                let mut same = true;
                #[verifier::loop_isolation(false)]
                while same && i < xs.len()
                    invariant
                        xs@.len() == ys@.len(),
                        i <= xs@.len(),
                        va == items_view(xs@),
                        vb == items_view(ys@),
                        same ==> va.take(i as int) == vb.take(i as int),
                        !same ==> va != vb,
                    decreases 2 * (xs@.len() - i) + (if same {
                        1int
                    } else {
                        0int
                    }),
                {
                    proof {
                        assert((*a)->Array_0 == *xs);
                        assert(decreases_to!(*a => (*a)->Array_0));
                        assert(decreases_to!(*xs => xs@[i as int]));
                    }
                    if deep_eq(&xs[i], &ys[i]) {
                        proof {
                            assert(va.take(i as int + 1) =~= vb.take(i as int + 1));
                        }
                        i = i + 1;
                    } else {
                        proof {
                            assert(va[i as int] != vb[i as int]);
                        }
                        same = false;
                    }
                }
                proof {
                    if same {
                        assert(va.take(va.len() as int) =~= va);
                        assert(vb.take(vb.len() as int) =~= vb);
                        assert(va == vb);
                    }
                    assert(a.deep_view() == NodeView::Array(va));
                    assert(b.deep_view() == NodeView::Array(vb));
                    assert(same == (a.deep_view() == b.deep_view()));
                }
                same
            }
        },
        (DocumentNode::Object(xs), DocumentNode::Object(ys)) => {
            proof {
                lemma_view_object(*a);
                lemma_view_object(*b);
            }
            if xs.len() != ys.len() {
                proof {
                    assert(entries_view(xs@).len() != entries_view(ys@).len());
                    assert(a.deep_view() != b.deep_view());
                }
                false
            } else {
                let ghost va = entries_view(xs@);
                let ghost vb = entries_view(ys@);
                let mut i: usize = 0;
                let mut same = true;
                #[verifier::loop_isolation(false)]
                while same && i < xs.len()
                    invariant
                        xs@.len() == ys@.len(),
                        i <= xs@.len(),
                        va == entries_view(xs@),
                        vb == entries_view(ys@),
                        same ==> va.take(i as int) == vb.take(i as int),
                        !same ==> va != vb,
                    decreases 2 * (xs@.len() - i) + (if same {
                        1int
                    } else {
                        0int
                    }),
                {
                    proof {
                        assert((*a)->Object_0 == *xs);
                        assert(decreases_to!(*a => (*a)->Object_0));
                        assert(decreases_to!(*xs => xs@[i as int]));
                        assert(decreases_to!(xs@[i as int] => xs@[i as int].1));
                    }
                    let keys_equal = xs[i].0 == ys[i].0;
                    if keys_equal && deep_eq(&xs[i].1, &ys[i].1) {
                        proof {
                            assert(va[i as int] == vb[i as int]);
                            assert(va.take(i as int + 1) =~= vb.take(i as int + 1));
                        }
                        i = i + 1;
                    } else {
                        proof {
                            assert(va[i as int] != vb[i as int]);
                        }
                        same = false;
                    }
                }
                proof {
                    if same {
                        assert(va.take(va.len() as int) =~= va);
                        assert(vb.take(vb.len() as int) =~= vb);
                        assert(va == vb);
                    }
                    assert(a.deep_view() == NodeView::Object(va));
                    assert(b.deep_view() == NodeView::Object(vb));
                    assert(same == (a.deep_view() == b.deep_view()));
                }
                same
            }
        },
        _ => {
            proof {
                lemma_view_variant(*a);
                lemma_view_variant(*b);
                assert(a.deep_view() != b.deep_view());
            }
            false
        },
    }
}

} // verus!


verus! {

/// Index of the first entry with the given key, or the length when no
/// entry has it.
pub open spec fn obj_index_of(ents: Seq<(Seq<char>, NodeView)>, k: Seq<char>) -> int
    decreases ents.len(),
{
    if ents.len() == 0 {
        0
    } else if ents[0].0 == k {
        0
    } else {
        1 + obj_index_of(ents.subrange(1, ents.len() as int), k)
    }
}

/// Whether an object's entry list defines the given key.
pub open spec fn obj_has(ents: Seq<(Seq<char>, NodeView)>, k: Seq<char>) -> bool {
    obj_index_of(ents, k) < ents.len()
}

/// The value under the given key; meaningful only when `obj_has` holds.
pub open spec fn obj_get1(ents: Seq<(Seq<char>, NodeView)>, k: Seq<char>) -> NodeView
    recommends
        obj_has(ents, k),
{
    ents[obj_index_of(ents, k)].1
}

/// What `obj_index_of` returns: a position no later than any match, holding
/// the key when any entry does.
pub broadcast proof fn lemma_obj_index_of(ents: Seq<(Seq<char>, NodeView)>, k: Seq<char>)
    ensures
        0 <= #[trigger] obj_index_of(ents, k) <= ents.len(),
        obj_index_of(ents, k) < ents.len() ==> ents[obj_index_of(ents, k)].0 == k,
        forall|j: int| 0 <= j < obj_index_of(ents, k) ==> (#[trigger] ents[j].0) != k,
    decreases ents.len(),
{
    if ents.len() == 0 {
    } else if ents[0].0 == k {
    } else {
        let tail = ents.subrange(1, ents.len() as int);
        lemma_obj_index_of(tail, k);
        assert forall|j: int| 0 <= j < obj_index_of(ents, k) implies (#[trigger] ents[j].0) != k by {
            if j > 0 {
                assert(tail[j - 1] == ents[j]);
            }
        }
    }
}

/// Looks a key up in an object's entry list; the first match wins, though a
/// well-formed object holds each key once.
pub fn object_get<'a>(entries: &'a Vec<(String, DocumentNode)>, key: &String) -> (r: Option<
    &'a DocumentNode,
>)
    ensures
        match r {
            Some(v) => obj_has(entries_view(entries@), key@) && v.deep_view() == obj_get1(
                entries_view(entries@),
                key@,
            ),
            None => !obj_has(entries_view(entries@), key@),
        },
{
    broadcast use lemma_obj_index_of;

    let ghost ev = entries_view(entries@);
    let mut i: usize = 0;
    #[verifier::loop_isolation(false)]
    while i < entries.len()
        invariant
            i <= entries@.len(),
            forall|j: int| 0 <= j < i ==> (#[trigger] ev[j].0) != key@,
        decreases entries@.len() - i,
    {
        if entries[i].0 == *key {
            proof {
                assert(ev[i as int].0 == key@);
                assert(obj_index_of(ev, key@) == i as int);
            }
            return Some(&entries[i].1);
        }
        i = i + 1;
    }
    proof {
        if obj_has(ev, key@) {
            assert(ev[obj_index_of(ev, key@)].0 == key@);
        }
    }
    None
}

} // verus!

verus! {

/// A well-formed document value: every object's keys are unique, at every
/// depth. Parsers produce only such trees.
pub open spec fn view_wf(v: NodeView) -> bool
    decreases v,
{
    match v {
        NodeView::Null => true,
        NodeView::Bool(_) => true,
        NodeView::Number(_) => true,
        NodeView::String(_) => true,
        NodeView::Array(items) => forall|i: int|
            0 <= i < items.len() ==> view_wf(#[trigger] items[i]),
        NodeView::Object(entries) => {
            &&& forall|i: int, j: int|
                0 <= i < j < entries.len() ==> (#[trigger] entries[i].0) != (#[trigger] entries[j].0)
            &&& forall|i: int| 0 <= i < entries.len() ==> view_wf(#[trigger] entries[i].1)
        },
    }
}

/// In a well-formed entry list, the entry a key looks up is the entry it
/// came from.
pub proof fn lemma_obj_get_unique(ents: Seq<(Seq<char>, NodeView)>, i: int)
    requires
        forall|p: int, q: int| 0 <= p < q < ents.len() ==> (#[trigger] ents[p].0) != (#[trigger] ents[q].0),
        0 <= i < ents.len(),
    ensures
        obj_has(ents, ents[i].0),
        obj_get1(ents, ents[i].0) == ents[i].1,
{
    lemma_obj_index_of(ents, ents[i].0);
    let idx = obj_index_of(ents, ents[i].0);
    if idx == ents.len() {
        assert(ents[i].0 != ents[i].0);
    }
    if idx < i {
        assert(ents[idx].0 != ents[i].0);
    }
    if i < idx {
        assert(ents[i].0 != ents[i].0);
    }
}

} // verus!
