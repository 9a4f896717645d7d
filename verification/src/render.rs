//! Canonical, deterministic string renderings of document values, so that
//! formatting differences between input formats never surface as spurious
//! diffs. Composite values render as compact JSON text; a string scalar at
//! the top level renders as its own characters, unquoted.

use vstd::prelude::*;

use crate::node::{node_view, DocumentNode, NodeView};
use crate::text::push_char;

verus! {

broadcast use vstd::std_specs::vec::axiom_vec_index_decreases;

/// How one character appears inside a quoted JSON string.
pub open spec fn escape_char(c: char) -> Seq<char> {
    if c == '"' {
        seq!['\\', '"']
    } else if c == '\\' {
        seq!['\\', '\\']
    } else if c == '\n' {
        seq!['\\', 'n']
    } else if c == '\r' {
        seq!['\\', 'r']
    } else if c == '\t' {
        seq!['\\', 't']
    } else if c == '\u{0008}' {
        seq!['\\', 'b']
    } else if c == '\u{000c}' {
        seq!['\\', 'f']
    } else if (c as u32) < 32 {
        seq!['\\', 'u', '0', '0', hex_digit((c as u32) as nat / 16), hex_digit(
            (c as u32) as nat % 16,
        )]
    } else {
        seq![c]
    }
}

/// The lower-case hexadecimal digit for one digit value.
pub open spec fn hex_digit(d: nat) -> char {
    if d == 0 {
        '0'
    } else if d == 1 {
        '1'
    } else if d == 2 {
        '2'
    } else if d == 3 {
        '3'
    } else if d == 4 {
        '4'
    } else if d == 5 {
        '5'
    } else if d == 6 {
        '6'
    } else if d == 7 {
        '7'
    } else if d == 8 {
        '8'
    } else if d == 9 {
        '9'
    } else if d == 10 {
        'a'
    } else if d == 11 {
        'b'
    } else if d == 12 {
        'c'
    } else if d == 13 {
        'd'
    } else if d == 14 {
        'e'
    } else {
        'f'
    }
}

/// A whole string body, escaped character by character.
pub open spec fn escaped(s: Seq<char>) -> Seq<char>
    decreases s.len(),
{
    if s.len() == 0 {
        Seq::empty()
    } else {
        escaped(s.subrange(0, s.len() - 1)) + escape_char(s[s.len() - 1])
    }
}

/// The compact JSON rendering of a value: no spaces, strings quoted and
/// escaped, object members in insertion order.
pub open spec fn render_json(v: NodeView) -> Seq<char>
    decreases v, 0int, 0int,
{
    match v {
        NodeView::Null => "null"@,
        NodeView::Bool(b) => if b {
            "true"@
        } else {
            "false"@
        },
        NodeView::Number(s) => s,
        NodeView::String(s) => "\""@ + escaped(s) + "\""@,
        NodeView::Array(items) => "["@ + render_items(items) + "]"@,
        NodeView::Object(entries) => "{"@ + render_entries(entries) + "}"@,
    }
}

/// Comma-separated renderings of an array's items.
pub open spec fn render_items(items: Seq<NodeView>) -> Seq<char>
    decreases items, 1int, items.len(),
{
    if items.len() == 0 {
        Seq::empty()
    } else if items.len() == 1 {
        render_json(items[0])
    } else {
        render_items(items.subrange(0, items.len() - 1)) + ","@ + render_json(
            items[items.len() - 1],
        )
    }
}

/// Comma-separated `"key":value` renderings of an object's entries.
pub open spec fn render_entries(entries: Seq<(Seq<char>, NodeView)>) -> Seq<char>
    decreases entries, 1int, entries.len(),
{
    if entries.len() == 0 {
        Seq::empty()
    } else if entries.len() == 1 {
        render_entry_at(entries, 0)
    } else {
        render_entries(entries.subrange(0, entries.len() - 1)) + ","@ + render_entry_at(
            entries,
            entries.len() - 1,
        )
    }
}

/// One entry's rendering, phrased over the whole sequence so the measure
/// stays on the sequence itself.
pub open spec fn render_entry_at(entries: Seq<(Seq<char>, NodeView)>, i: int) -> Seq<char>
    recommends
        0 <= i < entries.len(),
    decreases entries, 0int, 0int,
{
    if 0 <= i < entries.len() {
        "\""@ + escaped(entries[i].0) + "\":"@ + render_json(entries[i].1)
    } else {
        Seq::empty()
    }
}

/// The canonical rendering used for a scalar in a value diff: a string's own
/// characters, every other value's JSON text.
pub open spec fn render_top(v: NodeView) -> Seq<char> {
    match v {
        NodeView::String(s) => s,
        _ => render_json(v),
    }
}

/// Appends the escaped body of `s` to `out`.
pub fn push_escaped(out: &mut String, s: &str)
    ensures
        final(out)@ == old(out)@ + escaped(s@),
{
    let n = s.unicode_len();
    let mut i: usize = 0;
    #[verifier::loop_isolation(false)]
    while i < n
        invariant
            i <= n,
            out@ == old(out)@ + escaped(s@.subrange(0, i as int)),
        decreases n - i,
    {
        let c = s.get_char(i);
        if c == '"' {
            push_char(out, '\\');
            push_char(out, '"');
        } else if c == '\\' {
            push_char(out, '\\');
            push_char(out, '\\');
        } else if c == '\n' {
            push_char(out, '\\');
            push_char(out, 'n');
        } else if c == '\r' {
            push_char(out, '\\');
            push_char(out, 'r');
        } else if c == '\t' {
            push_char(out, '\\');
            push_char(out, 't');
        } else if c == '\u{0008}' {
            push_char(out, '\\');
            push_char(out, 'b');
        } else if c == '\u{000c}' {
            push_char(out, '\\');
            push_char(out, 'f');
        } else if (c as u32) < 32 {
            let code = c as u32;
            push_char(out, '\\');
            push_char(out, 'u');
            push_char(out, '0');
            push_char(out, '0');
            let hi = code / 16;
            let lo = code % 16;
            let ch = if hi == 0 {
                '0'
            } else {
                '1'
            };
            push_char(out, ch);
            let cl = if lo == 0 {
                '0'
            } else if lo == 1 {
                '1'
            } else if lo == 2 {
                '2'
            } else if lo == 3 {
                '3'
            } else if lo == 4 {
                '4'
            } else if lo == 5 {
                '5'
            } else if lo == 6 {
                '6'
            } else if lo == 7 {
                '7'
            } else if lo == 8 {
                '8'
            } else if lo == 9 {
                '9'
            } else if lo == 10 {
                'a'
            } else if lo == 11 {
                'b'
            } else if lo == 12 {
                'c'
            } else if lo == 13 {
                'd'
            } else if lo == 14 {
                'e'
            } else {
                'f'
            };
            push_char(out, cl);
            proof {
                assert(hi == (c as u32) as nat / 16 && ch == hex_digit(hi as nat));
                assert(cl == hex_digit((c as u32) as nat % 16));
            }
        } else {
            push_char(out, c);
        }
        proof {
            assert(s@.subrange(0, i as int + 1).subrange(0, i as int) =~= s@.subrange(0, i as int));
            assert(s@.subrange(0, i as int + 1)[i as int] == c);
            assert(out@ =~= old(out)@ + escaped(s@.subrange(0, i as int + 1)));
        }
        i = i + 1;
    }
    proof {
        assert(s@.subrange(0, n as int) =~= s@);
    }
}

} // verus!

verus! {

/// Appends the compact JSON rendering of a node to `out`.
#[verifier::rlimit(50)]
pub fn push_json(out: &mut String, n: &DocumentNode)
    ensures
        final(out)@ == old(out)@ + render_json(n.deep_view()),
    decreases *n,
{
    match n {
        DocumentNode::Null => {
            out.append("null");
        },
        DocumentNode::Bool(b) => {
            if *b {
                out.append("true");
            } else {
                out.append("false");
            }
        },
        DocumentNode::Number(s) => {
            out.append(s.as_str());
        },
        DocumentNode::String(s) => {
            push_char(out, '"');
            push_escaped(out, s.as_str());
            push_char(out, '"');
            proof {
                reveal_strlit("\"");
                assert("\""@ =~= Seq::empty().push('"'));
                assert(out@ =~= old(out)@ + ("\""@ + escaped(s@) + "\""@));
            }
        },
        DocumentNode::Array(items) => {
            proof {
                crate::node::lemma_view_array(*n);
            }
            let ghost iv = crate::node::items_view(items@);
            push_char(out, '[');
            let mut i: usize = 0;
            #[verifier::loop_isolation(false)]
            while i < items.len()
                invariant
                    i <= items@.len(),
                    out@ == old(out)@ + Seq::empty().push('[') + render_items(iv.take(i as int)),
                decreases items@.len() - i,
            {
                if i > 0 {
                    push_char(out, ',');
                }
                proof {
                    reveal_strlit(",");
                    assert((*n)->Array_0 == *items);
                    assert(decreases_to!(*n => (*n)->Array_0));
                    assert(decreases_to!(*items => items@[i as int]));
                }
                push_json(out, &items[i]);
                proof {
                    assert(iv.take(i as int + 1)[i as int] == node_view(items@[i as int]));
                    if i == 0 {
                        assert(render_items(iv.take(1)) == render_json(iv.take(1)[0]));
                    } else {
                        assert(iv.take(i as int + 1).subrange(0, i as int) =~= iv.take(i as int));
                        assert(render_items(iv.take(i as int + 1)) == render_items(iv.take(i as int))
                            + ","@ + render_json(iv.take(i as int + 1)[i as int]));
                    }
                    assert(out@ =~= old(out)@ + Seq::empty().push('[') + render_items(
                        iv.take(i as int + 1),
                    ));
                }
                i = i + 1;
            }
            push_char(out, ']');
            proof {
                reveal_strlit("[");
                reveal_strlit("]");
                assert(iv.take(iv.len() as int) =~= iv);
                assert("["@ =~= Seq::empty().push('['));
                assert("]"@ =~= Seq::empty().push(']'));
                assert(out@ =~= old(out)@ + ("["@ + render_items(iv) + "]"@));
            }
        },
        DocumentNode::Object(entries) => {
            proof {
                crate::node::lemma_view_object(*n);
            }
            let ghost ev = crate::node::entries_view(entries@);
            push_char(out, '{');
            let mut i: usize = 0;
            #[verifier::loop_isolation(false)]
            while i < entries.len()
                invariant
                    i <= entries@.len(),
                    out@ == old(out)@ + Seq::empty().push('{') + render_entries(ev.take(i as int)),
                decreases entries@.len() - i,
            {
                if i > 0 {
                    push_char(out, ',');
                }
                push_char(out, '"');
                push_escaped(out, entries[i].0.as_str());
                push_char(out, '"');
                push_char(out, ':');
                proof {
                    assert((*n)->Object_0 == *entries);
                    assert(decreases_to!(*n => (*n)->Object_0));
                    assert(decreases_to!(*entries => entries@[i as int]));
                    assert(decreases_to!(entries@[i as int] => entries@[i as int].1));
                }
                push_json(out, &entries[i].1);
                proof {
                    reveal_strlit(",");
                    reveal_strlit("\"");
                    reveal_strlit("\":");
                    assert(ev.take(i as int + 1)[i as int] == ev[i as int]);
                    assert(render_entry_at(ev.take(i as int + 1), i as int) =~= "\""@ + escaped(
                        ev[i as int].0,
                    ) + "\":"@ + render_json(ev[i as int].1));
                    if i == 0 {
                        assert(render_entries(ev.take(1)) == render_entry_at(ev.take(1), 0));
                    } else {
                        assert(ev.take(i as int + 1).subrange(0, i as int) =~= ev.take(i as int));
                        assert(render_entries(ev.take(i as int + 1)) == render_entries(ev.take(
                            i as int,
                        )) + ","@ + render_entry_at(ev.take(i as int + 1), i as int));
                    }
                    assert("\":"@ =~= Seq::empty().push('"').push(':'));
                    assert("\""@ =~= Seq::empty().push('"'));
                    assert(out@ =~= old(out)@ + Seq::empty().push('{') + render_entries(
                        ev.take(i as int + 1),
                    ));
                }
                i = i + 1;
            }
            push_char(out, '}');
            proof {
                reveal_strlit("{");
                reveal_strlit("}");
                assert(ev.take(ev.len() as int) =~= ev);
                assert("{"@ =~= Seq::empty().push('{'));
                assert("}"@ =~= Seq::empty().push('}'));
                assert(out@ =~= old(out)@ + ("{"@ + render_entries(ev) + "}"@));
            }
        },
    }
}

/// The compact JSON text of a whole node.
pub fn render_node(n: &DocumentNode) -> (r: String)
    ensures
        r@ == render_json(n.deep_view()),
{
    let mut out = String::new();
    push_json(&mut out, n);
    proof {
        assert(out@ =~= render_json(n.deep_view()));
    }
    out
}

/// The canonical rendering used for one side of a value diff.
pub fn render_value(n: &DocumentNode) -> (r: String)
    ensures
        r@ == render_top(n.deep_view()),
{
    match n {
        DocumentNode::String(s) => s.clone(),
        _ => render_node(n),
    }
}

} // verus!
