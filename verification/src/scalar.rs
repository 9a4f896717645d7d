//! Re-reading a canonical scalar rendering: the classification a JSON-shaped
//! parser applies to a scalar token, and the proof that rendering a scalar
//! and reading it back yields the value it came from.

use vstd::prelude::*;

use crate::node::{DocumentNode, NodeView};

verus! {

/// A decimal digit.
pub open spec fn is_digit(c: char) -> bool {
    '0' <= c && c <= '9'
}

/// The first position at or after `i` that does not hold a digit; the
/// length when digits run to the end.
pub open spec fn skip_digits(s: Seq<char>, i: int) -> int
    decreases s.len() - i,
{
    if 0 <= i < s.len() && is_digit(s[i]) {
        skip_digits(s, i + 1)
    } else {
        i
    }
}

/// `skip_digits` never moves backwards and never passes the end.
pub broadcast proof fn lemma_skip_digits_bounds(s: Seq<char>, i: int)
    requires
        0 <= i <= s.len(),
    ensures
        i <= #[trigger] skip_digits(s, i) <= s.len(),
    decreases s.len() - i,
{
    if 0 <= i < s.len() && is_digit(s[i]) {
        lemma_skip_digits_bounds(s, i + 1);
    }
}

/// Whether a string is one number token of the usual JSON shape: an
/// optional minus, an integer part without leading zeros, an optional
/// fraction, an optional exponent, nothing after.
pub open spec fn is_number_token(s: Seq<char>) -> bool {
    let start: int = if s.len() > 0 && s[0] == '-' {
        1
    } else {
        0
    };
    if start >= s.len() || !is_digit(s[start]) {
        false
    } else {
        let after_int: int = if s[start] == '0' {
            start + 1
        } else {
            skip_digits(s, start)
        };
        let after_frac: int = if after_int < s.len() && s[after_int] == '.' {
            if after_int + 1 < s.len() && is_digit(s[after_int + 1]) {
                skip_digits(s, after_int + 1)
            } else {
                -1
            }
        } else {
            after_int
        };
        if after_frac < 0 {
            false
        } else {
            let after_exp: int = if after_frac < s.len() && (s[after_frac] == 'e' || s[after_frac]
                == 'E') {
                let d: int = if after_frac + 1 < s.len() && (s[after_frac + 1] == '+' || s[
                    after_frac + 1
                ] == '-') {
                    after_frac + 2
                } else {
                    after_frac + 1
                };
                if d < s.len() && is_digit(s[d]) {
                    skip_digits(s, d)
                } else {
                    -1
                }
            } else {
                after_frac
            };
            after_exp == s.len()
        }
    }
}

/// How a scalar token reads back: the three keywords, then a number token,
/// then a plain string.
pub open spec fn parse_scalar_spec(s: Seq<char>) -> NodeView {
    if s == "null"@ {
        NodeView::Null
    } else if s == "true"@ {
        NodeView::Bool(true)
    } else if s == "false"@ {
        NodeView::Bool(false)
    } else if is_number_token(s) {
        NodeView::Number(s)
    } else {
        NodeView::String(s)
    }
}

/// Whether a string reads back as something other than a plain string.
pub open spec fn scalar_shaped(s: Seq<char>) -> bool {
    s == "null"@ || s == "true"@ || s == "false"@ || is_number_token(s)
}

/// Decides character-wise equality of two string slices.
pub fn str_eq(a: &str, b: &str) -> (r: bool)
    ensures
        r == (a@ == b@),
{
    let n = a.unicode_len();
    if n != b.unicode_len() {
        proof {
            assert(a@.len() != b@.len());
        }
        return false;
    }
    let mut i: usize = 0;
    #[verifier::loop_isolation(false)]
    while i < n
        invariant
            i <= n,
            n == a@.len() == b@.len(),
            forall|j: int| 0 <= j < i ==> a@[j] == b@[j],
        decreases n - i,
    {
        if a.get_char(i) != b.get_char(i) {
            return false;
        }
        i = i + 1;
    }
    proof {
        assert(a@ =~= b@);
    }
    true
}

/// The first position at or after `i` without a digit.
fn skip_digits_from(s: &str, i: usize) -> (r: usize)
    requires
        i <= s@.len(),
    ensures
        r as int == skip_digits(s@, i as int),
        i <= r <= s@.len(),
{
    broadcast use lemma_skip_digits_bounds;

    let n = s.unicode_len();
    let mut k: usize = i;
    #[verifier::loop_isolation(false)]
    while k < n
        invariant
            i <= k <= n,
            n == s@.len(),
            skip_digits(s@, i as int) == skip_digits(s@, k as int),
        decreases n - k,
    {
        let c = s.get_char(k);
        if !('0' <= c && c <= '9') {
            proof {
                assert(skip_digits(s@, k as int) == k as int);
            }
            return k;
        }
        k = k + 1;
    }
    proof {
        assert(skip_digits(s@, k as int) == k as int);
    }
    k
}

/// Decides whether a string is one number token.
pub fn is_number_str(s: &str) -> (r: bool)
    ensures
        r == is_number_token(s@),
{
    broadcast use lemma_skip_digits_bounds;

    let n = s.unicode_len();
    let start: usize = if n > 0 && s.get_char(0) == '-' {
        1
    } else {
        0
    };
    if start >= n {
        return false;
    }
    let first = s.get_char(start);
    if !('0' <= first && first <= '9') {
        return false;
    }
    let after_int: usize = if first == '0' {
        start + 1
    } else {
        skip_digits_from(s, start)
    };
    let after_frac: usize = if after_int < n && s.get_char(after_int) == '.' {
        if after_int + 1 < n && {
            let c = s.get_char(after_int + 1);
            '0' <= c && c <= '9'
        } {
            skip_digits_from(s, after_int + 1)
        } else {
            return false;
        }
    } else {
        after_int
    };
    let after_exp: usize = if after_frac < n && {
        let c = s.get_char(after_frac);
        c == 'e' || c == 'E'
    } {
        let d: usize = if after_frac + 1 < n && {
            let c = s.get_char(after_frac + 1);
            c == '+' || c == '-'
        } {
            after_frac + 2
        } else {
            after_frac + 1
        };
        if d < n && {
            let c = s.get_char(d);
            '0' <= c && c <= '9'
        } {
            skip_digits_from(s, d)
        } else {
            return false;
        }
    } else {
        after_frac
    };
    after_exp == n
}

/// Reads one scalar token back into a node.
pub fn parse_scalar(s: &str) -> (r: DocumentNode)
    ensures
        r.deep_view() == parse_scalar_spec(s@),
{
    if str_eq(s, "null") {
        DocumentNode::Null
    } else if str_eq(s, "true") {
        DocumentNode::Bool(true)
    } else if str_eq(s, "false") {
        DocumentNode::Bool(false)
    } else if is_number_str(s) {
        DocumentNode::Number(s.to_owned())
    } else {
        DocumentNode::String(s.to_owned())
    }
}

} // verus!
