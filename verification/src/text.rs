//! Small string-building helpers: appending single characters, decimal
//! rendering of indices, and the dotted/bracketed path scheme that names a
//! location inside a document tree.

use vstd::prelude::*;

verus! {

/// Relies on `String::push`: appends the given char to the end of the string.
#[verifier::external_body]
pub(crate) fn push_char(s: &mut String, c: char)
    ensures
        final(s)@ == old(s)@.push(c),
{
    s.push(c);
}

/// The decimal digit character for one digit value.
pub open spec fn digit_char(d: nat) -> char {
    if d == 0 {
        '0'
    } else if d == 1 {
        '1'
    } else if d == 2 {
        '2'
    } else if d == 3 {
        '3'
    } else if d == 4 {
        '4'
    } else if d == 5 {
        '5'
    } else if d == 6 {
        '6'
    } else if d == 7 {
        '7'
    } else if d == 8 {
        '8'
    } else {
        '9'
    }
}

/// The usual decimal rendering of a natural number, no leading zeros.
pub open spec fn dec_digits(n: nat) -> Seq<char>
    decreases n,
{
    if n < 10 {
        seq![digit_char(n)]
    } else {
        dec_digits(n / 10).push(digit_char(n % 10))
    }
}

/// Appends the decimal rendering of `n` to `out`.
pub fn push_decimal(out: &mut String, n: usize)
    ensures
        final(out)@ == old(out)@ + dec_digits(n as nat),
    decreases n,
{
    if n >= 10 {
        proof {
            assert(n / 10 < n) by (nonlinear_arith)
                requires
                    n >= 10,
            ;
        }
        push_decimal(out, n / 10);
    }
    let d = n % 10;
    let c = if d == 0 {
        '0'
    } else if d == 1 {
        '1'
    } else if d == 2 {
        '2'
    } else if d == 3 {
        '3'
    } else if d == 4 {
        '4'
    } else if d == 5 {
        '5'
    } else if d == 6 {
        '6'
    } else if d == 7 {
        '7'
    } else if d == 8 {
        '8'
    } else {
        '9'
    };
    proof {
        assert(c == digit_char((n % 10) as nat));
        if n < 10 {
            assert(n % 10 == n) by (nonlinear_arith)
                requires
                    0 <= n < 10,
            ;
            assert(dec_digits(n as nat) =~= Seq::empty().push(digit_char(n as nat)));
        }
    }
    push_char(out, c);
    proof {
        if n < 10 {
            assert(final(out)@ =~= old(out)@ + dec_digits(n as nat));
        } else {
            assert(final(out)@ =~= old(out)@ + dec_digits(n as nat));
        }
    }
}

/// A parent path extended by an object key: a separating dot everywhere but
/// at the root, where the key stands alone.
pub open spec fn key_path(parent: Seq<char>, key: Seq<char>) -> Seq<char> {
    if parent.len() == 0 {
        key
    } else {
        parent + "."@ + key
    }
}

/// A parent path extended by an array index: `[i]`, with no separator.
pub open spec fn index_path(parent: Seq<char>, i: nat) -> Seq<char> {
    parent + "["@ + dec_digits(i) + "]"@
}

/// Builds the path of an object member below `parent`.
pub fn build_key_path(parent: &str, key: &str) -> (r: String)
    ensures
        r@ == key_path(parent@, key@),
{
    if parent.is_empty() {
        key.to_owned()
    } else {
        let mut s = parent.to_owned();
        s.append(".");
        s.append(key);
        proof {
            assert(s@ =~= parent@ + "."@ + key@);
        }
        s
    }
}

/// Builds the path of an array element below `parent`.
pub fn build_index_path(parent: &str, i: usize) -> (r: String)
    ensures
        r@ == index_path(parent@, i as nat),
{
    let mut s = parent.to_owned();
    s.append("[");
    push_decimal(&mut s, i);
    s.append("]");
    proof {
        assert(s@ =~= index_path(parent@, i as nat));
    }
    s
}

} // verus!
