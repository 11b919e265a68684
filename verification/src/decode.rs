//! Escape decoding of raw parameter values.
//!
//! A raw value stores the source text between the quotes untouched.
//! Decoding resolves the escape sequences `\n`, `\"`, `\]` and `\\`;
//! a backslash before any other character is not a recognized escape and
//! is passed through unchanged, backslash included.  A backslash that
//! ends the value escapes nothing and is dropped.

use vstd::prelude::*;

verus! {

/// What decoding yields from position `i` of a raw value onward.
///
/// The state machine, stated recursively: a backslash followed by `n`
/// yields a newline; a backslash followed by `"`, `]` or `\` yields that
/// character; a backslash followed by anything else yields the backslash
/// and that character unchanged; any other character yields itself; a
/// trailing lone backslash yields nothing.
pub open spec fn decode_at(v: Seq<char>, i: int) -> Seq<char>
    decreases v.len() - i,
{
    if i < 0 || i >= v.len() {
        seq![]
    } else if v[i] == '\\' {
        if i + 1 < v.len() {
            if v[i + 1] == 'n' {
                seq!['\n'] + decode_at(v, i + 2)
            } else if v[i + 1] == '"' || v[i + 1] == ']' || v[i + 1] == '\\' {
                seq![v[i + 1]] + decode_at(v, i + 2)
            } else {
                seq!['\\', v[i + 1]] + decode_at(v, i + 2)
            }
        } else {
            seq![]
        }
    } else {
        seq![v[i]] + decode_at(v, i + 1)
    }
}

/// The decoded form of a whole raw value.
pub open spec fn decoded(v: Seq<char>) -> Seq<char> {
    decode_at(v, 0)
}

/// Decode one raw value.
pub fn decode_value(v: &Vec<char>) -> (r: Vec<char>)
    ensures
        r@ == decode_at(v@, 0),
{
    let mut out: Vec<char> = Vec::new();
    let mut i: usize = 0;
    while i < v.len()
        invariant
            i <= v@.len(),
            decode_at(v@, 0) == out@ + decode_at(v@, i as int),
        decreases v@.len() - i,
    {
        let c = v[i];
        if c == '\\' {
            if i + 1 < v.len() {
                let e = v[i + 1];
                if e == 'n' {
                    out.push('\n');
                } else if e == '"' || e == ']' || e == '\\' {
                    out.push(e);
                } else {
                    out.push('\\');
                    out.push(e);
                }
                proof {
                    assert(decode_at(v@, 0) =~= out@ + decode_at(v@, i + 2));
                }
                i = i + 2;
            } else {
                proof {
                    assert(decode_at(v@, 0) =~= out@ + decode_at(v@, i + 1));
                }
                i = i + 1;
            }
        } else {
            out.push(c);
            proof {
                assert(decode_at(v@, 0) =~= out@ + decode_at(v@, i + 1));
            }
            i = i + 1;
        }
    }
    out
}

} // verus!
