//! Small helpers over `String` and `str` that the rest of the crate shares.

use vstd::prelude::*;
use vstd::string::StrSliceExecFns;

verus! {

/// Relies on `str`'s `PartialEq`: two string slices are equal exactly when
/// their character sequences are equal.
#[verifier::external_body]
pub(crate) fn str_eq(a: &str, b: &str) -> (r: bool)
    ensures
        r == (a@ == b@),
{
    a == b
}

/// Relies on `String::push`: appends exactly the given character.
#[verifier::external_body]
fn push_char(s: &mut String, c: char)
    ensures
        final(s)@ == old(s)@.push(c),
{
    s.push(c)
}

/// Turns a vector of characters into the string holding exactly those
/// characters, in order.
pub fn char_vec_to_string(vec: &Vec<char>) -> (s: String)
    ensures
        s@ == vec@,
{
    let mut s = String::new();
    let mut i: usize = 0;
    while i < vec.len()
        invariant
            i <= vec.len(),
            s@ == vec@.take(i as int),
        decreases vec.len() - i,
    {
        push_char(&mut s, vec[i]);
        i = i + 1;
        proof {
            assert(s@ =~= vec@.take(i as int));
        }
    }
    proof {
        assert(vec@.take(vec@.len() as int) =~= vec@);
    }
    s
}

/// Turns a string into the vector of its characters, in order.
pub fn string_to_char_vec(string: &String) -> (v: Vec<char>)
    ensures
        v@ == string@,
{
    let s = string.as_str();
    let n = s.unicode_len();
    let mut v: Vec<char> = Vec::new();
    let mut i: usize = 0;
    while i < n
        invariant
            i <= n,
            n == s@.len(),
            s@ == string@,
            v@ == s@.take(i as int),
        decreases n - i,
    {
        v.push(s.get_char(i));
        i = i + 1;
        proof {
            assert(v@ =~= s@.take(i as int));
        }
    }
    proof {
        assert(s@.take(n as int) =~= s@);
    }
    v
}

} // verus!
