use vstd::prelude::*;
use vstd::std_specs::iter::IteratorSpec;

pub mod csv;
pub mod json;
pub mod ron;
pub mod num;
pub mod text;

verus! {

broadcast use vstd::string::group_string_axioms;

/// Relies on `String: FromIterator<char>`: collecting characters yields a
/// string whose characters are exactly the collected ones, in order.
#[verifier::external_body]
pub fn chars_to_string(v: &Vec<char>) -> (s: String)
    ensures
        s@ == v@,
{
    v.iter().collect()
}

/// Collects the characters of a string slice into a vector.
pub fn str_to_chars(s: &str) -> (v: Vec<char>)
    ensures
        v@ == s@,
{
    let mut it = s.chars();
    let mut v: Vec<char> = Vec::new();
    loop
        invariant
            it.obeys_prophetic_iter_laws(),
            v@ + it.remaining() == s@,
        ensures
            v@ == s@,
        decreases s@.len() - v@.len(),
    {
        match it.next() {
            Some(c) => {
                v.push(c);
                proof {
                    assert(v@ + it.remaining() =~= s@);
                }
            },
            None => {
                proof {
                    assert(v@ =~= v@ + it.remaining());
                }
                break ;
            },
        }
    }
    v
}

} // verus!
