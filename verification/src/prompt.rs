//! Reading a yes/no answer.
use crate::text::{ascii_lower, chars_eq_ignore_ascii_case, eq_ignore_ascii_case, to_chars, trim, trimmed};
use vstd::prelude::*;

verus! {

broadcast use vstd::string::group_string_axioms;

/// An answer confirms when, trimmed, it is `y` or `Y`.
pub open spec fn confirms(input: Seq<char>) -> bool {
    eq_ignore_ascii_case(trim(input), seq!['y'])
}

/// An answer confirms exactly when, without surrounding whitespace, it is the
/// single letter `y` or `Y`: `yes`, `n` or an empty line do not.
pub proof fn only_y_confirms(input: Seq<char>)
    ensures
        confirms(input) <==> (trim(input) == seq!['y'] || trim(input) == seq!['Y']),
{
    let t = trim(input);
    if t.len() == 1 {
        if ascii_lower(t[0]) == ascii_lower('y') {
            assert(t[0] == 'y' || t[0] == 'Y');
            if t[0] == 'y' {
                assert(t =~= seq!['y']);
            } else {
                assert(t =~= seq!['Y']);
            }
        }
    }
}

/// Whether the line the user typed confirms the question.
pub fn is_confirmation(input: &str) -> (r: bool)
    ensures
        r == confirms(input@),
        r <==> (trim(input@) == seq!['y'] || trim(input@) == seq!['Y']),
{
    proof {
        only_y_confirms(input@);
    }
    let cs = to_chars(input);
    let t = trimmed(cs.as_slice());
    let y: Vec<char> = vec!['y'];
    assert(y@ =~= seq!['y']);
    chars_eq_ignore_ascii_case(t.as_slice(), y.as_slice())
}

} // verus!
