use vstd::prelude::*;

verus! {

/// Relies on String::push_str: the characters of `tail` are appended.
#[verifier::external_body]
pub(crate) fn append(s: &mut String, tail: &str)
    ensures
        final(s)@ == old(s)@ + tail@,
{
    s.push_str(tail)
}

} // verus!
