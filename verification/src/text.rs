use vstd::prelude::*;
use vstd::std_specs::iter::IteratorSpec;

verus! {

/// Taken on trust of `String::push`: it appends the character to the end
/// of the string and changes nothing else of it.
pub assume_specification[ String::push ](text: &mut String, c: char)
    ensures
        final(text)@ == old(text)@.push(c),
;

/// The characters of a text, in order.
pub fn characters(text: &str) -> (r: Vec<char>)
    ensures
        r@ == text@,
{
    broadcast use vstd::string::group_string_axioms;

    let mut out: Vec<char> = Vec::new();
    let source = text.chars();
    for c in walk: source
        invariant
            out@ == walk.history(),
            walk.seq() == text@,
    {
        out.push(c);
    }
    assert(out@ =~= text@);
    out
}

} // verus!
