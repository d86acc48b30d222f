//! Cutting a sentence into words.
use vstd::prelude::*;

verus! {

/// The words of `sentence`. No language is cut into words yet: there are none.
#[allow(unused_variables)]
pub fn segment(sentence: &str) -> (words: Vec<&str>)
    ensures
        words@ == Seq::<&str>::empty(),
{
    Vec::new()
}

} // verus!
