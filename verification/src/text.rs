//! A text with what is known of its words.
use vstd::prelude::*;

verus! {

/// A word as it stands in a text, with its lemma.
pub struct Token<'a> {
    pub raw: &'a str,
    pub lemma: &'static str,
}

/// A text as the sequence of its words.
pub struct AnnotatedText<'a> {
    pub tokens: &'a [Token<'a>],
}

} // verus!
