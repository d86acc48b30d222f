//! The lexicons of all languages, each under the code of its language.
use crate::lexicon::Lexicon;
use vstd::hash_map::StringHashMap;
use vstd::prelude::*;

verus! {

/// The lexicons, each under the code of its language.
pub struct Omniglot<'a> {
    pub lexicon: StringHashMap<Lexicon<'a>>,
}

impl<'a> Omniglot<'a> {
    /// The lexicons of the languages that are known: `nld`, the Dutch one,
    /// under the code `nld`.
    pub fn new(nld: Lexicon<'a>) -> (omni: Omniglot<'a>)
        ensures
            omni.lexicon@ == Map::<Seq<char>, Lexicon<'a>>::empty().insert("nld"@, nld),
    {
        let mut omni = Omniglot { lexicon: StringHashMap::new() };
        omni.lexicon.insert(String::from_str("nld"), nld);
        omni
    }
}

} // verus!
