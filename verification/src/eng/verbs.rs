//! English verbs: whether a word has the ending of a form, and the form of a
//! stem.
use crate::strings::strip_suffix;
use vstd::prelude::*;

verus! {

/// What stands before the ending `ing`, where `word` has it.
pub fn is_present_participle(word: &str) -> (stem: Result<&str, ()>)
    ensures
        match stem {
            Ok(stem) => "ing"@.is_suffix_of(word@) && stem@ == word@.take(word@.len() - 3),
            Err(_) => !"ing"@.is_suffix_of(word@),
        },
{
    proof {
        reveal_strlit("ing");
    }
    match strip_suffix(word, "ing") {
        Some(stem) => Ok(stem),
        None => Err(()),
    }
}

/// What stands before the ending `ed`, where `word` has it.
pub fn is_past_simple(word: &str) -> (stem: Result<&str, ()>)
    ensures
        match stem {
            Ok(stem) => "ed"@.is_suffix_of(word@) && stem@ == word@.take(word@.len() - 2),
            Err(_) => !"ed"@.is_suffix_of(word@),
        },
{
    proof {
        reveal_strlit("ed");
    }
    match strip_suffix(word, "ed") {
        Some(stem) => Ok(stem),
        None => Err(()),
    }
}

/// What stands before the ending `s`, where `word` has it.
pub fn is_present_simple(word: &str) -> (stem: Result<&str, ()>)
    ensures
        match stem {
            Ok(stem) => "s"@.is_suffix_of(word@) && stem@ == word@.take(word@.len() - 1),
            Err(_) => !"s"@.is_suffix_of(word@),
        },
{
    proof {
        reveal_strlit("s");
    }
    match strip_suffix(word, "s") {
        Some(stem) => Ok(stem),
        None => Err(()),
    }
}

/// `word` with the ending `s`.
pub fn make_present_simple(word: &str) -> (form: String)
    ensures
        form@ == word@ + "s"@,
{
    String::from_str(word).concat("s")
}

/// `word` with the ending `ed`.
pub fn make_past_simple(word: &str) -> (form: String)
    ensures
        form@ == word@ + "ed"@,
{
    String::from_str(word).concat("ed")
}

/// `word` with the ending `ing`.
pub fn make_present_participle(word: &str) -> (form: String)
    ensures
        form@ == word@ + "ing"@,
{
    String::from_str(word).concat("ing")
}

} // verus!
