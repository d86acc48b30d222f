//! The parts of speech of a sense dictionary, each written as one letter.
use crate::strings::chars_of;
use vstd::prelude::*;

verus! {

#[derive(Copy, Clone, Debug, PartialEq)]
pub enum Part {
    Adjective,
    Adverb,
    Noun,
    Verb,
}

/// The letter that stands for `pos`.
pub open spec fn letter_of(pos: Part) -> char {
    match pos {
        Part::Adjective => 'a',
        Part::Adverb => 'r',
        Part::Noun => 'n',
        Part::Verb => 'v',
    }
}

/// The part of speech that `text` stands for: that whose letter is all of
/// `text`, if there is one.
pub open spec fn part_of(text: Seq<char>) -> Option<Part> {
    if text == seq!['a'] {
        Some(Part::Adjective)
    } else if text == seq!['n'] {
        Some(Part::Noun)
    } else if text == seq!['r'] {
        Some(Part::Adverb)
    } else if text == seq!['v'] {
        Some(Part::Verb)
    } else {
        None
    }
}

/// The part of speech that `pos` stands for, if it stands for one.
pub fn find_part(pos: &str) -> (part: Option<Part>)
    ensures
        part == part_of(pos@),
{
    let letters = chars_of(pos);
    if letters.len() != 1 {
        return None;
    }
    assert(pos@ =~= seq![letters[0]]);
    if letters[0] == 'a' {
        Some(Part::Adjective)
    } else if letters[0] == 'n' {
        Some(Part::Noun)
    } else if letters[0] == 'r' {
        Some(Part::Adverb)
    } else if letters[0] == 'v' {
        Some(Part::Verb)
    } else {
        None
    }
}

/// The part of speech that `pos` stands for.
pub fn parse_pos(pos: &str) -> (part: Part)
    requires
        part_of(pos@) is Some,
    ensures
        part_of(pos@) == Some(part),
{
    find_part(pos).unwrap()
}

/// The letter that stands for `pos`.
pub fn as_char(pos: Part) -> (letter: char)
    ensures
        letter == letter_of(pos),
{
    match pos {
        Part::Adjective => 'a',
        Part::Adverb => 'r',
        Part::Noun => 'n',
        Part::Verb => 'v',
    }
}

/// A part of speech is read back from its own letter.
pub proof fn lemma_letter_names_part(pos: Part)
    ensures
        part_of(seq![letter_of(pos)]) == Some(pos),
{
    assert(seq!['a'] != seq!['n'] && seq!['a'] != seq!['r'] && seq!['a'] != seq!['v']) by {
        assert(seq!['a'][0] == 'a' && seq!['n'][0] == 'n' && seq!['r'][0] == 'r' && seq!['v'][0]
            == 'v');
    }
    assert(seq!['n'] != seq!['r'] && seq!['n'] != seq!['v'] && seq!['r'] != seq!['v']) by {
        assert(seq!['n'][0] == 'n' && seq!['r'][0] == 'r' && seq!['v'][0] == 'v');
    }
}

} // verus!
