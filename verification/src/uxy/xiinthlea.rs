//! Xiinthlea in its two ways of writing.
use crate::strings::{join, join_with, lemma_join_split, split, split_on};
use vstd::prelude::*;

verus! {

/// A word in the second way of writing: as yet the word as it stands.
pub open spec fn word_of(text: Seq<char>) -> Seq<char> {
    text
}

/// [`word_of`], as a function.
pub open spec fn to_word() -> spec_fn(Seq<char>) -> Seq<char> {
    |text: Seq<char>| word_of(text)
}

/// A text in the second way of writing: each of its words, which spaces
/// part, in that way of writing, with a space between each two.
pub open spec fn text_of(text: Seq<char>) -> Seq<char> {
    join(split(text, ' ').map_values(to_word()), " "@)
}

/// As long as a word is written in both ways alike, so is a text.
pub proof fn lemma_text_stands(text: Seq<char>)
    ensures
        text_of(text) == text,
{
    reveal_strlit(" ");
    assert(" "@ =~= seq![' ']);
    assert(split(text, ' ').map_values(to_word()) =~= split(text, ' '));
    lemma_join_split(text, ' ');
}

/// A word in the second way of writing.
pub fn word_from_srx(text: &str) -> (word: &str)
    ensures
        word@ == word_of(text@),
{
    text
}

/// A text in the second way of writing.
pub fn from_srx(text: &str) -> (converted: String)
    ensures
        converted@ == text_of(text@),
        converted@ == text@,
{
    let words = split_on(text, ' ');
    let mut written: Vec<String> = Vec::new();
    let mut i: usize = 0;
    assert(written.deep_view() =~= words.deep_view().take(0).map_values(to_word()));
    while i < words.len()
        invariant
            i <= words.len(),
            written.deep_view() == words.deep_view().take(i as int).map_values(to_word()),
        decreases words.len() - i,
    {
        let ghost before = written.deep_view();
        let word = String::from_str(word_from_srx(words[i].as_str()));
        written.push(word);
        assert(written.deep_view() =~= before.push(word@));
        assert(written.deep_view() =~= words.deep_view().take(i + 1).map_values(to_word()));
        i += 1;
    }
    assert(words.deep_view().take(i as int) == words.deep_view());
    proof {
        lemma_text_stands(text@);
    }
    join_with(&written, " ")
}

} // verus!
