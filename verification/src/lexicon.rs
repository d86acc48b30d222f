//! The lemmas of one language, found by lemma and part of speech.
use crate::wn::pos::{letter_of, Part};
use vstd::hash_map::StringHashMap;
use vstd::prelude::*;

verus! {

/// A lemma with its part of speech.
pub struct Lexeme {
    pub lemma: String,
    pub pos: Part,
}

/// A [`Lexeme`] as plain values.
pub struct LexemeView {
    pub lemma: Seq<char>,
    pub pos: Part,
}

impl View for Lexeme {
    type V = LexemeView;

    open spec fn view(&self) -> LexemeView {
        LexemeView { lemma: self.lemma@, pos: self.pos }
    }
}

impl DeepView for Lexeme {
    type V = LexemeView;

    open spec fn deep_view(&self) -> LexemeView {
        self@
    }
}

/// The lexemes of one language, each under the key of its lemma and part of
/// speech.
pub struct Lexicon<'a> {
    pub lexemes: StringHashMap<&'a Lexeme>,
}

/// The key of a lemma and a part of speech: the lemma, a colon, the letter of
/// the part of speech.
pub open spec fn key_of(lemma: Seq<char>, pos: Part) -> Seq<char> {
    lemma + seq![':', letter_of(pos)]
}

/// No two pairs of lemma and part of speech have one key: what is found under
/// the key of a pair was put there for that pair.
pub proof fn lemma_key_tells_apart(
    first: Seq<char>,
    first_pos: Part,
    second: Seq<char>,
    second_pos: Part,
)
    requires
        key_of(first, first_pos) == key_of(second, second_pos),
    ensures
        first == second,
        first_pos == second_pos,
{
    let a = key_of(first, first_pos);
    let b = key_of(second, second_pos);
    assert(a.len() == first.len() + 2);
    assert(b.len() == second.len() + 2);
    assert(a[first.len() as int + 1] == letter_of(first_pos));
    assert(b[second.len() as int + 1] == letter_of(second_pos));
    assert(first =~= a.take(first.len() as int));
    assert(second =~= b.take(second.len() as int));
}

/// The key of a lemma and a part of speech.
pub fn lexeme_key(lemma: &str, pos: Part) -> (key: String)
    ensures
        key@ == key_of(lemma@, pos),
{
    let tail = match pos {
        Part::Adjective => ":a",
        Part::Adverb => ":r",
        Part::Noun => ":n",
        Part::Verb => ":v",
    };
    proof {
        reveal_strlit(":a");
        reveal_strlit(":r");
        reveal_strlit(":n");
        reveal_strlit(":v");
        assert(tail@ =~= seq![':', letter_of(pos)]);
    }
    String::from_str(lemma).concat(tail)
}

impl<'a> Lexicon<'a> {
    /// A lexicon without lexemes.
    pub fn new() -> (lexicon: Lexicon<'a>)
        ensures
            lexicon.lexemes@ == Map::<Seq<char>, &'a Lexeme>::empty(),
    {
        Lexicon { lexemes: StringHashMap::new() }
    }

    /// Puts `lexeme` under its key, in place of what stood there.
    pub fn add_lexeme(&mut self, lexeme: &'a Lexeme)
        ensures
            final(self).lexemes@ == old(self).lexemes@.insert(
                key_of(lexeme.lemma@, lexeme.pos),
                lexeme,
            ),
    {
        let key = lexeme_key(lexeme.lemma.as_str(), lexeme.pos);
        self.lexemes.insert(key, lexeme);
    }

    /// The lexeme of `lemma` and `pos`, if the lexicon holds one.
    pub fn find_lexeme_by_lemma(&self, lemma: &str, pos: Part) -> (found: Result<&Lexeme, ()>)
        ensures
            match found {
                Ok(lexeme) => self.lexemes@.contains_key(key_of(lemma@, pos)) && lexeme
                    == self.lexemes@[key_of(lemma@, pos)],
                Err(_) => !self.lexemes@.contains_key(key_of(lemma@, pos)),
            },
    {
        let key = lexeme_key(lemma, pos);
        match self.lexemes.get(key.as_str()) {
            Some(lexeme) => Ok(*lexeme),
            None => Err(()),
        }
    }
}

impl<'a> Default for Lexicon<'a> {
    fn default() -> (lexicon: Lexicon<'a>)
        ensures
            lexicon.lexemes@ == Map::<Seq<char>, &'a Lexeme>::empty(),
    {
        Lexicon::new()
    }
}

} // verus!
