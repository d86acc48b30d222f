//! The Dutch lexicon, from the entries of its sense dictionary.
use crate::lexicon::{key_of, Lexeme, LexemeView, Lexicon};
use crate::wn::multi::parse::{Entry, EntryView};
use vstd::prelude::*;

verus! {

/// The lexeme that an entry gives: that of a lemma, none of a definition or
/// an example.
pub open spec fn lexeme_of(entry: EntryView) -> Option<LexemeView> {
    match entry {
        EntryView::Lemma { language, offset, pos, lemma } => Some(LexemeView { lemma, pos }),
        _ => None,
    }
}

/// [`lexeme_of`], as a function.
pub open spec fn to_lexeme() -> spec_fn(EntryView) -> Option<LexemeView> {
    |entry: EntryView| lexeme_of(entry)
}

/// The lexemes of the lemmas among `entries`, in their order.
pub fn lexemes_of(entries: &Vec<Entry>) -> (lexemes: Vec<Lexeme>)
    ensures
        lexemes.deep_view() == entries.deep_view().filter_map(to_lexeme()),
{
    let ghost all = entries.deep_view();
    let mut lexemes: Vec<Lexeme> = Vec::new();
    let mut i: usize = 0;
    assert(lexemes.deep_view() =~= all.take(0).filter_map(to_lexeme()));
    while i < entries.len()
        invariant
            i <= entries.len(),
            all == entries.deep_view(),
            lexemes.deep_view() == all.take(i as int).filter_map(to_lexeme()),
        decreases entries.len() - i,
    {
        proof {
            all.lemma_filter_map_take_succ(to_lexeme(), i as int);
        }
        match &entries[i] {
            Entry::Lemma(lemma) => {
                let ghost before = lexemes.deep_view();
                let lexeme = Lexeme { lemma: lemma.lemma.clone(), pos: lemma.pos };
                lexemes.push(lexeme);
                assert(lexemes.deep_view() =~= before.push(lexeme@));
            },
            _ => {},
        }
        i += 1;
    }
    assert(all.take(i as int) == all);
    lexemes
}

/// The lexicon after each of `lexemes` is put under its key, the first first.
pub open spec fn lexicon_of<'a>(lexemes: Seq<Lexeme>) -> Map<Seq<char>, &'a Lexeme>
    decreases lexemes.len(),
{
    if lexemes.len() == 0 {
        Map::empty()
    } else {
        lexicon_of(lexemes.drop_last()).insert(
            key_of(lexemes.last().lemma@, lexemes.last().pos),
            &lexemes.last(),
        )
    }
}

/// The lexicon of `lexemes`: where two have one key, the later one stands.
pub fn load_lexicon<'a>(lexemes: &'a Vec<Lexeme>) -> (lexicon: Lexicon<'a>)
    ensures
        lexicon.lexemes@ == lexicon_of::<'a>(lexemes@),
{
    let mut lexicon = Lexicon::new();
    let mut i: usize = 0;
    assert(lexemes@.take(0) =~= Seq::<Lexeme>::empty());
    while i < lexemes.len()
        invariant
            i <= lexemes.len(),
            lexicon.lexemes@ == lexicon_of::<'a>(lexemes@.take(i as int)),
        decreases lexemes.len() - i,
    {
        assert(lexemes@.take(i + 1).drop_last() == lexemes@.take(i as int));
        lexicon.add_lexeme(&lexemes[i]);
        i += 1;
    }
    assert(lexemes@.take(i as int) == lexemes@);
    lexicon
}

} // verus!
