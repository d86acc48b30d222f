//! The data lines of a sense dictionary in the Princeton format: a set of
//! synonyms with its words and its gloss.
use crate::pattern::{
    all_matches, captures, captures_iter, first_match, group, group_text, pattern_compiles,
};
use crate::strings::chars_of;
use crate::wn::pos::{find_part, part_of, Part};
use vstd::prelude::*;

verus! {

/// A word of a set of synonyms, with the number that tells it from its
/// namesakes.
#[derive(Debug, PartialEq)]
pub struct WordNetIdentifier {
    pub word: String,
    pub lex_id: i8,
}

/// A [`WordNetIdentifier`] as plain values.
pub struct WordNetIdentifierView {
    pub word: Seq<char>,
    pub lex_id: i8,
}

impl View for WordNetIdentifier {
    type V = WordNetIdentifierView;

    open spec fn view(&self) -> WordNetIdentifierView {
        WordNetIdentifierView { word: self.word@, lex_id: self.lex_id }
    }
}

impl DeepView for WordNetIdentifier {
    type V = WordNetIdentifierView;

    open spec fn deep_view(&self) -> WordNetIdentifierView {
        self@
    }
}

/// A set of synonyms.
#[derive(Debug, PartialEq)]
pub struct WordNetData {
    pub synset_offset: String,
    pub ss_type: Part,
    pub words: Vec<WordNetIdentifier>,
    pub gloss: String,
}

/// A [`WordNetData`] as plain values.
pub struct WordNetDataView {
    pub synset_offset: Seq<char>,
    pub ss_type: Part,
    pub words: Seq<WordNetIdentifierView>,
    pub gloss: Seq<char>,
}

impl View for WordNetData {
    type V = WordNetDataView;

    open spec fn view(&self) -> WordNetDataView {
        WordNetDataView {
            synset_offset: self.synset_offset@,
            ss_type: self.ss_type,
            words: self.words.deep_view(),
            gloss: self.gloss@,
        }
    }
}

impl DeepView for WordNetData {
    type V = WordNetDataView;

    open spec fn deep_view(&self) -> WordNetDataView {
        self@
    }
}

/// The pattern of one word with its number, in the list of words of a line.
pub const WORD_PATTERN: &'static str = r"((?P<word>[\S]+)\s(?P<lex_id>[0-9A-Fa-f]))+";

/// The group of [`WORD_PATTERN`] that holds the word.
pub const WORD: usize = 2;

/// The group of [`WORD_PATTERN`] that holds the word's number.
pub const LEX_ID: usize = 3;

/// The pattern of a data line.
pub const DATA_PATTERN: &'static str =
    r"^(?P<synset_offset>\d{8})\s(?P<lex_filenum>\d{2})\s(?P<ss_type>[nasrv])\s(?P<w_cnt>[0-9A-Fa-f]{2})\s(?P<words>([\S]+\s[0-9A-Fa-f]\s)+)(000|(?P<p_cnt>\d{3})\s(?P<pointers>([\S]+\s\d{8}\s[nasrv]\s[0-9A-Fa-f]{4}\s?)+))(\s(?P<f_cnt>\d{2})(?P<frames>(\s\+\s(?P<f_num>\d{2})\s(?P<w_num>[0-9A-Fa-f]{2}))+))?\s\|\s(?P<gloss>.*?)\s*$";

/// The group of [`DATA_PATTERN`] that holds the offset of the set.
pub const SYNSET_OFFSET: usize = 1;

/// The group of [`DATA_PATTERN`] that holds the part of speech.
pub const SS_TYPE: usize = 3;

/// The group of [`DATA_PATTERN`] that holds the list of words.
pub const WORDS: usize = 5;

/// The group of [`DATA_PATTERN`] that holds the gloss.
pub const GLOSS: usize = 17;

/// The number that `text` stands for, where it is one hexadecimal digit.
pub open spec fn hex_digit_of(text: Seq<char>) -> Option<i8> {
    if text.len() != 1 {
        None
    } else if '0' <= text[0] && text[0] <= '9' {
        Some((text[0] as int - '0' as int) as i8)
    } else if 'a' <= text[0] && text[0] <= 'f' {
        Some((text[0] as int - 'a' as int + 10) as i8)
    } else if 'A' <= text[0] && text[0] <= 'F' {
        Some((text[0] as int - 'A' as int + 10) as i8)
    } else {
        None
    }
}

/// The word that the groups of one match of [`WORD_PATTERN`] stand for.
pub open spec fn identifier_of(groups: Seq<Option<Seq<char>>>) -> Option<WordNetIdentifierView> {
    match (group_text(groups, WORD as int), group_text(groups, LEX_ID as int)) {
        (Some(word), Some(number)) => match hex_digit_of(number) {
            Some(lex_id) => Some(WordNetIdentifierView { word, lex_id }),
            None => None,
        },
        _ => None,
    }
}

/// The words that the matches of [`WORD_PATTERN`] stand for, one for one;
/// nothing where one of them stands for no word.
pub open spec fn identifiers_of(matches: Seq<Seq<Option<Seq<char>>>>) -> Option<
    Seq<WordNetIdentifierView>,
>
    decreases matches.len(),
{
    if matches.len() == 0 {
        Some(Seq::empty())
    } else {
        match (identifiers_of(matches.drop_last()), identifier_of(matches.last())) {
            (Some(words), Some(word)) => Some(words.push(word)),
            _ => None,
        }
    }
}

/// The number that `text` stands for, where it is one hexadecimal digit.
pub fn parse_hex_digit(text: &str) -> (number: Option<i8>)
    ensures
        number == hex_digit_of(text@),
{
    let digits = chars_of(text);
    if digits.len() != 1 {
        None
    } else if '0' <= digits[0] && digits[0] <= '9' {
        let value: u32 = digits[0] as u32 - '0' as u32;
        Some(value as i8)
    } else if 'a' <= digits[0] && digits[0] <= 'f' {
        let value: u32 = digits[0] as u32 - 'a' as u32 + 10;
        Some(value as i8)
    } else if 'A' <= digits[0] && digits[0] <= 'F' {
        let value: u32 = digits[0] as u32 - 'A' as u32 + 10;
        Some(value as i8)
    } else {
        None
    }
}

/// The word that the groups of one match of [`WORD_PATTERN`] stand for.
pub fn identifier_from_groups(groups: &Vec<Option<String>>) -> (found: Option<WordNetIdentifier>)
    ensures
        found.deep_view() == identifier_of(groups.deep_view()),
{
    match group(groups, WORD) {
        Some(word) => match group(groups, LEX_ID) {
            Some(number) => match parse_hex_digit(number) {
                Some(lex_id) => Some(WordNetIdentifier { word: String::from_str(word), lex_id }),
                None => None,
            },
            None => None,
        },
        None => None,
    }
}

/// Once the matches read so far stand for no words, no more matches mend it.
pub proof fn lemma_unread_stays(matches: Seq<Seq<Option<Seq<char>>>>, n: int)
    requires
        0 <= n <= matches.len(),
        identifiers_of(matches.take(n)) is None,
    ensures
        identifiers_of(matches) is None,
    decreases matches.len() - n,
{
    if n < matches.len() {
        assert(matches.take(n + 1).drop_last() == matches.take(n));
        lemma_unread_stays(matches, n + 1);
    } else {
        assert(matches.take(n) == matches);
    }
}

/// The words that the matches of [`WORD_PATTERN`] stand for, one for one.
pub fn identifiers_from_matches(matches: &Vec<Vec<Option<String>>>) -> (found: Option<
    Vec<WordNetIdentifier>,
>)
    ensures
        found.deep_view() == identifiers_of(matches.deep_view()),
{
    let mut words: Vec<WordNetIdentifier> = Vec::new();
    let mut i: usize = 0;
    assert(matches.deep_view().take(0) =~= Seq::<Seq<Option<Seq<char>>>>::empty());
    assert(words.deep_view() =~= Seq::<WordNetIdentifierView>::empty());
    while i < matches.len()
        invariant
            i <= matches.len(),
            identifiers_of(matches.deep_view().take(i as int)) == Some(words.deep_view()),
        decreases matches.len() - i,
    {
        assert(matches.deep_view().take(i + 1).drop_last() == matches.deep_view().take(i as int));
        assert(matches.deep_view().take(i + 1).last() == matches[i as int].deep_view());
        match identifier_from_groups(&matches[i]) {
            Some(word) => {
                let ghost before = words.deep_view();
                words.push(word);
                assert(words.deep_view() =~= before.push(word@));
            },
            None => {
                proof {
                    lemma_unread_stays(matches.deep_view(), i + 1);
                }
                return None;
            },
        }
        i += 1;
    }
    assert(matches.deep_view().take(i as int) == matches.deep_view());
    Some(words)
}

/// The words that a list of words stands for: those of the matches of
/// [`WORD_PATTERN`] in it, where the pattern compiles.
pub open spec fn parsed_words(text: Seq<char>) -> Option<Seq<WordNetIdentifierView>> {
    if pattern_compiles(WORD_PATTERN@) {
        identifiers_of(all_matches(WORD_PATTERN@, text))
    } else {
        None
    }
}

/// The words of a list of words, each with its number.
pub fn parse_words(words_string: &str) -> (words: Option<Vec<WordNetIdentifier>>)
    ensures
        words.deep_view() == parsed_words(words_string@),
{
    match captures_iter(WORD_PATTERN, words_string) {
        Ok(matches) => identifiers_from_matches(&matches),
        Err(_) => None,
    }
}

/// The set of synonyms that the groups of a matched data line stand for,
/// with `words` for the words of its list.
pub open spec fn data_of(
    groups: Seq<Option<Seq<char>>>,
    words: Option<Seq<WordNetIdentifierView>>,
) -> Option<WordNetDataView> {
    match (
        group_text(groups, SYNSET_OFFSET as int),
        group_text(groups, SS_TYPE as int),
        group_text(groups, GLOSS as int),
        words,
    ) {
        (Some(synset_offset), Some(kind), Some(gloss), Some(words)) => match part_of(kind) {
            Some(ss_type) => Some(WordNetDataView { synset_offset, ss_type, words, gloss }),
            None => None,
        },
        _ => None,
    }
}

/// The set of synonyms that the groups of a matched data line stand for,
/// with `words` for the words of its list.
pub fn data_from_groups(
    groups: &Vec<Option<String>>,
    words: Option<Vec<WordNetIdentifier>>,
) -> (data: Option<WordNetData>)
    ensures
        data.deep_view() == data_of(groups.deep_view(), words.deep_view()),
{
    let synset_offset = match group(groups, SYNSET_OFFSET) {
        Some(text) => text,
        None => {
            return None;
        },
    };
    let kind = match group(groups, SS_TYPE) {
        Some(text) => text,
        None => {
            return None;
        },
    };
    let gloss = match group(groups, GLOSS) {
        Some(text) => text,
        None => {
            return None;
        },
    };
    let words = match words {
        Some(words) => words,
        None => {
            return None;
        },
    };
    match find_part(kind) {
        Some(ss_type) => Some(
            WordNetData {
                synset_offset: String::from_str(synset_offset),
                ss_type,
                words,
                gloss: String::from_str(gloss),
            },
        ),
        None => None,
    }
}

/// The set of synonyms that the text of a data line stands for: that of the
/// groups of [`DATA_PATTERN`] in it, where the pattern compiles and matches
/// and the line has a list of words.
pub open spec fn parsed_data(line: Seq<char>) -> Option<WordNetDataView> {
    if pattern_compiles(DATA_PATTERN@) {
        match first_match(DATA_PATTERN@, line) {
            Some(groups) => match group_text(groups, WORDS as int) {
                Some(list) => data_of(groups, parsed_words(list)),
                None => None,
            },
            None => None,
        }
    } else {
        None
    }
}

/// The set of synonyms that `line` stands for, if it stands for one.
pub fn parse_wordnet_data(line: &str) -> (data: Option<WordNetData>)
    ensures
        data.deep_view() == parsed_data(line@),
{
    match captures(DATA_PATTERN, line) {
        Ok(Some(groups)) => match group(&groups, WORDS) {
            Some(list) => {
                let words = parse_words(list);
                data_from_groups(&groups, words)
            },
            None => None,
        },
        _ => None,
    }
}

} // verus!
