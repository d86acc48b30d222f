//! The lines of a multilingual sense dictionary: a lemma, a definition or an
//! example of one sense in one language.
use crate::pattern::{captures, first_match, group, group_text, pattern_compiles};
use crate::strings::{chars_of, has_prefix, same};
use crate::wn::pos::{find_part, part_of, Part};
use vstd::prelude::*;

verus! {

#[derive(Debug, PartialEq)]
pub struct Lemma {
    pub language: String,
    pub offset: String,
    pub pos: Part,
    pub lemma: String,
}

#[derive(Debug, PartialEq)]
pub struct Definition {
    pub language: String,
    pub offset: String,
    pub pos: Part,
    pub sid: i8,
    pub definition: String,
}

#[derive(Debug, PartialEq)]
pub struct Example {
    pub language: String,
    pub offset: String,
    pub pos: Part,
    pub example: String,
}

#[derive(Debug, PartialEq)]
pub enum Entry {
    Definition(Definition),
    Example(Example),
    Lemma(Lemma),
}

/// An [`Entry`] as plain values.
pub enum EntryView {
    Definition {
        language: Seq<char>,
        offset: Seq<char>,
        pos: Part,
        sid: i8,
        definition: Seq<char>,
    },
    Example { language: Seq<char>, offset: Seq<char>, pos: Part, example: Seq<char> },
    Lemma { language: Seq<char>, offset: Seq<char>, pos: Part, lemma: Seq<char> },
}

impl View for Entry {
    type V = EntryView;

    open spec fn view(&self) -> EntryView {
        match self {
            Entry::Definition(d) => EntryView::Definition {
                language: d.language@,
                offset: d.offset@,
                pos: d.pos,
                sid: d.sid,
                definition: d.definition@,
            },
            Entry::Example(e) => EntryView::Example {
                language: e.language@,
                offset: e.offset@,
                pos: e.pos,
                example: e.example@,
            },
            Entry::Lemma(l) => EntryView::Lemma {
                language: l.language@,
                offset: l.offset@,
                pos: l.pos,
                lemma: l.lemma@,
            },
        }
    }
}

impl DeepView for Entry {
    type V = EntryView;

    open spec fn deep_view(&self) -> EntryView {
        self@
    }
}

/// The pattern of a line: the sense's offset and part of speech, the
/// language, the kind of line, a sense number where there is one, and the
/// content.
pub const LINE_PATTERN: &'static str =
    r"^(?P<offset>\d{8})-(?P<pos>[nvars])\s(?P<language>\w{3}):(?P<type>lemma|def|exe)\s((?P<sid>\d{1})\s)?(?P<content>.+)\s*$";

/// The group of [`LINE_PATTERN`] that holds the offset.
pub const OFFSET: usize = 1;

/// The group of [`LINE_PATTERN`] that holds the part of speech.
pub const POS: usize = 2;

/// The group of [`LINE_PATTERN`] that holds the language.
pub const LANGUAGE: usize = 3;

/// The group of [`LINE_PATTERN`] that holds the kind of line.
pub const KIND: usize = 4;

/// The group of [`LINE_PATTERN`] that holds the sense number.
pub const SID: usize = 6;

/// The group of [`LINE_PATTERN`] that holds the content.
pub const CONTENT: usize = 7;

/// The number that `text` stands for, where it is one decimal digit of ASCII.
pub open spec fn digit_of(text: Seq<char>) -> Option<i8> {
    if text.len() == 1 && '0' <= text[0] && text[0] <= '9' {
        Some((text[0] as int - '0' as int) as i8)
    } else {
        None
    }
}

/// The entry that the groups of a matched line stand for.
///
/// There is none where offset, part of speech, language, kind or content took
/// no part in the match, where the part of speech or the kind is not a known
/// one, or where a definition comes without a sense number of one digit.
pub open spec fn entry_of(groups: Seq<Option<Seq<char>>>) -> Option<EntryView> {
    if group_text(groups, OFFSET as int) is None || group_text(groups, POS as int) is None
        || group_text(groups, LANGUAGE as int) is None || group_text(groups, KIND as int) is None
        || group_text(groups, CONTENT as int) is None {
        None
    } else {
        let offset = group_text(groups, OFFSET as int)->0;
        let language = group_text(groups, LANGUAGE as int)->0;
        let kind = group_text(groups, KIND as int)->0;
        let content = group_text(groups, CONTENT as int)->0;
        match part_of(group_text(groups, POS as int)->0) {
            Some(pos) => if kind == "lemma"@ {
                Some(EntryView::Lemma { language, offset, pos, lemma: content })
            } else if kind == "def"@ {
                match group_text(groups, SID as int) {
                    Some(number) => match digit_of(number) {
                        Some(sid) => Some(
                            EntryView::Definition {
                                language,
                                offset,
                                pos,
                                sid,
                                definition: content,
                            },
                        ),
                        None => None,
                    },
                    None => None,
                }
            } else if kind == "exe"@ {
                Some(EntryView::Example { language, offset, pos, example: content })
            } else {
                None
            },
            None => None,
        }
    }
}

/// The number that `text` stands for, where it is one decimal digit of ASCII.
pub fn parse_digit(text: &str) -> (number: Option<i8>)
    ensures
        number == digit_of(text@),
{
    let digits = chars_of(text);
    if digits.len() == 1 && '0' <= digits[0] && digits[0] <= '9' {
        let value: u32 = digits[0] as u32 - '0' as u32;
        Some(value as i8)
    } else {
        None
    }
}

/// The entry that the groups of a matched line stand for.
pub fn entry_from_groups(groups: &Vec<Option<String>>) -> (entry: Option<Entry>)
    ensures
        entry.deep_view() == entry_of(groups.deep_view()),
{
    let offset = match group(groups, OFFSET) {
        Some(text) => text,
        None => {
            return None;
        },
    };
    let pos = match group(groups, POS) {
        Some(text) => text,
        None => {
            return None;
        },
    };
    let language = match group(groups, LANGUAGE) {
        Some(text) => text,
        None => {
            return None;
        },
    };
    let kind = match group(groups, KIND) {
        Some(text) => text,
        None => {
            return None;
        },
    };
    let content = match group(groups, CONTENT) {
        Some(text) => text,
        None => {
            return None;
        },
    };
    let pos = match find_part(pos) {
        Some(part) => part,
        None => {
            return None;
        },
    };
    if same(kind, "lemma") {
        Some(
            Entry::Lemma(
                Lemma {
                    language: String::from_str(language),
                    offset: String::from_str(offset),
                    pos,
                    lemma: String::from_str(content),
                },
            ),
        )
    } else if same(kind, "def") {
        let sid = match group(groups, SID) {
            Some(number) => match parse_digit(number) {
                Some(sid) => sid,
                None => {
                    return None;
                },
            },
            None => {
                return None;
            },
        };
        Some(
            Entry::Definition(
                Definition {
                    language: String::from_str(language),
                    offset: String::from_str(offset),
                    pos,
                    sid,
                    definition: String::from_str(content),
                },
            ),
        )
    } else if same(kind, "exe") {
        Some(
            Entry::Example(
                Example {
                    language: String::from_str(language),
                    offset: String::from_str(offset),
                    pos,
                    example: String::from_str(content),
                },
            ),
        )
    } else {
        None
    }
}

/// The entry that the text of a line stands for: that of the groups of
/// [`LINE_PATTERN`] in it, where the pattern compiles and matches.
pub open spec fn parsed_line(line: Seq<char>) -> Option<EntryView> {
    if pattern_compiles(LINE_PATTERN@) {
        match first_match(LINE_PATTERN@, line) {
            Some(groups) => entry_of(groups),
            None => None,
        }
    } else {
        None
    }
}

/// The entry that `line` stands for, if it stands for one.
pub fn parse_multilingual_wordnet_line(line: &str) -> (entry: Option<Entry>)
    ensures
        entry.deep_view() == parsed_line(line@),
{
    match captures(LINE_PATTERN, line) {
        Ok(Some(groups)) => entry_from_groups(&groups),
        _ => None,
    }
}

/// Whether `line` is a comment: it begins with `#`.
pub open spec fn is_comment_line(line: Seq<char>) -> bool {
    "#"@.is_prefix_of(line)
}

/// The entries of `lines`, in their order, comments left out; nothing where
/// one of the other lines stands for no entry.
pub open spec fn parsed_lines(lines: Seq<Seq<char>>) -> Option<Seq<EntryView>>
    decreases lines.len(),
{
    if lines.len() == 0 {
        Some(Seq::empty())
    } else {
        match parsed_lines(lines.drop_last()) {
            Some(entries) => if is_comment_line(lines.last()) {
                Some(entries)
            } else {
                match parsed_line(lines.last()) {
                    Some(entry) => Some(entries.push(entry)),
                    None => None,
                }
            },
            None => None,
        }
    }
}

/// Once the lines read so far stand for no entries, no more lines mend it.
pub proof fn lemma_unparsed_stays(lines: Seq<Seq<char>>, n: int)
    requires
        0 <= n <= lines.len(),
        parsed_lines(lines.take(n)) is None,
    ensures
        parsed_lines(lines) is None,
    decreases lines.len() - n,
{
    if n < lines.len() {
        assert(lines.take(n + 1).drop_last() == lines.take(n));
        lemma_unparsed_stays(lines, n + 1);
    } else {
        assert(lines.take(n) == lines);
    }
}

/// The entries of the lines of a file, comments left out.
pub fn parse_multilingual_wordnet_file(lines: &Vec<String>) -> (entries: Option<Vec<Entry>>)
    ensures
        entries.deep_view() == parsed_lines(lines.deep_view()),
{
    let mut entries: Vec<Entry> = Vec::new();
    let mut i: usize = 0;
    assert(lines.deep_view().take(0) =~= Seq::<Seq<char>>::empty());
    assert(entries.deep_view() =~= Seq::<EntryView>::empty());
    while i < lines.len()
        invariant
            i <= lines.len(),
            parsed_lines(lines.deep_view().take(i as int)) == Some(entries.deep_view()),
        decreases lines.len() - i,
    {
        assert(lines.deep_view().take(i + 1).drop_last() == lines.deep_view().take(i as int));
        assert(lines.deep_view().take(i + 1).last() == lines[i as int]@);
        if !has_prefix(lines[i].as_str(), "#") {
            match parse_multilingual_wordnet_line(lines[i].as_str()) {
                Some(entry) => {
                    let ghost before = entries.deep_view();
                    entries.push(entry);
                    assert(entries.deep_view() =~= before.push(entry@));
                },
                None => {
                    proof {
                        lemma_unparsed_stays(lines.deep_view(), i + 1);
                    }
                    return None;
                },
            }
        }
        i += 1;
    }
    assert(lines.deep_view().take(i as int) == lines.deep_view());
    Some(entries)
}

} // verus!
