//! The dictionaries of prefixes, stems and suffixes, and the reading of one
//! from the lines of its file.
use crate::pattern::{captures, first_match, group, group_text, pattern_compiles, InvalidPattern};
use crate::strings::{
    chars_of, count, has_prefix, lemma_split_len, outside, split, split_on, without,
};
use vstd::hash_map::StringHashMap;
use vstd::hash_set::StringHashSet;
use vstd::prelude::*;

verus! {

/// One reading of a surface form.
#[derive(Debug, PartialEq, Eq)]
pub struct Entry {
    /// The surface form, as it is met in a word.
    pub entry: String,
    /// The vocalized form.
    pub vocabulary: String,
    /// The category code, by which the compatibility tables are asked.
    pub category: String,
    pub gloss: String,
    /// The part of speech.
    pub pos: String,
    /// The lemma in whose scope the entry stands, if any.
    pub lemma: Option<String>,
}

/// An [`Entry`] as plain text.
pub struct EntryView {
    pub entry: Seq<char>,
    pub vocabulary: Seq<char>,
    pub category: Seq<char>,
    pub gloss: Seq<char>,
    pub pos: Seq<char>,
    pub lemma: Option<Seq<char>>,
}

impl View for Entry {
    type V = EntryView;

    open spec fn view(&self) -> EntryView {
        EntryView {
            entry: self.entry@,
            vocabulary: self.vocabulary@,
            category: self.category@,
            gloss: self.gloss@,
            pos: self.pos@,
            lemma: self.lemma.deep_view(),
        }
    }
}

impl DeepView for Entry {
    type V = EntryView;

    open spec fn deep_view(&self) -> EntryView {
        self@
    }
}

impl Clone for Entry {
    fn clone(&self) -> (copy: Self)
        ensures
            copy@ == self@,
    {
        Entry {
            entry: self.entry.clone(),
            vocabulary: self.vocabulary.clone(),
            category: self.category.clone(),
            gloss: self.gloss.clone(),
            pos: self.pos.clone(),
            lemma: match &self.lemma {
                Some(id) => Some(id.clone()),
                None => None,
            },
        }
    }
}

/// The entries that `index` holds under `key`: none where it has no such key.
pub open spec fn bucket(index: Map<Seq<char>, Seq<EntryView>>, key: Seq<char>) -> Seq<EntryView> {
    if index.contains_key(key) {
        index[key]
    } else {
        Seq::empty()
    }
}

/// `index` with `entry` added behind the entries of its own surface form.
pub open spec fn appended(index: Map<Seq<char>, Seq<EntryView>>, entry: EntryView) -> Map<
    Seq<char>,
    Seq<EntryView>,
> {
    index.insert(entry.entry, bucket(index, entry.entry).push(entry))
}

/// Whether each entry of `index` stands under its own surface form, and no
/// key stands without an entry.
pub open spec fn is_keyed(index: Map<Seq<char>, Seq<EntryView>>) -> bool {
    forall|key: Seq<char>| #[trigger]
        index.contains_key(key) ==> index[key].len() > 0 && forall|i: int|
            0 <= i < index[key].len() ==> (#[trigger] index[key][i]).entry == key
}

/// The entries of one dictionary, found by surface form. Each entry stands
/// under its own surface form. Under one surface form the entries stand in
/// the order in which they were added; none is ever replaced or taken out.
pub struct DictionaryIndex {
    map: StringHashMap<Vec<Entry>>,
}

impl View for DictionaryIndex {
    type V = Map<Seq<char>, Seq<EntryView>>;

    closed spec fn view(&self) -> Self::V {
        Map::new(
            |key: Seq<char>| self.map@.contains_key(key),
            |key: Seq<char>| self.map@[key].deep_view(),
        )
    }
}

impl DictionaryIndex {
    #[verifier::type_invariant]
    spec fn keyed(self) -> bool {
        is_keyed(self@)
    }

    /// An index without entries.
    pub fn new() -> (index: Self)
        ensures
            index@ == Map::<Seq<char>, Seq<EntryView>>::empty(),
    {
        let index = DictionaryIndex { map: StringHashMap::new() };
        assert(index@ =~= Map::<Seq<char>, Seq<EntryView>>::empty());
        index
    }

    /// Whether any entry has the surface form `key`.
    pub fn contains_key(&self, key: &str) -> (found: bool)
        ensures
            found == self@.contains_key(key@),
            is_keyed(self@),
    {
        proof {
            use_type_invariant(self);
        }
        self.map.contains_key(key)
    }

    /// The entries of surface form `key`, in the order in which they were added.
    pub fn get(&self, key: &str) -> (found: Option<&Vec<Entry>>)
        ensures
            match found {
                Some(entries) => self@.contains_key(key@) && entries.deep_view() == self@[key@],
                None => !self@.contains_key(key@),
            },
            is_keyed(self@),
    {
        proof {
            use_type_invariant(self);
        }
        self.map.get(key)
    }

    /// Adds `entry` behind the entries of its surface form.
    pub fn add(&mut self, entry: Entry)
        ensures
            final(self)@ == appended(old(self)@, entry@),
    {
        proof {
            use_type_invariant(&*self);
        }
        let mut entries: Vec<Entry> = Vec::new();
        match self.map.get(entry.entry.as_str()) {
            Some(present) => {
                let mut i: usize = 0;
                while i < present.len()
                    invariant
                        i <= present.len(),
                        entries.deep_view() == present.deep_view().take(i as int),
                    decreases present.len() - i,
                {
                    let ghost copied = entries.deep_view();
                    entries.push(present[i].clone());
                    assert(entries.deep_view() =~= copied.push(present[i as int]@));
                    assert(present.deep_view().take(i + 1) =~= copied.push(present[i as int]@));
                    i += 1;
                }
                assert(entries.deep_view() =~= present.deep_view());
            },
            None => {
                assert(entries.deep_view() =~= Seq::<EntryView>::empty());
            },
        }
        assert(entries.deep_view() == bucket(old(self)@, entry@.entry));
        let key = entry.entry.clone();
        let ghost before = entries.deep_view();
        entries.push(entry);
        assert(entries.deep_view() =~= before.push(entry@));
        let mut map = StringHashMap::new();
        core::mem::swap(&mut self.map, &mut map);
        map.insert(key, entries);
        proof {
            lemma_appended_keyed(old(self)@, entry@);
            assert(Map::new(
                |key: Seq<char>| map@.contains_key(key),
                |key: Seq<char>| map@[key].deep_view(),
            ) =~= appended(old(self)@, entry@));
        }
        core::mem::swap(&mut self.map, &mut map);
        assert(self@ =~= appended(old(self)@, entry@));
    }
}

/// An entry added to its own surface form leaves each entry under its own.
pub proof fn lemma_appended_keyed(index: Map<Seq<char>, Seq<EntryView>>, entry: EntryView)
    requires
        is_keyed(index),
    ensures
        is_keyed(appended(index, entry)),
{
    let after = appended(index, entry);
    assert forall|key: Seq<char>| #[trigger] after.contains_key(key) implies after[key].len() > 0
        && forall|i: int| 0 <= i < after[key].len() ==> (#[trigger] after[key][i]).entry == key by {
        if key != entry.entry {
            assert(index.contains_key(key));
        } else if index.contains_key(key) {
            assert(index[key].len() > 0);
        }
    }
}

/// The three dictionaries that an analysis asks.
pub struct Dicts {
    pub prefixes: DictionaryIndex,
    pub stems: DictionaryIndex,
    pub suffixes: DictionaryIndex,
}

/// Whether `line` opens the scope of a lemma: it begins with `;;`.
pub open spec fn is_lemma_line(line: Seq<char>) -> bool {
    ";;"@.is_prefix_of(line)
}

/// The lemma whose scope `line` opens: what follows the two characters of
/// the mark, as it stands.
pub open spec fn lemma_id(line: Seq<char>) -> Seq<char> {
    line.skip(2)
}

/// Whether `line` begins with `;`. A line that opens a lemma's scope does so
/// too; it is no comment.
pub open spec fn is_comment_line(line: Seq<char>) -> bool {
    ";"@.is_prefix_of(line)
}

/// Whether `line` opens the scope of a lemma.
pub fn is_lemma_definition(line: &String) -> (b: bool)
    ensures
        b == is_lemma_line(line@),
{
    has_prefix(line.as_str(), ";;")
}

/// Whether `line` begins with the mark of a comment.
pub fn is_comment(line: &String) -> (b: bool)
    ensures
        b == is_comment_line(line@),
{
    has_prefix(line.as_str(), ";")
}

/// The gloss as the dictionary keeps it: the field as it stands in the file.
pub fn clean_gloss(gloss: String) -> (cleaned: String)
    ensures
        cleaned@ == gloss@,
{
    gloss
}

/// `text` without the kashida, the stroke that lengthens a word in writing.
pub fn remove_kashida(text: &String) -> (bare: String)
    ensures
        bare@ == text@.filter(outside('\u{0640}', '\u{0640}')),
{
    without(text.as_str(), '\u{0640}', '\u{0640}')
}

/// `text` without the marks of short vowels, from fathatan to sukun.
#[allow(non_snake_case)]
pub fn remove_fatHatAn(text: &String) -> (bare: String)
    ensures
        bare@ == text@.filter(outside('\u{064B}', '\u{0652}')),
{
    without(text.as_str(), '\u{064B}', '\u{0652}')
}

/// The pattern of a part of speech that a gloss field carries in itself.
pub const POS_PATTERN: &'static str = "<pos>(.+)</pos>";

/// The part of speech that a gloss field carries in itself, as the search for
/// [`POS_PATTERN`] in it gave it: the text of the pattern's one group.
pub open spec fn tag_of(found: Option<Seq<Option<Seq<char>>>>) -> Option<Seq<char>> {
    match found {
        Some(groups) => group_text(groups, 1),
        None => None,
    }
}

/// Whether `text` begins with a capital letter of ASCII.
pub open spec fn starts_uppercase(text: Seq<char>) -> bool {
    text.len() > 0 && 'A' <= text[0] && text[0] <= 'Z'
}

/// The part of speech that follows from the category code alone, for an entry
/// whose gloss field carries none: the first of these that fits.
///
/// - a category of the empty prefix or suffix: no part of speech, the empty text;
/// - a function word, a verb (imperfect, perfect, imperative): the vocalized
///   form, then the name of the class;
/// - a noun: a proper noun where the vocalized form begins with a capital
///   letter, a common noun otherwise.
///
/// `None` where no case fits.
pub open spec fn deduced_pos(category: Seq<char>, vocabulary: Seq<char>) -> Option<Seq<char>> {
    if "Pref-0"@.is_prefix_of(category) || "Suff-0"@.is_prefix_of(category) {
        Some(Seq::empty())
    } else if "F"@.is_prefix_of(category) {
        Some(vocabulary + "/FUNC_WORD"@)
    } else if "IV"@.is_prefix_of(category) {
        Some(vocabulary + "/VERB_IMPERFECT"@)
    } else if "PV"@.is_prefix_of(category) {
        Some(vocabulary + "/VERB_PERFECT"@)
    } else if "CV"@.is_prefix_of(category) {
        Some(vocabulary + "/VERB_IMPERATIVE"@)
    } else if "N"@.is_prefix_of(category) {
        if starts_uppercase(vocabulary) {
            Some(vocabulary + "/NOUN_PROP"@)
        } else {
            Some(vocabulary + "/NOUN"@)
        }
    } else {
        None
    }
}

/// The part of speech of an entry: what its gloss field carries, or else what
/// follows from its category.
pub open spec fn resolved_pos(
    tag: Option<Seq<char>>,
    category: Seq<char>,
    vocabulary: Seq<char>,
) -> Option<Seq<char>> {
    match tag {
        Some(text) => Some(text),
        None => deduced_pos(category, vocabulary),
    }
}

/// Why a line could not be taken into a dictionary.
#[derive(Debug, PartialEq, Eq, Clone, Copy)]
pub enum LineError {
    /// The line has not exactly four fields.
    Malformed,
    /// The line opens the scope of a lemma that an earlier line opened.
    DuplicateLemma,
    /// The gloss field carries no part of speech and the category gives none.
    NoPartOfSpeech,
    /// [`POS_PATTERN`] did not compile.
    BadPattern,
}

/// Why a dictionary could not be read, and at which line, counted from 0.
#[derive(Debug, PartialEq, Eq, Clone, Copy)]
pub struct LoadError {
    pub line: usize,
    pub cause: LineError,
}

/// The entry that a data line stands for, within the scope of `lemma`.
pub open spec fn parsed_entry(line: Seq<char>, lemma: Option<Seq<char>>) -> Result<
    EntryView,
    LineError,
> {
    let fields = split(line, '\t');
    if fields.len() != 4 {
        Err(LineError::Malformed)
    } else if !pattern_compiles(POS_PATTERN@) {
        Err(LineError::BadPattern)
    } else {
        match resolved_pos(tag_of(first_match(POS_PATTERN@, fields[3])), fields[2], fields[1]) {
            Some(pos) => Ok(
                EntryView {
                    entry: fields[0],
                    vocabulary: fields[1],
                    category: fields[2],
                    gloss: fields[3],
                    pos,
                    lemma,
                },
            ),
            None => Err(LineError::NoPartOfSpeech),
        }
    }
}

/// What a reader of a dictionary file knows between two lines.
pub struct LoadState {
    /// The entries read so far.
    pub index: DictionaryIndex,
    /// The lemma whose scope is open, if any.
    pub lemma: Option<String>,
    /// The lemmas whose scope was opened so far.
    pub seen: StringHashSet,
}

/// A [`LoadState`] as plain values.
pub struct LoadStateView {
    pub index: Map<Seq<char>, Seq<EntryView>>,
    pub lemma: Option<Seq<char>>,
    pub seen: Set<Seq<char>>,
}

impl View for LoadState {
    type V = LoadStateView;

    open spec fn view(&self) -> LoadStateView {
        LoadStateView { index: self.index@, lemma: self.lemma.deep_view(), seen: self.seen@ }
    }
}

/// The state before the first line.
pub open spec fn initial_state() -> LoadStateView {
    LoadStateView { index: Map::empty(), lemma: None, seen: Set::empty() }
}

/// The state after `line`, read in `state`.
///
/// - A line that opens a lemma's scope names the lemma. A name that was seen
///   before is an error; a new one becomes the open scope.
/// - A comment changes nothing.
/// - Any other line is a data line: its entry is added to the index.
pub open spec fn after_line(state: LoadStateView, line: Seq<char>) -> Result<
    LoadStateView,
    LineError,
> {
    if is_lemma_line(line) {
        let id = lemma_id(line);
        if state.seen.contains(id) {
            Err(LineError::DuplicateLemma)
        } else {
            Ok(LoadStateView { index: state.index, lemma: Some(id), seen: state.seen.insert(id) })
        }
    } else if is_comment_line(line) {
        Ok(state)
    } else {
        match parsed_entry(line, state.lemma) {
            Ok(entry) => Ok(
                LoadStateView {
                    index: appended(state.index, entry),
                    lemma: state.lemma,
                    seen: state.seen,
                },
            ),
            Err(cause) => Err(cause),
        }
    }
}

/// The state after all of `lines`, or the first error among them.
pub open spec fn after_lines(lines: Seq<Seq<char>>) -> Result<LoadStateView, LoadError>
    decreases lines.len(),
{
    if lines.len() == 0 {
        Ok(initial_state())
    } else {
        match after_lines(lines.drop_last()) {
            Ok(state) => match after_line(state, lines.last()) {
                Ok(next) => Ok(next),
                Err(cause) => Err(LoadError { line: (lines.len() - 1) as usize, cause }),
            },
            Err(error) => Err(error),
        }
    }
}

/// The part of speech that follows from the category code alone.
pub fn deduce_pos(category: &str, vocabulary: &str) -> (pos: Option<String>)
    ensures
        pos.deep_view() == deduced_pos(category@, vocabulary@),
{
    if has_prefix(category, "Pref-0") || has_prefix(category, "Suff-0") {
        Some(String::new())
    } else if has_prefix(category, "F") {
        Some(String::from_str(vocabulary).concat("/FUNC_WORD"))
    } else if has_prefix(category, "IV") {
        Some(String::from_str(vocabulary).concat("/VERB_IMPERFECT"))
    } else if has_prefix(category, "PV") {
        Some(String::from_str(vocabulary).concat("/VERB_PERFECT"))
    } else if has_prefix(category, "CV") {
        Some(String::from_str(vocabulary).concat("/VERB_IMPERATIVE"))
    } else if has_prefix(category, "N") {
        let letters = chars_of(vocabulary);
        if letters.len() > 0 && 'A' <= letters[0] && letters[0] <= 'Z' {
            Some(String::from_str(vocabulary).concat("/NOUN_PROP"))
        } else {
            Some(String::from_str(vocabulary).concat("/NOUN"))
        }
    } else {
        None
    }
}

/// The part of speech of an entry whose gloss field carries `tag`.
pub fn resolve_pos(tag: Option<&str>, category: &str, vocabulary: &str) -> (pos: Option<String>)
    ensures
        pos.deep_view() == resolved_pos(tag.deep_view(), category@, vocabulary@),
{
    match tag {
        Some(text) => Some(String::from_str(text)),
        None => deduce_pos(category, vocabulary),
    }
}

/// The part of speech that `gloss` carries in itself, if it carries one.
pub fn pos_tag(gloss: &str) -> (tag: Result<Option<String>, InvalidPattern>)
    ensures
        tag is Ok <==> pattern_compiles(POS_PATTERN@),
        tag matches Ok(text) ==> text.deep_view() == tag_of(first_match(POS_PATTERN@, gloss@)),
{
    match captures(POS_PATTERN, gloss) {
        Ok(Some(groups)) => match group(&groups, 1) {
            Some(text) => Ok(Some(String::from_str(text))),
            None => Ok(None),
        },
        Ok(None) => Ok(None),
        Err(error) => Err(error),
    }
}

/// The entry that the data line `line` stands for, within the scope of `lemma`.
pub fn parse_entry(line: &str, lemma: &Option<String>) -> (parsed: Result<Entry, LineError>)
    ensures
        match parsed_entry(line@, lemma.deep_view()) {
            Ok(entry) => parsed matches Ok(made) && made@ == entry,
            Err(cause) => parsed matches Err(given) && given == cause,
        },
{
    let fields = split_on(line, '\t');
    if fields.len() != 4 {
        return Err(LineError::Malformed);
    }
    assert(fields.deep_view()[3] == fields[3]@);
    assert(fields.deep_view()[2] == fields[2]@);
    assert(fields.deep_view()[1] == fields[1]@);
    assert(fields.deep_view()[0] == fields[0]@);
    let tag = match pos_tag(fields[3].as_str()) {
        Ok(tag) => tag,
        Err(_) => {
            return Err(LineError::BadPattern);
        },
    };
    let tag_text: Option<&str> = match &tag {
        Some(text) => Some(text.as_str()),
        None => None,
    };
    let pos = match resolve_pos(tag_text, fields[2].as_str(), fields[1].as_str()) {
        Some(pos) => pos,
        None => {
            return Err(LineError::NoPartOfSpeech);
        },
    };
    let gloss = clean_gloss(fields[3].clone());
    let category = fields[2].clone();
    let vocabulary = fields[1].clone();
    let entry = fields[0].clone();
    Ok(
        Entry {
            entry,
            vocabulary,
            category,
            gloss,
            pos,
            lemma: match lemma {
                Some(id) => Some(id.clone()),
                None => None,
            },
        },
    )
}

impl LoadState {
    /// The state before the first line.
    pub fn new() -> (state: Self)
        ensures
            state@ == initial_state(),
    {
        LoadState { index: DictionaryIndex::new(), lemma: None, seen: StringHashSet::new() }
    }

    /// Reads one line.
    pub fn step(self, line: &String) -> (stepped: Result<LoadState, LineError>)
        ensures
            match after_line(self@, line@) {
                Ok(next) => stepped matches Ok(state) && state@ == next,
                Err(cause) => stepped matches Err(given) && given == cause,
            },
    {
        let mut state = self;
        if is_lemma_definition(line) {
            proof {
                reveal_strlit(";;");
            }
            let length = line.as_str().unicode_len();
            let id = String::from_str(line.as_str().substring_char(2, length));
            if state.seen.contains(id.as_str()) {
                return Err(LineError::DuplicateLemma);
            }
            state.seen.insert(id.clone());
            state.lemma = Some(id);
            Ok(state)
        } else if is_comment(line) {
            Ok(state)
        } else {
            match parse_entry(line.as_str(), &state.lemma) {
                Ok(entry) => {
                    state.index.add(entry);
                    Ok(state)
                },
                Err(cause) => Err(cause),
            }
        }
    }
}

/// The states before the end of the lines can only fail as the whole does.
pub proof fn lemma_error_stays(lines: Seq<Seq<char>>, n: int)
    requires
        0 <= n <= lines.len(),
        after_lines(lines.take(n)) is Err,
    ensures
        after_lines(lines) == after_lines(lines.take(n)),
    decreases lines.len() - n,
{
    if n < lines.len() {
        assert(lines.take(n + 1).drop_last() == lines.take(n));
        lemma_error_stays(lines, n + 1);
    } else {
        assert(lines.take(n) == lines);
    }
}

/// Reads a dictionary from the lines of its file.
///
/// The lines are read in order, each in the state that the lines before it
/// left; the first line that cannot be read ends the reading, and is named
/// in the error. So a file is not read in which two lines open the scope of
/// one lemma, nor one with a data line that has not exactly three tabs; and
/// of a file that is read, each data line is found again as one entry under
/// its first field.
pub fn load_dictionary(lines: &Vec<String>) -> (loaded: Result<DictionaryIndex, LoadError>)
    ensures
        match after_lines(lines.deep_view()) {
            Ok(state) => loaded matches Ok(index) && index@ == state.index,
            Err(error) => loaded matches Err(given) && given == error,
        },
        has_duplicate_lemma(lines.deep_view()) ==> loaded is Err,
        has_malformed_line(lines.deep_view()) ==> loaded is Err,
        loaded matches Ok(index) ==> holds_data_lines(index@, lines.deep_view()),
{
    let mut state = LoadState::new();
    let mut i: usize = 0;
    assert(lines.deep_view().take(0) =~= Seq::<Seq<char>>::empty());
    while i < lines.len()
        invariant
            i <= lines.len(),
            after_lines(lines.deep_view().take(i as int)) == Ok::<LoadStateView, LoadError>(state@),
        decreases lines.len() - i,
    {
        assert(lines.deep_view().take(i + 1).drop_last() == lines.deep_view().take(i as int));
        assert(lines.deep_view().take(i + 1).last() == lines[i as int]@);
        match state.step(&lines[i]) {
            Ok(next) => {
                state = next;
            },
            Err(cause) => {
                proof {
                    lemma_error_stays(lines.deep_view(), i + 1);
                }
                return Err(LoadError { line: i, cause });
            },
        }
        i += 1;
    }
    proof {
        let all = lines.deep_view();
        assert(all.take(i as int) == all);
        assert(after_lines(all) == Ok::<LoadStateView, LoadError>(state@));
        if has_duplicate_lemma(all) {
            let (a, b) = choose|a: int, b: int| duplicate_lemma_at(all, a, b);
            lemma_duplicate_lemma_fails(all, a, b);
        }
        if has_malformed_line(all) {
            let at = choose|at: int| malformed_line_at(all, at);
            lemma_malformed_line_fails(all, at);
        }
        assert forall|key: Seq<char>| holds_data_lines_of(state.index@, all, key) by {
            lemma_load_round_trip(all, key);
            assert(after_lines(all)->Ok_0.index == state.index@);
        }
        assert(holds_data_lines(state.index@, all));
    }
    Ok(state.index)
}

/// Whether the lines at `i` and, behind it, at `j` open the scope of one lemma.
pub open spec fn duplicate_lemma_at(lines: Seq<Seq<char>>, i: int, j: int) -> bool {
    &&& 0 <= i < j < lines.len()
    &&& is_lemma_line(lines[i])
    &&& is_lemma_line(lines[j])
    &&& lemma_id(lines[i]) == lemma_id(lines[j])
}

/// Whether two of `lines` open the scope of one lemma.
pub open spec fn has_duplicate_lemma(lines: Seq<Seq<char>>) -> bool {
    exists|i: int, j: int| duplicate_lemma_at(lines, i, j)
}

/// Whether the line at `i` is a data line with fewer or more than three tabs.
pub open spec fn malformed_line_at(lines: Seq<Seq<char>>, i: int) -> bool {
    0 <= i < lines.len() && is_data_line(lines[i]) && count(lines[i], '\t') != 3
}

/// Whether one of `lines` is a data line with fewer or more than three tabs.
pub open spec fn has_malformed_line(lines: Seq<Seq<char>>) -> bool {
    exists|i: int| malformed_line_at(lines, i)
}

/// Whether the entries that `index` holds under `key` are, one for one and in
/// the order of the file, the data lines among `lines` whose first field is
/// `key`, each entry with the four fields of its line.
pub open spec fn holds_data_lines_of(
    index: Map<Seq<char>, Seq<EntryView>>,
    lines: Seq<Seq<char>>,
    key: Seq<char>,
) -> bool {
    &&& bucket(index, key).len() == data_lines_of(lines, key).len()
    &&& forall|i: int|
        0 <= i < data_lines_of(lines, key).len() ==> split(
            #[trigger] data_lines_of(lines, key)[i],
            '\t',
        ) == ({
            let entry = bucket(index, key)[i];
            seq![entry.entry, entry.vocabulary, entry.category, entry.gloss]
        })
}

/// Whether each data line among `lines` is found in `index` as exactly one
/// entry, under its first field.
pub open spec fn holds_data_lines(
    index: Map<Seq<char>, Seq<EntryView>>,
    lines: Seq<Seq<char>>,
) -> bool {
    forall|key: Seq<char>| holds_data_lines_of(index, lines, key)
}

/// Whether `line` is a data line: one that neither opens a lemma's scope nor
/// is a comment.
pub open spec fn is_data_line(line: Seq<char>) -> bool {
    !is_lemma_line(line) && !is_comment_line(line)
}

/// Whether a line is a data line whose first field is `key`.
pub open spec fn has_surface(key: Seq<char>) -> spec_fn(Seq<char>) -> bool {
    |line: Seq<char>| is_data_line(line) && split(line, '\t')[0] == key
}

/// The data lines among `lines` whose first field is `key`, in their order.
pub open spec fn data_lines_of(lines: Seq<Seq<char>>, key: Seq<char>) -> Seq<Seq<char>> {
    lines.filter(has_surface(key))
}

/// Where a file is read without error, each of its data lines has given
/// exactly one entry, which is found under the line's first field: the
/// entries under a surface form are, one for one and in the order of the
/// file, the data lines that begin with it, and each entry holds the four
/// fields of its line.
pub proof fn lemma_load_round_trip(lines: Seq<Seq<char>>, key: Seq<char>)
    requires
        after_lines(lines) is Ok,
    ensures
        holds_data_lines_of(after_lines(lines)->Ok_0.index, lines, key),
    decreases lines.len(),
{
    let of_key = has_surface(key);
    if lines.len() == 0 {
        lines.lemma_filter_len(of_key);
    } else {
        let front = lines.drop_last();
        let line = lines.last();
        lemma_load_round_trip(front, key);
        assert(lines == front.push(line));
        front.lemma_filter_push(line, of_key);
        let before = after_lines(front)->Ok_0;
        if is_data_line(line) {
            let entry = parsed_entry(line, before.lemma)->Ok_0;
            assert(split(line, '\t') =~= seq![
                entry.entry,
                entry.vocabulary,
                entry.category,
                entry.gloss,
            ]);
        }
    }
}

/// While a file is read without error, the lemma of each line that opened a
/// scope is kept as seen.
pub proof fn lemma_lemmas_are_seen(lines: Seq<Seq<char>>, i: int)
    requires
        0 <= i < lines.len(),
        is_lemma_line(lines[i]),
        after_lines(lines) is Ok,
    ensures
        after_lines(lines)->Ok_0.seen.contains(lemma_id(lines[i])),
    decreases lines.len(),
{
    if i < lines.len() - 1 {
        lemma_lemmas_are_seen(lines.drop_last(), i);
    }
}

/// A file in which two lines open the scope of one lemma is not read: the
/// reading ends in an error.
pub proof fn lemma_duplicate_lemma_fails(lines: Seq<Seq<char>>, i: int, j: int)
    requires
        duplicate_lemma_at(lines, i, j),
    ensures
        after_lines(lines) is Err,
{
    let upto = lines.take(j + 1);
    assert(upto.drop_last() == lines.take(j));
    if after_lines(lines.take(j)) is Ok {
        lemma_lemmas_are_seen(lines.take(j), i);
    }
    assert(after_lines(upto) is Err);
    lemma_error_stays(lines, j + 1);
}

/// A file with a data line that holds fewer or more than three tabs is not
/// read: the reading ends in an error.
pub proof fn lemma_malformed_line_fails(lines: Seq<Seq<char>>, i: int)
    requires
        malformed_line_at(lines, i),
    ensures
        after_lines(lines) is Err,
{
    let upto = lines.take(i + 1);
    assert(upto.drop_last() == lines.take(i));
    lemma_split_len(lines[i], '\t');
    assert(after_lines(upto) is Err);
    lemma_error_stays(lines, i + 1);
}

} // verus!
