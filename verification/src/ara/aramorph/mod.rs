//! Analysis of a word: every way to cut it into prefix, stem and suffix that
//! the dictionaries know and the compatibility tables allow.
use crate::ara::aramorph::dict::{bucket, is_keyed, Dicts, Entry, EntryView};
use crate::ara::aramorph::table::Tables;
use crate::sequences::{lemma_flat_map_holds, lemma_flat_map_index};
use vstd::prelude::*;

pub mod dict;
pub mod table;

verus! {

/// The longest prefix that a word is cut into, in characters.
pub const MAX_PREFIX: usize = 4;

/// The longest suffix that a word is cut into, in characters.
pub const MAX_SUFFIX: usize = 6;

/// A word cut into prefix, stem and suffix.
#[derive(Debug, PartialEq, Eq)]
pub struct SegmentedWord {
    pub prefix: String,
    pub stem: String,
    pub suffix: String,
}

/// A [`SegmentedWord`] as plain text.
pub struct Segmentation {
    pub prefix: Seq<char>,
    pub stem: Seq<char>,
    pub suffix: Seq<char>,
}

impl View for SegmentedWord {
    type V = Segmentation;

    open spec fn view(&self) -> Segmentation {
        Segmentation { prefix: self.prefix@, stem: self.stem@, suffix: self.suffix@ }
    }
}

impl DeepView for SegmentedWord {
    type V = Segmentation;

    open spec fn deep_view(&self) -> Segmentation {
        self@
    }
}

/// `word` cut behind its first `p` and before its last `s` characters.
pub open spec fn cut(word: Seq<char>, p: int, s: int) -> Segmentation {
    Segmentation {
        prefix: word.subrange(0, p),
        stem: word.subrange(p, word.len() - s),
        suffix: word.subrange(word.len() - s, word.len() as int),
    }
}

/// How many suffix lengths go with a prefix of `p` characters in a word of
/// `n`: the lengths from 0 up to [`MAX_SUFFIX`] that leave a stem of at least
/// one character.
pub open spec fn suffix_choices(n: int, p: int) -> int {
    if n - p <= 0 {
        0
    } else if n - p > MAX_SUFFIX {
        MAX_SUFFIX + 1
    } else {
        n - p
    }
}

/// The cuts of `word` with a prefix of `p` characters, the shortest suffix first.
pub open spec fn cuts_at(word: Seq<char>, p: int) -> Seq<Segmentation> {
    Seq::new(suffix_choices(word.len() as int, p) as nat, |s: int| cut(word, p, s))
}

/// The cuts of `word` with a prefix of fewer than `p` characters, the
/// shortest prefix first.
pub open spec fn cuts_below(word: Seq<char>, p: int) -> Seq<Segmentation>
    decreases p,
{
    if p <= 0 {
        Seq::empty()
    } else {
        cuts_below(word, p - 1) + cuts_at(word, p - 1)
    }
}

/// Every cut of `word` into a prefix of at most [`MAX_PREFIX`] characters, a
/// stem of at least one, and a suffix of at most [`MAX_SUFFIX`]; ordered by
/// the length of the prefix, then by that of the suffix.
pub open spec fn segmentations(word: Seq<char>) -> Seq<Segmentation> {
    cuts_below(word, MAX_PREFIX + 1)
}

/// Whether `(p, s)` are the lengths of prefix and suffix of a cut of a word of
/// `n` characters.
pub open spec fn is_cut(n: int, p: int, s: int) -> bool {
    0 <= p <= MAX_PREFIX && 0 <= s <= MAX_SUFFIX && p + s < n
}

/// Each cut with a prefix of fewer than `bound` characters is a cut by two
/// lengths within the limits.
pub proof fn lemma_cuts_below(word: Seq<char>, bound: int, i: int)
    requires
        0 <= bound <= MAX_PREFIX + 1,
        0 <= i < cuts_below(word, bound).len(),
    ensures
        exists|p: int, s: int|
            0 <= p < bound && is_cut(word.len() as int, p, s) && cuts_below(word, bound)[i] == cut(
                word,
                p,
                s,
            ),
    decreases bound,
{
    let before = cuts_below(word, bound - 1);
    if i < before.len() {
        lemma_cuts_below(word, bound - 1, i);
        let (p, s) = choose|p: int, s: int|
            0 <= p < bound - 1 && is_cut(word.len() as int, p, s) && before[i] == cut(word, p, s);
        assert(0 <= p < bound && is_cut(word.len() as int, p, s) && cuts_below(word, bound)[i]
            == cut(word, p, s));
    } else {
        let p = bound - 1;
        let s = i - before.len();
        assert(cuts_below(word, bound)[i] == cuts_at(word, p)[s]);
        assert(0 <= p < bound && is_cut(word.len() as int, p, s) && cuts_below(word, bound)[i]
            == cut(word, p, s));
    }
}

/// The most cuts that a word has, however long it is.
pub const MAX_CUTS: usize = 35;

/// The cuts with a prefix of fewer than `bound` characters are no more than
/// the suffix lengths are for each prefix length.
pub proof fn lemma_cuts_below_bounded(word: Seq<char>, bound: int)
    requires
        0 <= bound,
    ensures
        cuts_below(word, bound).len() <= bound * (MAX_SUFFIX + 1),
    decreases bound,
{
    if bound > 0 {
        lemma_cuts_below_bounded(word, bound - 1);
        assert(bound * (MAX_SUFFIX + 1) == (bound - 1) * (MAX_SUFFIX + 1) + (MAX_SUFFIX + 1))
            by (nonlinear_arith);
    }
}

/// No word has more than [`MAX_CUTS`] cuts: the work of an analysis is bounded
/// in the number of cuts, whatever the word.
pub proof fn lemma_segmentations_bounded(word: Seq<char>)
    ensures
        segmentations(word).len() <= MAX_CUTS,
{
    lemma_cuts_below_bounded(word, MAX_PREFIX + 1);
}

/// Whether the three parts of `seg`, put together, are `word`, and its stem is
/// not empty.
pub open spec fn covers(seg: Segmentation, word: Seq<char>) -> bool {
    seg.prefix + seg.stem + seg.suffix == word && seg.stem.len() >= 1
}

/// Each cut of a word gives the word back when its three parts are put
/// together, and its stem is not empty.
pub proof fn lemma_segmentation_covers(word: Seq<char>, i: int)
    requires
        0 <= i < segmentations(word).len(),
    ensures
        covers(segmentations(word)[i], word),
{
    lemma_cuts_below(word, MAX_PREFIX + 1, i);
    let seg = segmentations(word)[i];
    let (p, s) = choose|p: int, s: int|
        0 <= p < MAX_PREFIX + 1 && is_cut(word.len() as int, p, s) && seg == cut(word, p, s);
    assert(seg.prefix + seg.stem + seg.suffix =~= word);
}

/// Each pair of lengths within the limits is the cut of `word` at one place
/// of the sequence.
pub proof fn lemma_segmentation_found(word: Seq<char>, p: int, s: int) -> (i: int)
    requires
        is_cut(word.len() as int, p, s),
    ensures
        0 <= i < segmentations(word).len(),
        segmentations(word)[i] == cut(word, p, s),
{
    lemma_cut_found(word, MAX_PREFIX + 1, p, s)
}

/// Each pair of lengths within the limits, with a prefix of fewer than `bound`
/// characters, is a cut at one place of the sequence.
pub proof fn lemma_cut_found(word: Seq<char>, bound: int, p: int, s: int) -> (i: int)
    requires
        is_cut(word.len() as int, p, s),
        p < bound,
    ensures
        0 <= i < cuts_below(word, bound).len(),
        cuts_below(word, bound)[i] == cut(word, p, s),
    decreases bound,
{
    let before = cuts_below(word, bound - 1);
    if p < bound - 1 {
        lemma_cut_found(word, bound - 1, p, s)
    } else {
        assert(cuts_at(word, p)[s] == cut(word, p, s));
        before.len() + s
    }
}

/// Every cut of `word` into prefix, stem and suffix within the limits.
///
/// The lengths are counted in characters, and no cut is tried that the word
/// is too short for.
pub fn segment_word(word: &str) -> (cuts: Vec<SegmentedWord>)
    ensures
        cuts.deep_view() == segmentations(word@),
        forall|i: int| 0 <= i < cuts.len() ==> covers(#[trigger] cuts[i]@, word@),
        cuts.len() <= MAX_CUTS,
{
    let n = word.unicode_len();
    let mut cuts: Vec<SegmentedWord> = Vec::new();
    let mut p: usize = 0;
    assert(cuts.deep_view() =~= cuts_below(word@, 0));
    while p <= MAX_PREFIX
        invariant
            n == word@.len(),
            p <= MAX_PREFIX + 1,
            cuts.deep_view() == cuts_below(word@, p as int),
        decreases MAX_PREFIX + 1 - p,
    {
        let mut s: usize = 0;
        assert(cuts.deep_view() =~= cuts_below(word@, p as int) + cuts_at(word@, p as int).take(0));
        while s <= MAX_SUFFIX && p < n && s < n - p
            invariant
                n == word@.len(),
                p <= MAX_PREFIX,
                s <= suffix_choices(n as int, p as int),
                cuts.deep_view() == cuts_below(word@, p as int) + cuts_at(word@, p as int).take(
                    s as int,
                ),
            decreases MAX_SUFFIX + 1 - s,
        {
            let ghost before = cuts.deep_view();
            let made = SegmentedWord {
                prefix: String::from_str(word.substring_char(0, p)),
                stem: String::from_str(word.substring_char(p, n - s)),
                suffix: String::from_str(word.substring_char(n - s, n)),
            };
            assert(made@ == cut(word@, p as int, s as int));
            cuts.push(made);
            assert(cuts.deep_view() =~= before.push(made@));
            assert(cuts_at(word@, p as int).take(s + 1) =~= cuts_at(word@, p as int).take(
                s as int,
            ).push(made@));
            assert(cuts.deep_view() =~= cuts_below(word@, p as int) + cuts_at(
                word@,
                p as int,
            ).take(s + 1));
            s += 1;
        }
        assert(s == suffix_choices(n as int, p as int));
        assert(cuts_at(word@, p as int).take(s as int) =~= cuts_at(word@, p as int));
        p += 1;
    }
    assert forall|i: int| 0 <= i < cuts.len() implies covers(#[trigger] cuts[i]@, word@) by {
        assert(cuts[i]@ == cuts.deep_view()[i]);
        lemma_segmentation_covers(word@, i);
    }
    proof {
        lemma_segmentations_bounded(word@);
    }
    cuts
}

/// One reading of a word.
#[derive(Debug, PartialEq, Eq)]
pub struct Solution {
    pub vocalization: String,
    pub lemma: String,
    pub pos: String,
    pub gloss: String,
}

/// A [`Solution`] as plain text.
pub struct SolutionView {
    pub vocalization: Seq<char>,
    pub lemma: Seq<char>,
    pub pos: Seq<char>,
    pub gloss: Seq<char>,
}

impl View for Solution {
    type V = SolutionView;

    open spec fn view(&self) -> SolutionView {
        SolutionView {
            vocalization: self.vocalization@,
            lemma: self.lemma@,
            pos: self.pos@,
            gloss: self.gloss@,
        }
    }
}

impl DeepView for Solution {
    type V = SolutionView;

    open spec fn deep_view(&self) -> SolutionView {
        self@
    }
}

/// The three dictionaries as plain values.
pub struct DictsView {
    pub prefixes: Map<Seq<char>, Seq<EntryView>>,
    pub stems: Map<Seq<char>, Seq<EntryView>>,
    pub suffixes: Map<Seq<char>, Seq<EntryView>>,
}

impl View for Dicts {
    type V = DictsView;

    open spec fn view(&self) -> DictsView {
        DictsView { prefixes: self.prefixes@, stems: self.stems@, suffixes: self.suffixes@ }
    }
}

/// The three tables as plain values.
pub struct TablesView {
    pub ab: Set<Seq<char>>,
    pub ac: Set<Seq<char>>,
    pub bc: Set<Seq<char>>,
}

impl View for Tables {
    type V = TablesView;

    open spec fn view(&self) -> TablesView {
        TablesView { ab: self.AB@, ac: self.AC@, bc: self.BC@ }
    }
}

/// An entry for each part of a cut word.
pub struct Reading<'a> {
    pub prefix: &'a Entry,
    pub stem: &'a Entry,
    pub suffix: &'a Entry,
}

/// A [`Reading`] as plain text.
pub struct ReadingView {
    pub prefix: EntryView,
    pub stem: EntryView,
    pub suffix: EntryView,
}

impl<'a> View for Reading<'a> {
    type V = ReadingView;

    open spec fn view(&self) -> ReadingView {
        ReadingView { prefix: self.prefix@, stem: self.stem@, suffix: self.suffix@ }
    }
}

impl<'a> DeepView for Reading<'a> {
    type V = ReadingView;

    open spec fn deep_view(&self) -> ReadingView {
        self@
    }
}

/// The token under which the tables of prefix with stem and of prefix with
/// suffix hold a pair of categories: the two with a space between them.
pub open spec fn space_token(first: Seq<char>, second: Seq<char>) -> Seq<char> {
    first + " "@ + second
}

/// The token under which the table of stem with suffix holds a pair of
/// categories: the two with a comma and a space between them.
pub open spec fn comma_token(first: Seq<char>, second: Seq<char>) -> Seq<char> {
    first + ", "@ + second
}

/// Whether the tables allow the three entries of `reading` together: prefix
/// with stem, prefix with suffix, stem with suffix.
pub open spec fn fits(tables: TablesView, reading: ReadingView) -> bool {
    &&& tables.ab.contains(space_token(reading.prefix.category, reading.stem.category))
    &&& tables.ac.contains(space_token(reading.prefix.category, reading.suffix.category))
    &&& tables.bc.contains(comma_token(reading.stem.category, reading.suffix.category))
}

/// [`fits`], as a test on readings.
pub open spec fn fitting(tables: TablesView) -> spec_fn(ReadingView) -> bool {
    |reading: ReadingView| fits(tables, reading)
}

/// The reading of `prefix` and `stem` with a suffix.
pub open spec fn with_suffix(prefix: EntryView, stem: EntryView) -> spec_fn(
    EntryView,
) -> ReadingView {
    |suffix: EntryView| ReadingView { prefix, stem, suffix }
}

/// The readings of `prefix` and a stem with each of `suffixes`.
pub open spec fn with_stem(prefix: EntryView, suffixes: Seq<EntryView>) -> spec_fn(
    EntryView,
) -> Seq<ReadingView> {
    |stem: EntryView| suffixes.map_values(with_suffix(prefix, stem))
}

/// The readings of a prefix with each of `stems` and each of `suffixes`.
pub open spec fn with_prefix(stems: Seq<EntryView>, suffixes: Seq<EntryView>) -> spec_fn(
    EntryView,
) -> Seq<ReadingView> {
    |prefix: EntryView| stems.flat_map(with_stem(prefix, suffixes))
}

/// Every choice of one entry from each of the three sequences: ordered by the
/// place of the prefix, then of the stem, then of the suffix.
pub open spec fn triples(
    prefixes: Seq<EntryView>,
    stems: Seq<EntryView>,
    suffixes: Seq<EntryView>,
) -> Seq<ReadingView> {
    prefixes.flat_map(with_prefix(stems, suffixes))
}

/// The readings of one cut: every choice of an entry for each of its three
/// parts that the tables allow. There is none where a dictionary does not
/// know its part.
pub open spec fn readings_of(dicts: DictsView, tables: TablesView, seg: Segmentation) -> Seq<
    ReadingView,
> {
    triples(
        bucket(dicts.prefixes, seg.prefix),
        bucket(dicts.stems, seg.stem),
        bucket(dicts.suffixes, seg.suffix),
    ).filter(fitting(tables))
}

/// [`readings_of`], as a function of the cut.
pub open spec fn readings_at(dicts: DictsView, tables: TablesView) -> spec_fn(Segmentation) -> Seq<
    ReadingView,
> {
    |seg: Segmentation| readings_of(dicts, tables, seg)
}

/// The readings of `word`: those of each of its cuts, in the order of the cuts.
pub open spec fn readings(dicts: DictsView, tables: TablesView, word: Seq<char>) -> Seq<
    ReadingView,
> {
    segmentations(word).flat_map(readings_at(dicts, tables))
}

/// The solution that a reading stands for: vocalized form, part of speech and
/// gloss are those of prefix, stem and suffix put together, the lemma is that
/// of the stem. There is none where the stem has no lemma.
pub open spec fn solution_of(reading: ReadingView) -> Option<SolutionView> {
    match reading.stem.lemma {
        Some(lemma) => Some(
            SolutionView {
                vocalization: reading.prefix.vocabulary + reading.stem.vocabulary
                    + reading.suffix.vocabulary,
                lemma,
                pos: reading.prefix.pos + reading.stem.pos + reading.suffix.pos,
                gloss: reading.prefix.gloss + reading.stem.gloss + reading.suffix.gloss,
            },
        ),
        None => None,
    }
}

/// Whether the stem of each of `found` has a lemma.
pub open spec fn all_have_lemma(found: Seq<ReadingView>) -> bool {
    forall|i: int| 0 <= i < found.len() ==> (#[trigger] found[i]).stem.lemma is Some
}

/// The solutions that `found` stand for, one for one.
pub open spec fn solutions_of(found: Seq<ReadingView>) -> Seq<SolutionView> {
    Seq::new(found.len(), |i: int| solution_of(found[i])->0)
}

/// No reading of a prefix and a stem that the first table does not allow
/// together is allowed by the tables.
proof fn lemma_unfit_stem(
    tables: TablesView,
    prefix: EntryView,
    stem: EntryView,
    suffixes: Seq<EntryView>,
)
    requires
        !tables.ab.contains(space_token(prefix.category, stem.category)),
    ensures
        suffixes.map_values(with_suffix(prefix, stem)).filter(fitting(tables)) == Seq::<
            ReadingView,
        >::empty(),
{
    let all = suffixes.map_values(with_suffix(prefix, stem));
    all.lemma_all_neg_filter_empty(fitting(tables));
}

/// `first`, a space, `second`.
fn space_joined(first: &str, second: &str) -> (token: String)
    ensures
        token@ == space_token(first@, second@),
{
    String::from_str(first).concat(" ").concat(second)
}

/// `first`, a comma and a space, `second`.
fn comma_joined(first: &str, second: &str) -> (token: String)
    ensures
        token@ == comma_token(first@, second@),
{
    String::from_str(first).concat(", ").concat(second)
}

/// Adds to `found` the readings of `prefix` and `stem`, which the first table
/// allows together, with each of `suffixes` that the other two allow.
fn add_suffixes<'a>(
    prefix: &'a Entry,
    stem: &'a Entry,
    suffixes: &'a Vec<Entry>,
    tables: &Tables,
    found: &mut Vec<Reading<'a>>,
)
    requires
        tables@.ab.contains(space_token(prefix@.category, stem@.category)),
    ensures
        final(found).deep_view() == old(found).deep_view() + suffixes.deep_view().map_values(
            with_suffix(prefix@, stem@),
        ).filter(fitting(tables@)),
{
    let ghost start = found.deep_view();
    let ghost all = suffixes.deep_view().map_values(with_suffix(prefix@, stem@));
    let mut k: usize = 0;
    assert(found.deep_view() =~= start + all.take(0).filter(fitting(tables@)));
    while k < suffixes.len()
        invariant
            k <= suffixes.len(),
            tables@.ab.contains(space_token(prefix@.category, stem@.category)),
            all == suffixes.deep_view().map_values(with_suffix(prefix@, stem@)),
            found.deep_view() == start + all.take(k as int).filter(fitting(tables@)),
        decreases suffixes.len() - k,
    {
        let suffix = &suffixes[k];
        let ghost reading = ReadingView { prefix: prefix@, stem: stem@, suffix: suffix@ };
        proof {
            assert(all.take(k + 1) =~= all.take(k as int).push(reading));
            all.take(k as int).lemma_filter_push(reading, fitting(tables@));
        }
        let first = space_joined(prefix.category.as_str(), suffix.category.as_str());
        let second = comma_joined(stem.category.as_str(), suffix.category.as_str());
        if tables.AC.contains(first.as_str()) && tables.BC.contains(second.as_str()) {
            let ghost before = found.deep_view();
            found.push(Reading { prefix, stem, suffix });
            assert(found.deep_view() =~= before.push(reading));
        }
        k += 1;
    }
    assert(all.take(k as int) == all);
}

/// Adds to `found` the readings of `prefix` with each of `stems` and each of
/// `suffixes` that the tables allow.
fn add_stems<'a>(
    prefix: &'a Entry,
    stems: &'a Vec<Entry>,
    suffixes: &'a Vec<Entry>,
    tables: &Tables,
    found: &mut Vec<Reading<'a>>,
)
    ensures
        final(found).deep_view() == old(found).deep_view() + stems.deep_view().flat_map(
            with_stem(prefix@, suffixes.deep_view()),
        ).filter(fitting(tables@)),
{
    let ghost start = found.deep_view();
    let ghost each = with_stem(prefix@, suffixes.deep_view());
    let mut j: usize = 0;
    assert(found.deep_view() =~= start + stems.deep_view().take(0).flat_map(each).filter(
        fitting(tables@),
    ));
    while j < stems.len()
        invariant
            j <= stems.len(),
            each == with_stem(prefix@, suffixes.deep_view()),
            found.deep_view() == start + stems.deep_view().take(j as int).flat_map(each).filter(
                fitting(tables@),
            ),
        decreases stems.len() - j,
    {
        let stem = &stems[j];
        proof {
            let done = stems.deep_view().take(j as int);
            assert(stems.deep_view().take(j + 1) =~= done.push(stem@));
            done.lemma_flat_map_push(each, stem@);
            Seq::filter_distributes_over_add(done.flat_map(each), each(stem@), fitting(tables@));
        }
        let token = space_joined(prefix.category.as_str(), stem.category.as_str());
        if tables.AB.contains(token.as_str()) {
            add_suffixes(prefix, stem, suffixes, tables, found);
        } else {
            proof {
                lemma_unfit_stem(tables@, prefix@, stem@, suffixes.deep_view());
            }
        }
        assert(found.deep_view() =~= start + stems.deep_view().take(j + 1).flat_map(each).filter(
            fitting(tables@),
        ));
        j += 1;
    }
    assert(stems.deep_view().take(j as int) == stems.deep_view());
}

/// Adds to `found` the readings of each of `prefixes` with each of `stems`
/// and each of `suffixes` that the tables allow.
fn add_prefixes<'a>(
    prefixes: &'a Vec<Entry>,
    stems: &'a Vec<Entry>,
    suffixes: &'a Vec<Entry>,
    tables: &Tables,
    found: &mut Vec<Reading<'a>>,
)
    ensures
        final(found).deep_view() == old(found).deep_view() + triples(
            prefixes.deep_view(),
            stems.deep_view(),
            suffixes.deep_view(),
        ).filter(fitting(tables@)),
{
    let ghost start = found.deep_view();
    let ghost each = with_prefix(stems.deep_view(), suffixes.deep_view());
    let mut i: usize = 0;
    assert(found.deep_view() =~= start + prefixes.deep_view().take(0).flat_map(each).filter(
        fitting(tables@),
    ));
    while i < prefixes.len()
        invariant
            i <= prefixes.len(),
            each == with_prefix(stems.deep_view(), suffixes.deep_view()),
            found.deep_view() == start + prefixes.deep_view().take(i as int).flat_map(each).filter(
                fitting(tables@),
            ),
        decreases prefixes.len() - i,
    {
        let prefix = &prefixes[i];
        proof {
            let done = prefixes.deep_view().take(i as int);
            assert(prefixes.deep_view().take(i + 1) =~= done.push(prefix@));
            done.lemma_flat_map_push(each, prefix@);
            Seq::filter_distributes_over_add(done.flat_map(each), each(prefix@), fitting(tables@));
        }
        add_stems(prefix, stems, suffixes, tables, found);
        assert(found.deep_view() =~= start + prefixes.deep_view().take(i + 1).flat_map(
            each,
        ).filter(fitting(tables@)));
        i += 1;
    }
    assert(prefixes.deep_view().take(i as int) == prefixes.deep_view());
}

/// The readings of `word`: for each of its cuts, every choice of an entry for
/// prefix, stem and suffix that the tables allow.
pub fn find_readings<'a>(word: &str, dict: &'a Dicts, table: &Tables) -> (found: Vec<Reading<'a>>)
    ensures
        found.deep_view() == readings(dict@, table@, word@),
{
    let cuts = segment_word(word);
    let ghost each = readings_at(dict@, table@);
    let mut found: Vec<Reading<'a>> = Vec::new();
    let mut n: usize = 0;
    assert(found.deep_view() =~= cuts.deep_view().take(0).flat_map(each));
    while n < cuts.len()
        invariant
            n <= cuts.len(),
            each == readings_at(dict@, table@),
            found.deep_view() == cuts.deep_view().take(n as int).flat_map(each),
        decreases cuts.len() - n,
    {
        let seg = &cuts[n];
        proof {
            let done = cuts.deep_view().take(n as int);
            assert(cuts.deep_view().take(n + 1) =~= done.push(seg@));
            done.lemma_flat_map_push(each, seg@);
        }
        let ghost before = found.deep_view();
        match dict.prefixes.get(seg.prefix.as_str()) {
            Some(prefixes) => match dict.stems.get(seg.stem.as_str()) {
                Some(stems) => match dict.suffixes.get(seg.suffix.as_str()) {
                    Some(suffixes) => {
                        add_prefixes(prefixes, stems, suffixes, table, &mut found);
                    },
                    None => {
                        proof {
                            lemma_no_triples(prefixes.deep_view(), stems.deep_view(), Seq::empty());
                        }
                    },
                },
                None => {
                    proof {
                        lemma_no_triples(
                            prefixes.deep_view(),
                            Seq::empty(),
                            bucket(dict@.suffixes, seg@.suffix),
                        );
                    }
                },
            },
            None => {
                proof {
                    lemma_no_triples(
                        Seq::empty(),
                        bucket(dict@.stems, seg@.stem),
                        bucket(dict@.suffixes, seg@.suffix),
                    );
                }
            },
        }
        assert(found.deep_view() =~= before + readings_of(dict@, table@, seg@));
        n += 1;
    }
    assert(cuts.deep_view().take(n as int) == cuts.deep_view());
    found
}

/// There is no choice of three entries where one of the sequences is empty.
proof fn lemma_no_triples(prefixes: Seq<EntryView>, stems: Seq<EntryView>, suffixes: Seq<EntryView>)
    requires
        prefixes.len() == 0 || stems.len() == 0 || suffixes.len() == 0,
    ensures
        triples(prefixes, stems, suffixes) == Seq::<ReadingView>::empty(),
    decreases prefixes.len(),
{
    if prefixes.len() == 0 {
        assert(triples(prefixes, stems, suffixes) =~= Seq::<ReadingView>::empty());
    } else {
        let each = with_prefix(stems, suffixes);
        let front = prefixes.drop_last();
        lemma_no_triples(front, stems, suffixes);
        assert(prefixes == front.push(prefixes.last()));
        front.lemma_flat_map_push(each, prefixes.last());
        lemma_no_pairs(prefixes.last(), stems, suffixes);
    }
}

/// There is no choice of stem and suffix where one of the sequences is empty.
proof fn lemma_no_pairs(prefix: EntryView, stems: Seq<EntryView>, suffixes: Seq<EntryView>)
    requires
        stems.len() == 0 || suffixes.len() == 0,
    ensures
        stems.flat_map(with_stem(prefix, suffixes)) == Seq::<ReadingView>::empty(),
    decreases stems.len(),
{
    let each = with_stem(prefix, suffixes);
    if stems.len() == 0 {
        assert(stems.flat_map(each) =~= Seq::<ReadingView>::empty());
    } else {
        let front = stems.drop_last();
        lemma_no_pairs(prefix, front, suffixes);
        assert(stems == front.push(stems.last()));
        front.lemma_flat_map_push(each, stems.last());
        assert(each(stems.last()) =~= Seq::<ReadingView>::empty());
    }
}

/// A stem that the dictionaries and tables allow in a reading stands in the
/// scope of no lemma.
#[derive(Debug, PartialEq, Eq)]
pub struct MissingLemma {
    /// The surface form of the stem.
    pub stem: String,
}

/// The solutions of `word`: one for each of its readings, in their order.
pub open spec fn analysis(dicts: DictsView, tables: TablesView, word: Seq<char>) -> Seq<
    SolutionView,
> {
    solutions_of(readings(dicts, tables, word))
}

/// `first`, `second` and `third`, one behind the other.
fn chained(first: &str, second: &str, third: &str) -> (text: String)
    ensures
        text@ == first@ + second@ + third@,
{
    String::from_str(first).concat(second).concat(third)
}

/// The solution that `reading` stands for, where its stem has a lemma.
pub fn solve(reading: &Reading) -> (solution: Option<Solution>)
    ensures
        solution.deep_view() == solution_of(reading@),
{
    match &reading.stem.lemma {
        Some(lemma) => Some(
            Solution {
                vocalization: chained(
                    reading.prefix.vocabulary.as_str(),
                    reading.stem.vocabulary.as_str(),
                    reading.suffix.vocabulary.as_str(),
                ),
                lemma: lemma.clone(),
                pos: chained(
                    reading.prefix.pos.as_str(),
                    reading.stem.pos.as_str(),
                    reading.suffix.pos.as_str(),
                ),
                gloss: chained(
                    reading.prefix.gloss.as_str(),
                    reading.stem.gloss.as_str(),
                    reading.suffix.gloss.as_str(),
                ),
            },
        ),
        None => None,
    }
}

/// The solutions of `word`, or the first stem among its readings that has no
/// lemma.
///
/// The solutions are neither ranked nor thinned out: each reading gives one.
/// A word without readings has no solutions, which is no error.
pub fn try_analyze(word: &str, dict: &Dicts, table: &Tables) -> (outcome: Result<
    Vec<Solution>,
    MissingLemma,
>)
    ensures
        match outcome {
            Ok(solutions) => {
                &&& all_have_lemma(readings(dict@, table@, word@))
                &&& solutions.deep_view() == analysis(dict@, table@, word@)
                &&& forall|i: int|
                    0 <= i < solutions.len() ==> is_sound(
                        dict@,
                        table@,
                        word@,
                        #[trigger] solutions[i]@,
                    )
            },
            Err(missing) => exists|i: int|
                {
                    &&& 0 <= i < readings(dict@, table@, word@).len()
                    &&& (#[trigger] readings(dict@, table@, word@)[i]).stem.lemma is None
                    &&& missing.stem@ == readings(dict@, table@, word@)[i].stem.entry
                    &&& all_have_lemma(readings(dict@, table@, word@).take(i))
                },
        },
{
    let found = find_readings(word, dict, table);
    let mut solutions: Vec<Solution> = Vec::new();
    let mut i: usize = 0;
    assert(solutions.deep_view() =~= solutions_of(found.deep_view().take(0)));
    while i < found.len()
        invariant
            i <= found.len(),
            found.deep_view() == readings(dict@, table@, word@),
            all_have_lemma(found.deep_view().take(i as int)),
            solutions.deep_view() == solutions_of(found.deep_view().take(i as int)),
        decreases found.len() - i,
    {
        let ghost before = solutions.deep_view();
        assert(found.deep_view()[i as int] == found[i as int]@);
        match solve(&found[i]) {
            Some(solution) => {
                solutions.push(solution);
                assert(solutions.deep_view() =~= before.push(solution@));
                assert(solutions.deep_view() =~= solutions_of(found.deep_view().take(i + 1)));
            },
            None => {
                return Err(MissingLemma { stem: found[i].stem.entry.clone() });
            },
        }
        i += 1;
    }
    assert(found.deep_view().take(i as int) == found.deep_view());
    assert forall|i: int| 0 <= i < solutions.len() implies is_sound(
        dict@,
        table@,
        word@,
        #[trigger] solutions[i]@,
    ) by {
        assert(solutions[i]@ == solutions.deep_view()[i]);
        lemma_analysis_sound(dict@, table@, word@, i);
    }
    Ok(solutions)
}

/// The solutions of `word`: one for each way to cut it into prefix, stem and
/// suffix and to choose an entry for each part that the tables allow.
///
/// The stem of every reading must stand in the scope of a lemma;
/// [`try_analyze`] tells where one does not.
pub fn analyze(word: &str, dict: &Dicts, table: &Tables) -> (solutions: Vec<Solution>)
    requires
        all_have_lemma(readings(dict@, table@, word@)),
    ensures
        solutions.deep_view() == analysis(dict@, table@, word@),
        forall|i: int|
            0 <= i < solutions.len() ==> is_sound(dict@, table@, word@, #[trigger] solutions[i]@),
{
    try_analyze(word, dict, table).unwrap()
}

/// Whether `reading` takes its three entries from the dictionaries, each
/// under the part of `seg` that it stands for.
pub open spec fn reads(dicts: DictsView, seg: Segmentation, reading: ReadingView) -> bool {
    &&& bucket(dicts.prefixes, seg.prefix).contains(reading.prefix)
    &&& bucket(dicts.stems, seg.stem).contains(reading.stem)
    &&& bucket(dicts.suffixes, seg.suffix).contains(reading.suffix)
}

/// Each of the choices of three entries holds one entry of each sequence.
pub proof fn lemma_triple_parts(
    prefixes: Seq<EntryView>,
    stems: Seq<EntryView>,
    suffixes: Seq<EntryView>,
    i: int,
)
    requires
        0 <= i < triples(prefixes, stems, suffixes).len(),
    ensures
        prefixes.contains(triples(prefixes, stems, suffixes)[i].prefix),
        stems.contains(triples(prefixes, stems, suffixes)[i].stem),
        suffixes.contains(triples(prefixes, stems, suffixes)[i].suffix),
{
    let (a, rest) = lemma_flat_map_index(prefixes, with_prefix(stems, suffixes), i);
    let (b, c) = lemma_flat_map_index(stems, with_stem(prefixes[a], suffixes), rest);
    assert(triples(prefixes, stems, suffixes)[i] == with_suffix(prefixes[a], stems[b])(
        suffixes[c],
    ));
}

/// The analysis is sound: each reading of a word takes its entries from the
/// dictionaries under the three parts of one cut of the word, and the three
/// tables hold the pairs of its categories, prefix with stem, prefix with
/// suffix and stem with suffix.
pub proof fn lemma_readings_sound(dicts: DictsView, tables: TablesView, word: Seq<char>, i: int)
    requires
        0 <= i < readings(dicts, tables, word).len(),
    ensures
        fits(tables, readings(dicts, tables, word)[i]),
        exists|k: int|
            0 <= k < segmentations(word).len() && reads(
                dicts,
                #[trigger] segmentations(word)[k],
                readings(dicts, tables, word)[i],
            ),
{
    let cuts = segmentations(word);
    let (k, j) = lemma_flat_map_index(cuts, readings_at(dicts, tables), i);
    let seg = cuts[k];
    let prefixes = bucket(dicts.prefixes, seg.prefix);
    let stems = bucket(dicts.stems, seg.stem);
    let suffixes = bucket(dicts.suffixes, seg.suffix);
    let all = triples(prefixes, stems, suffixes);
    let reading = readings(dicts, tables, word)[i];
    assert(reading == all.filter(fitting(tables))[j]);
    all.lemma_filter_pred(fitting(tables), j);
    assert(all.filter(fitting(tables)).contains(reading));
    all.lemma_filter_contains_rev(fitting(tables), reading);
    let at = choose|at: int| 0 <= at < all.len() && all[at] == reading;
    lemma_triple_parts(prefixes, stems, suffixes, at);
    assert(reads(dicts, cuts[k], reading));
}

/// The analysis is complete: whatever entries the dictionaries hold under the
/// three parts of a cut of the word, where the tables allow the three
/// together, they are a reading of the word.
pub proof fn lemma_readings_complete(
    dicts: DictsView,
    tables: TablesView,
    word: Seq<char>,
    k: int,
    reading: ReadingView,
) -> (i: int)
    requires
        0 <= k < segmentations(word).len(),
        reads(dicts, segmentations(word)[k], reading),
        fits(tables, reading),
    ensures
        0 <= i < readings(dicts, tables, word).len(),
        readings(dicts, tables, word)[i] == reading,
{
    let seg = segmentations(word)[k];
    let prefixes = bucket(dicts.prefixes, seg.prefix);
    let stems = bucket(dicts.stems, seg.stem);
    let suffixes = bucket(dicts.suffixes, seg.suffix);
    let a = choose|a: int| 0 <= a < prefixes.len() && prefixes[a] == reading.prefix;
    let b = choose|b: int| 0 <= b < stems.len() && stems[b] == reading.stem;
    let c = choose|c: int| 0 <= c < suffixes.len() && suffixes[c] == reading.suffix;
    assert(with_stem(prefixes[a], suffixes)(stems[b])[c] == reading);
    let pair = lemma_flat_map_holds(stems, with_stem(prefixes[a], suffixes), b, c);
    let triple = lemma_flat_map_holds(prefixes, with_prefix(stems, suffixes), a, pair);
    let all = triples(prefixes, stems, suffixes);
    assert(all[triple] == reading);
    all.lemma_filter_contains(fitting(tables), triple);
    let j = choose|j: int|
        0 <= j < all.filter(fitting(tables)).len() && all.filter(fitting(tables))[j] == reading;
    lemma_flat_map_holds(segmentations(word), readings_at(dicts, tables), k, j)
}

/// Each reading of a word spells the word: the surface forms of its prefix,
/// stem and suffix, put together, are the word, and that of the stem is not
/// empty. This holds of dictionaries in which each entry stands under its own
/// surface form, as it does in every [`DictionaryIndex`](dict::DictionaryIndex).
pub proof fn lemma_readings_spell(dicts: DictsView, tables: TablesView, word: Seq<char>, i: int)
    requires
        is_keyed(dicts.prefixes),
        is_keyed(dicts.stems),
        is_keyed(dicts.suffixes),
        0 <= i < readings(dicts, tables, word).len(),
    ensures
        ({
            let reading = readings(dicts, tables, word)[i];
            &&& reading.prefix.entry + reading.stem.entry + reading.suffix.entry == word
            &&& reading.stem.entry.len() >= 1
        }),
{
    lemma_readings_sound(dicts, tables, word, i);
    let reading = readings(dicts, tables, word)[i];
    let k = choose|k: int|
        0 <= k < segmentations(word).len() && reads(
            dicts,
            #[trigger] segmentations(word)[k],
            reading,
        );
    let seg = segmentations(word)[k];
    lemma_segmentation_covers(word, k);
    assert(dicts.prefixes.contains_key(seg.prefix));
    assert(dicts.stems.contains_key(seg.stem));
    assert(dicts.suffixes.contains_key(seg.suffix));
}

/// Whether `solution` is that of `reading`, a reading of `word` that the
/// tables allow.
pub open spec fn solves(
    dicts: DictsView,
    tables: TablesView,
    word: Seq<char>,
    reading: ReadingView,
    solution: SolutionView,
) -> bool {
    &&& solution_of(reading) == Some(solution)
    &&& fits(tables, reading)
    &&& exists|k: int|
        0 <= k < segmentations(word).len() && reads(
            dicts,
            #[trigger] segmentations(word)[k],
            reading,
        )
}

/// Whether `solution` is sound: it is that of a reading whose entries the
/// dictionaries hold under the parts of one cut of `word`, and whose pairs of
/// categories the three tables hold.
pub open spec fn is_sound(
    dicts: DictsView,
    tables: TablesView,
    word: Seq<char>,
    solution: SolutionView,
) -> bool {
    exists|reading: ReadingView| solves(dicts, tables, word, reading, solution)
}

/// No solution is given that the tables do not allow: each solution of a
/// word is sound.
pub proof fn lemma_analysis_sound(dicts: DictsView, tables: TablesView, word: Seq<char>, i: int)
    requires
        all_have_lemma(readings(dicts, tables, word)),
        0 <= i < analysis(dicts, tables, word).len(),
    ensures
        is_sound(dicts, tables, word, analysis(dicts, tables, word)[i]),
{
    lemma_readings_sound(dicts, tables, word, i);
    let reading = readings(dicts, tables, word)[i];
    assert(solves(dicts, tables, word, reading, analysis(dicts, tables, word)[i]));
}

} // verus!
