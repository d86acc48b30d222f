//! The compatibility tables: which category of one kind of morpheme may stand
//! with which category of another.
use crate::strings::{trim, trimmed};
use vstd::hash_set::StringHashSet;
use vstd::prelude::*;

verus! {

/// A set of pairs of categories, each pair written as one token. A table is
/// asked only whether it holds a token.
pub struct CompatibilityTable {
    tokens: StringHashSet,
}

impl View for CompatibilityTable {
    type V = Set<Seq<char>>;

    closed spec fn view(&self) -> Set<Seq<char>> {
        self.tokens@
    }
}

impl CompatibilityTable {
    /// A table without tokens.
    pub fn new() -> (table: Self)
        ensures
            table@ == Set::<Seq<char>>::empty(),
    {
        CompatibilityTable { tokens: StringHashSet::new() }
    }

    /// Adds `token` to the table.
    pub fn insert(&mut self, token: String)
        ensures
            final(self)@ == old(self)@.insert(token@),
    {
        self.tokens.insert(token);
    }

    /// Whether the table holds `token`.
    pub fn contains(&self, token: &str) -> (held: bool)
        ensures
            held == self@.contains(token@),
    {
        self.tokens.contains(token)
    }
}

/// The three tables that an analysis asks: prefix with stem, prefix with
/// suffix, stem with suffix.
#[allow(non_snake_case)]
pub struct Tables {
    pub AB: CompatibilityTable,
    pub AC: CompatibilityTable,
    pub BC: CompatibilityTable,
}

/// The tokens of a table file: each line without the white space at its ends.
pub open spec fn tokens_of(lines: Seq<Seq<char>>) -> Set<Seq<char>> {
    Set::new(
        |token: Seq<char>|
            exists|i: int| 0 <= i < lines.len() && token == trimmed(#[trigger] lines[i]),
    )
}

/// Reads a table from the lines of its file: one token a line, nothing else
/// is asked of a line.
pub fn load_table(lines: &Vec<String>) -> (table: CompatibilityTable)
    ensures
        table@ == tokens_of(lines.deep_view()),
{
    let mut table = CompatibilityTable::new();
    let mut i: usize = 0;
    assert(table@ =~= tokens_of(lines.deep_view().take(0)));
    while i < lines.len()
        invariant
            i <= lines.len(),
            table@ == tokens_of(lines.deep_view().take(i as int)),
        decreases lines.len() - i,
    {
        let ghost before = lines.deep_view().take(i as int);
        let ghost after = lines.deep_view().take(i + 1);
        let token = String::from_str(trim(lines[i].as_str()));
        table.insert(token);
        assert(table@ =~= tokens_of(after)) by {
            assert(after[i as int] == lines[i as int]@);
            assert forall|t: Seq<char>|
                tokens_of(before).insert(token@).contains(t) implies tokens_of(after).contains(
                t,
            ) by {
                if t != token@ {
                    let k = choose|k: int|
                        0 <= k < before.len() && t == trimmed(#[trigger] before[k]);
                    assert(t == trimmed(after[k]));
                }
            }
            assert forall|t: Seq<char>| tokens_of(after).contains(t) implies tokens_of(
                before,
            ).insert(token@).contains(t) by {
                let k = choose|k: int| 0 <= k < after.len() && t == trimmed(#[trigger] after[k]);
                if k < i {
                    assert(t == trimmed(before[k]));
                }
            }
        }
        i += 1;
    }
    assert(lines.deep_view().take(i as int) == lines.deep_view());
    table
}

} // verus!
