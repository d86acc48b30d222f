//! Small verified operations on strings, all stated over `Seq<char>`.
use vstd::prelude::*;

verus! {

/// The parts of `s` between occurrences of `sep`: one more part than there are separators.
pub open spec fn split(s: Seq<char>, sep: char) -> Seq<Seq<char>>
    decreases s.len(),
{
    if s.len() == 0 {
        seq![Seq::<char>::empty()]
    } else {
        let parts = split(s.drop_last(), sep);
        if s.last() == sep {
            parts.push(Seq::<char>::empty())
        } else {
            parts.update(parts.len() - 1, parts.last().push(s.last()))
        }
    }
}

/// The number of times `c` occurs in `s`.
pub open spec fn count(s: Seq<char>, c: char) -> nat
    decreases s.len(),
{
    if s.len() == 0 {
        0
    } else {
        count(s.drop_last(), c) + if s.last() == c { 1nat } else { 0nat }
    }
}

/// `parts` with `sep` between each two neighbours.
pub open spec fn join(parts: Seq<Seq<char>>, sep: Seq<char>) -> Seq<char>
    decreases parts.len(),
{
    if parts.len() == 0 {
        Seq::<char>::empty()
    } else if parts.len() == 1 {
        parts[0]
    } else {
        join(parts.drop_last(), sep) + sep + parts.last()
    }
}

/// A split has one part more than the text has separators.
pub proof fn lemma_split_len(s: Seq<char>, sep: char)
    ensures
        split(s, sep).len() == count(s, sep) + 1,
    decreases s.len(),
{
    if s.len() > 0 {
        lemma_split_len(s.drop_last(), sep);
    }
}

/// Joining the parts of a split with the separator gives the text back.
pub proof fn lemma_join_split(s: Seq<char>, sep: char)
    ensures
        join(split(s, sep), seq![sep]) == s,
    decreases s.len(),
{
    if s.len() == 0 {
        assert(split(s, sep) =~= seq![Seq::<char>::empty()]);
        assert(join(split(s, sep), seq![sep]) =~= s);
    } else {
        let front = s.drop_last();
        let parts = split(front, sep);
        lemma_join_split(front, sep);
        lemma_split_len(front, sep);
        if s.last() == sep {
            let all = parts.push(Seq::<char>::empty());
            assert(all.drop_last() =~= parts);
            assert(join(all, seq![sep]) =~= front + seq![sep]);
            assert(front + seq![sep] =~= s);
        } else {
            let all = parts.update(parts.len() - 1, parts.last().push(s.last()));
            if parts.len() == 1 {
                assert(join(all, seq![sep]) =~= parts[0].push(s.last()));
                assert(parts[0].push(s.last()) =~= s);
            } else {
                assert(all.drop_last() =~= parts.drop_last());
                assert(join(all, seq![sep]) =~= (join(parts.drop_last(), seq![sep]) + seq![sep]
                    + parts.last()).push(s.last()));
                assert(front.push(s.last()) =~= s);
            }
        }
    }
}

/// The characters of `s`, in order.
pub fn chars_of(s: &str) -> (v: Vec<char>)
    ensures
        v@ == s@,
{
    let mut v: Vec<char> = Vec::new();
    for c in it: s.chars()
        invariant
            it.seq() == s@,
            v@ == s@.take(it.index()),
    {
        v.push(c);
        assert(s@.take(it.index() + 1) == s@.take(it.index()).push(s@[it.index()]));
    }
    assert(s@.take(s@.len() as int) == s@);
    v
}

/// Whether two texts are the same.
pub fn same(first: &str, second: &str) -> (equal: bool)
    ensures
        equal == (first@ == second@),
{
    let a = chars_of(first);
    let b = chars_of(second);
    if a.len() != b.len() {
        return false;
    }
    let mut i: usize = 0;
    while i < a.len()
        invariant
            a@ == first@,
            b@ == second@,
            a.len() == b.len(),
            i <= a.len(),
            forall|k: int| 0 <= k < i ==> a@[k] == b@[k],
        decreases a.len() - i,
    {
        if a[i] != b[i] {
            return false;
        }
        i += 1;
    }
    assert(a@ =~= b@);
    true
}

/// Whether `s` begins with `prefix`.
pub fn has_prefix(s: &str, prefix: &str) -> (b: bool)
    ensures
        b == prefix@.is_prefix_of(s@),
{
    let text = chars_of(s);
    let head = chars_of(prefix);
    if head.len() > text.len() {
        return false;
    }
    let mut i: usize = 0;
    while i < head.len()
        invariant
            text@ == s@,
            head@ == prefix@,
            i <= head.len() <= text.len(),
            head@.take(i as int) == text@.take(i as int),
        decreases head.len() - i,
    {
        if head[i] != text[i] {
            assert(text@.subrange(0, head@.len() as int)[i as int] != head@[i as int]);
            return false;
        }
        assert(head@.take(i + 1) == head@.take(i as int).push(head@[i as int]));
        assert(text@.take(i + 1) == text@.take(i as int).push(text@[i as int]));
        i += 1;
    }
    assert(head@.take(i as int) == head@);
    true
}

/// Whether `s` ends with `suffix`.
pub fn has_suffix(s: &str, suffix: &str) -> (b: bool)
    ensures
        b == suffix@.is_suffix_of(s@),
{
    let text = chars_of(s);
    let tail = chars_of(suffix);
    if tail.len() > text.len() {
        return false;
    }
    let shift: usize = text.len() - tail.len();
    let mut i: usize = 0;
    while i < tail.len()
        invariant
            text@ == s@,
            tail@ == suffix@,
            i <= tail.len() <= text.len(),
            shift == text.len() - tail.len(),
            forall|k: int| 0 <= k < i ==> tail@[k] == text@[shift + k],
        decreases tail.len() - i,
    {
        if tail[i] != text[shift + i] {
            assert(text@.subrange(shift as int, text@.len() as int)[i as int] != tail@[i as int]);
            return false;
        }
        i += 1;
    }
    assert(tail@ =~= text@.subrange(shift as int, text@.len() as int));
    true
}

/// The parts of `s` between occurrences of `sep`, each as a string of its own.
pub fn split_on(s: &str, sep: char) -> (parts: Vec<String>)
    ensures
        parts.deep_view() == split(s@, sep),
{
    let text = chars_of(s);
    let mut parts: Vec<String> = Vec::new();
    let mut start: usize = 0;
    let mut i: usize = 0;
    assert(split(s@.take(0), sep) =~~= parts.deep_view().push(s@.subrange(0, 0)));
    while i < text.len()
        invariant
            text@ == s@,
            start <= i <= text.len(),
            split(s@.take(i as int), sep) == parts.deep_view().push(
                s@.subrange(start as int, i as int),
            ),
        decreases text.len() - i,
    {
        assert(s@.take(i + 1).drop_last() == s@.take(i as int));
        if text[i] == sep {
            let part = String::from_str(s.substring_char(start, i));
            let ghost done = parts.deep_view();
            parts.push(part);
            assert(parts.deep_view() =~= done.push(s@.subrange(start as int, i as int)));
            start = i + 1;
            assert(split(s@.take(i + 1), sep) =~~= parts.deep_view().push(
                s@.subrange(start as int, i + 1),
            ));
        } else {
            assert(s@.subrange(start as int, i + 1) == s@.subrange(start as int, i as int).push(
                s@[i as int],
            ));
            assert(split(s@.take(i + 1), sep) =~~= parts.deep_view().push(
                s@.subrange(start as int, i + 1),
            ));
        }
        i += 1;
    }
    assert(s@.take(i as int) == s@);
    let part = String::from_str(s.substring_char(start, i));
    let ghost done = parts.deep_view();
    parts.push(part);
    assert(parts.deep_view() =~= done.push(s@.subrange(start as int, i as int)));
    parts
}

/// Whether `char::is_whitespace` holds of `c`: whether Unicode gives it the
/// property White_Space.
pub uninterp spec fn white_space(c: char) -> bool;

/// `char::is_whitespace`.
///
/// Believed, not proved: it gives one answer for one character, the answer
/// that is named [`white_space`]. Which characters these are is not said.
pub assume_specification[ char::is_whitespace ](c: char) -> (b: bool)
    ensures
        b == white_space(c),
;

/// `s` without the white space that it begins with.
pub open spec fn trimmed_start(s: Seq<char>) -> Seq<char>
    decreases s.len(),
{
    if s.len() > 0 && white_space(s.first()) {
        trimmed_start(s.drop_first())
    } else {
        s
    }
}

/// `s` without the white space that it ends with.
pub open spec fn trimmed_end(s: Seq<char>) -> Seq<char>
    decreases s.len(),
{
    if s.len() > 0 && white_space(s.last()) {
        trimmed_end(s.drop_last())
    } else {
        s
    }
}

/// `s` without the white space at its two ends.
pub open spec fn trimmed(s: Seq<char>) -> Seq<char> {
    trimmed_end(trimmed_start(s))
}

/// `s` without the white space at its two ends.
pub fn trim(s: &str) -> (t: &str)
    ensures
        t@ == trimmed(s@),
{
    let text = chars_of(s);
    let mut from: usize = 0;
    assert(s@.skip(0) == s@);
    while from < text.len() && text[from].is_whitespace()
        invariant
            text@ == s@,
            from <= text.len(),
            trimmed_start(s@) == trimmed_start(s@.skip(from as int)),
        decreases text.len() - from,
    {
        assert(s@.skip(from as int).drop_first() == s@.skip(from + 1));
        from += 1;
    }
    assert(trimmed_start(s@) == s@.skip(from as int));
    let mut to: usize = text.len();
    assert(s@.skip(from as int) == s@.subrange(from as int, to as int));
    while to > from && text[to - 1].is_whitespace()
        invariant
            text@ == s@,
            from <= to <= text.len(),
            trimmed(s@) == trimmed_end(s@.subrange(from as int, to as int)),
        decreases to,
    {
        assert(s@.subrange(from as int, to as int).drop_last() == s@.subrange(
            from as int,
            to - 1,
        ));
        to -= 1;
    }
    s.substring_char(from, to)
}

/// `word` without `suffix` at its end, where it ends with it.
pub fn strip_suffix<'a>(word: &'a str, suffix: &str) -> (stem: Option<&'a str>)
    ensures
        match stem {
            Some(stem) => suffix@.is_suffix_of(word@) && stem@ == word@.take(
                word@.len() - suffix@.len(),
            ),
            None => !suffix@.is_suffix_of(word@),
        },
{
    if has_suffix(word, suffix) {
        Some(word.substring_char(0, word.unicode_len() - suffix.unicode_len()))
    } else {
        None
    }
}

/// `parts` with `sep` between each two neighbours.
pub fn join_with(parts: &Vec<String>, sep: &str) -> (joined: String)
    ensures
        joined@ == join(parts.deep_view(), sep@),
{
    let mut joined = String::new();
    let mut i: usize = 0;
    assert(joined@ =~= join(parts.deep_view().take(0), sep@));
    while i < parts.len()
        invariant
            i <= parts.len(),
            joined@ == join(parts.deep_view().take(i as int), sep@),
        decreases parts.len() - i,
    {
        let ghost done = parts.deep_view().take(i as int);
        let ghost next = parts.deep_view().take(i + 1);
        assert(next.drop_last() == done);
        assert(next.last() == parts[i as int]@);
        if i > 0 {
            joined.append(sep);
        } else {
            assert(joined@ + parts[i as int]@ =~= parts[i as int]@);
        }
        joined.append(parts[i].as_str());
        i += 1;
    }
    assert(parts.deep_view().take(i as int) == parts.deep_view());
    joined
}

/// Whether a character lies outside the range from `low` to `high`.
pub open spec fn outside(low: char, high: char) -> spec_fn(char) -> bool {
    |c: char| !(low <= c && c <= high)
}

/// `text` without the characters from `low` to `high`.
pub fn without(text: &str, low: char, high: char) -> (kept: String)
    ensures
        kept@ == text@.filter(outside(low, high)),
{
    let letters = chars_of(text);
    let ghost keep = outside(low, high);
    let mut kept = String::new();
    let mut start: usize = 0;
    let mut i: usize = 0;
    assert(kept@ + text@.subrange(0, 0) =~= text@.take(0).filter(keep));
    while i < letters.len()
        invariant
            letters@ == text@,
            keep == outside(low, high),
            start <= i <= letters.len(),
            kept@ + text@.subrange(start as int, i as int) == text@.take(i as int).filter(keep),
        decreases letters.len() - i,
    {
        proof {
            assert(text@.take(i + 1) == text@.take(i as int).push(text@[i as int]));
            text@.take(i as int).lemma_filter_push(text@[i as int], keep);
        }
        if low <= letters[i] && letters[i] <= high {
            kept.append(text.substring_char(start, i));
            start = i + 1;
            assert(kept@ + text@.subrange(start as int, i + 1) =~= text@.take(i + 1).filter(keep));
        } else {
            assert(kept@ + text@.subrange(start as int, i + 1) =~= (kept@ + text@.subrange(
                start as int,
                i as int,
            )).push(text@[i as int]));
        }
        i += 1;
    }
    assert(text@.take(i as int) == text@);
    kept.append(text.substring_char(start, i));
    kept
}

} // verus!
