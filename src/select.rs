//! Choosing one format out of a `|`-separated list of formats.
use vstd::prelude::*;
use crate::text::{chars_of, string_of, trim_chars, trimmed};

verus! {

/// The character that marks a position to be filled from the input.
pub const PLACEHOLDER: char = 'X';

/// The character that separates formats in a list of formats.
pub const SEPARATOR: char = '|';

/// The number of placeholders in `f`.
pub open spec fn count_x(f: Seq<char>) -> nat
    decreases f.len(),
{
    if f.len() == 0 {
        0
    } else {
        count_x(f.drop_last()) + if f.last() == PLACEHOLDER { 1nat } else { 0nat }
    }
}

/// `s` cut at each separator, in order; an empty `s` gives one empty piece.
pub open spec fn split_bars(s: Seq<char>) -> Seq<Seq<char>>
    decreases s.len(),
{
    if s.len() == 0 {
        seq![Seq::empty()]
    } else {
        let prev = split_bars(s.drop_last());
        if s.last() == SEPARATOR {
            prev.push(Seq::empty())
        } else {
            prev.update(prev.len() - 1, prev.last().push(s.last()))
        }
    }
}

/// The candidate formats of a list of formats: its pieces, each trimmed.
pub open spec fn candidates(patterns: Seq<char>) -> Seq<Seq<char>> {
    split_bars(patterns).map_values(|c: Seq<char>| trimmed(c))
}

/// Whether a candidate with `next` placeholders takes the place of the best
/// so far, with `best` placeholders, for an input of `n` characters: only
/// while the input is longer than the best so far holds, and only for a
/// candidate that holds at least as many.
pub open spec fn replaces(n: nat, best: nat, next: nat) -> bool {
    n > best && next >= best
}

/// The format chosen out of `cands` for an input of `n` characters: the first
/// candidate, then each later one that `replaces` the best so far.
pub open spec fn best_of(n: nat, cands: Seq<Seq<char>>) -> Seq<char>
    decreases cands.len(),
{
    if cands.len() <= 1 {
        cands[0]
    } else {
        let b = best_of(n, cands.drop_last());
        if replaces(n, count_x(b), count_x(cands.last())) {
            cands.last()
        } else {
            b
        }
    }
}

/// The format chosen out of the list `patterns` for an input of `n` characters.
pub open spec fn chosen(n: nat, patterns: Seq<char>) -> Seq<char> {
    best_of(n, candidates(patterns))
}

/// A format has no more placeholders than characters.
pub proof fn lemma_count_x_bound(f: Seq<char>)
    ensures
        count_x(f) <= f.len(),
    decreases f.len(),
{
    if f.len() > 0 {
        lemma_count_x_bound(f.drop_last());
    }
}

/// The placeholder count of a non-empty format, taken from its front.
pub proof fn lemma_count_x_front(f: Seq<char>)
    requires
        f.len() > 0,
    ensures
        count_x(f) == count_x(f.drop_first()) + if f[0] == PLACEHOLDER { 1nat } else { 0nat },
    decreases f.len(),
{
    if f.len() > 1 {
        lemma_count_x_front(f.drop_last());
        assert(f.drop_last().drop_first() =~= f.drop_first().drop_last());
    } else {
        assert(f.drop_first() =~= Seq::empty());
        assert(f.drop_last() =~= Seq::empty());
    }
}

/// Cutting a list of formats gives at least one piece.
pub proof fn lemma_split_bars_nonempty(s: Seq<char>)
    ensures
        split_bars(s).len() >= 1,
    decreases s.len(),
{
    if s.len() > 0 {
        lemma_split_bars_nonempty(s.drop_last());
    }
}

/// The number of placeholders in `f`.
pub(crate) fn count_in(f: &Vec<char>) -> (r: usize)
    ensures
        r == count_x(f@),
{
    let mut r: usize = 0;
    let mut i: usize = 0;
    while i < f.len()
        invariant
            i <= f@.len(),
            r == count_x(f@.take(i as int)),
        decreases f.len() - i,
    {
        proof {
            lemma_count_x_bound(f@.take(i as int));
            assert(f@.take(i as int + 1).drop_last() =~= f@.take(i as int));
        }
        if f[i] == PLACEHOLDER {
            r += 1;
        }
        i += 1;
    }
    assert(f@.take(i as int) =~= f@);
    r
}

/// The number of placeholders in `format`.
pub fn count_placeholders(format: &str) -> (r: usize)
    ensures
        r == count_x(format@),
{
    count_in(&chars_of(format))
}

/// The views of a sequence of character vectors.
pub open spec fn views(v: Seq<Vec<char>>) -> Seq<Seq<char>> {
    v.map_values(|c: Vec<char>| c@)
}

/// The pieces of `patterns` between separators, in order.
pub(crate) fn split_list(patterns: &Vec<char>) -> (r: Vec<Vec<char>>)
    ensures
        views(r@) == split_bars(patterns@),
{
    let mut parts: Vec<Vec<char>> = Vec::new();
    let mut cur: Vec<char> = Vec::new();
    let mut i: usize = 0;
    assert(views(parts@).push(cur@) =~= split_bars(patterns@.take(0)));
    while i < patterns.len()
        invariant
            i <= patterns@.len(),
            views(parts@).push(cur@) == split_bars(patterns@.take(i as int)),
        decreases patterns.len() - i,
    {
        let c = patterns[i];
        let ghost prev = views(parts@).push(cur@);
        proof {
            assert(patterns@.take(i as int + 1).drop_last() =~= patterns@.take(i as int));
        }
        if c == SEPARATOR {
            parts.push(cur);
            cur = Vec::new();
            assert(views(parts@).push(cur@) =~= prev.push(Seq::empty()));
        } else {
            cur.push(c);
            assert(views(parts@).push(cur@) =~= prev.update(prev.len() - 1, prev.last().push(c)));
        }
        i += 1;
    }
    assert(patterns@.take(i as int) =~= patterns@);
    let ghost before = views(parts@).push(cur@);
    parts.push(cur);
    assert(views(parts@) =~= before);
    parts
}

/// The candidate formats of the list `patterns`.
pub(crate) fn candidate_list(patterns: &Vec<char>) -> (r: Vec<Vec<char>>)
    ensures
        views(r@) == candidates(patterns@),
        r@.len() >= 1,
{
    let parts = split_list(patterns);
    proof {
        lemma_split_bars_nonempty(patterns@);
    }
    let ghost pieces = split_bars(patterns@);
    let mut r: Vec<Vec<char>> = Vec::new();
    let mut i: usize = 0;
    while i < parts.len()
        invariant
            i <= parts@.len(),
            views(parts@) == pieces,
            r@.len() == i,
            forall|j: int| 0 <= j < i ==> (#[trigger] r@[j])@ == trimmed(pieces[j]),
        decreases parts.len() - i,
    {
        assert(views(parts@)[i as int] == parts@[i as int]@);
        let t = trim_chars(&parts[i]);
        r.push(t);
        i += 1;
    }
    assert(views(r@) =~= candidates(patterns@));
    r
}

/// The index of the format chosen out of `cands` for an input of `n` characters.
pub(crate) fn pick(n: usize, cands: &Vec<Vec<char>>) -> (r: usize)
    requires
        cands@.len() >= 1,
    ensures
        r < cands@.len(),
        cands@[r as int]@ == best_of(n as nat, views(cands@)),
{
    let mut best: usize = 0;
    let mut best_count = count_in(&cands[0]);
    let mut i: usize = 1;
    assert(views(cands@).take(1) =~= seq![cands@[0]@]);
    while i < cands.len()
        invariant
            1 <= i <= cands@.len(),
            best < i,
            cands@[best as int]@ == best_of(n as nat, views(cands@).take(i as int)),
            best_count == count_x(cands@[best as int]@),
        decreases cands.len() - i,
    {
        let c = count_in(&cands[i]);
        proof {
            let all = views(cands@);
            assert(all.take(i as int + 1).drop_last() =~= all.take(i as int));
            assert(all.take(i as int + 1).last() == cands@[i as int]@);
        }
        if n > best_count && c >= best_count {
            best = i;
            best_count = c;
        }
        i += 1;
    }
    assert(views(cands@).take(i as int) =~= views(cands@));
    best
}

/// The format chosen out of the `|`-separated list `format_patterns` for an
/// input of `text_len` characters, with surrounding whitespace trimmed.
pub fn select_format(text_len: usize, format_patterns: &str) -> (r: String)
    ensures
        r@ == chosen(text_len as nat, format_patterns@),
{
    let cands = candidate_list(&chars_of(format_patterns));
    let k = pick(text_len, &cands);
    string_of(&cands[k])
}

} // verus!
