//! Properties of masking that relate its parts or hold for all inputs.
use vstd::prelude::*;
use crate::apply::overlay;
use crate::masking::{masked, overflows, warning_of};
use crate::select::{
    PLACEHOLDER, SEPARATOR, best_of, candidates, chosen, count_x, lemma_count_x_bound,
    lemma_count_x_front, split_bars,
};
use crate::text::{is_white_space, trim_end, trim_start, trimmed};

verus! {

/// Whether `s` holds no placeholder.
pub open spec fn no_placeholder(s: Seq<char>) -> bool {
    forall|i: int| 0 <= i < s.len() ==> s[i] != PLACEHOLDER
}

/// Whether `s` holds no separator, so that it is a single format.
pub open spec fn no_separator(s: Seq<char>) -> bool {
    forall|i: int| 0 <= i < s.len() ==> s[i] != SEPARATOR
}

/// An empty text masks to an empty text, with no notice, whatever the formats.
pub proof fn lemma_empty_text(p: Seq<char>)
    ensures
        masked(Seq::empty(), p) == Seq::<char>::empty(),
        warning_of(Seq::empty(), p) is None,
{
}

/// Masking depends on the text and the formats alone: the same arguments give
/// the same result and the same notice.
pub proof fn lemma_deterministic(t1: Seq<char>, p1: Seq<char>, t2: Seq<char>, p2: Seq<char>)
    requires
        t1 == t2,
        p1 == p2,
    ensures
        masked(t1, p1) == masked(t2, p2),
        warning_of(t1, p1) == warning_of(t2, p2),
{
}

/// A format without placeholders is laid over any text unchanged.
pub proof fn lemma_overlay_literal(t: Seq<char>, f: Seq<char>)
    requires
        no_placeholder(f),
    ensures
        overlay(t, f) == f,
    decreases f.len(),
{
    if f.len() > 0 {
        assert(no_placeholder(f.drop_first()) && f[0] != PLACEHOLDER);
        lemma_count_x_zero(f);
        lemma_overlay_literal(t, f.drop_first());
        assert(seq![f[0]] + f.drop_first() =~= f);
    }
}

/// The result of laying a text over a format is never longer than the format.
pub proof fn lemma_overlay_len(t: Seq<char>, f: Seq<char>)
    ensures
        overlay(t, f).len() <= f.len(),
    decreases f.len(),
{
    if f.len() > 0 && !(t.len() == 0 && count_x(f) > 0) {
        if f[0] == PLACEHOLDER {
            lemma_overlay_len(t.drop_first(), f.drop_first());
        } else {
            lemma_overlay_len(t, f.drop_first());
        }
    }
}

/// Where the format has a placeholder for every character of the text, or
/// more, none of it is cut: the result is as long as the format.
pub proof fn lemma_overlay_fills(t: Seq<char>, f: Seq<char>)
    requires
        count_x(f) <= t.len(),
    ensures
        overlay(t, f).len() == f.len(),
    decreases f.len(),
{
    if f.len() > 0 {
        lemma_count_x_front(f);
        if f[0] == PLACEHOLDER {
            lemma_overlay_fills(t.drop_first(), f.drop_first());
        } else {
            lemma_overlay_fills(t, f.drop_first());
        }
    }
}

/// Where the text is not empty and the format has more placeholders than the
/// text has characters, the result ends with the text's last character:
/// nothing of the format after the point where the text ran out remains.
pub proof fn lemma_overlay_ends_with_text(t: Seq<char>, f: Seq<char>)
    requires
        0 < t.len() < count_x(f),
    ensures
        overlay(t, f).len() > 0,
        overlay(t, f).last() == t.last(),
    decreases f.len(),
{
    lemma_count_x_bound(f);
    lemma_count_x_front(f);
    let r = overlay(t, f);
    if f[0] == PLACEHOLDER {
        let rest = overlay(t.drop_first(), f.drop_first());
        if t.len() > 1 {
            lemma_overlay_ends_with_text(t.drop_first(), f.drop_first());
            assert(r.last() == rest.last());
        } else {
            assert(rest =~= Seq::<char>::empty());
            assert(r =~= seq![t[0]]);
        }
    } else {
        lemma_overlay_ends_with_text(t, f.drop_first());
        assert(r.last() == overlay(t, f.drop_first()).last());
    }
}

/// A format without placeholders has a placeholder count of zero.
pub proof fn lemma_count_x_zero(f: Seq<char>)
    requires
        no_placeholder(f),
    ensures
        count_x(f) == 0,
    decreases f.len(),
{
    if f.len() > 0 {
        lemma_count_x_zero(f.drop_last());
    }
}

/// Trimming a format without placeholders leaves none.
proof fn lemma_trimmed_no_placeholder(s: Seq<char>)
    requires
        no_placeholder(s),
    ensures
        no_placeholder(trimmed(s)),
{
    lemma_trim_start_no_placeholder(s);
    lemma_trim_end_no_placeholder(trim_start(s));
}

proof fn lemma_trim_start_no_placeholder(s: Seq<char>)
    requires
        no_placeholder(s),
    ensures
        no_placeholder(trim_start(s)),
    decreases s.len(),
{
    if s.len() > 0 && is_white_space(s[0]) {
        assert(no_placeholder(s.drop_first())) by {
            assert forall|i: int| 0 <= i < s.drop_first().len() implies s.drop_first()[i]
                != PLACEHOLDER by {
                assert(s.drop_first()[i] == s[i + 1]);
            }
        }
        lemma_trim_start_no_placeholder(s.drop_first());
    }
}

proof fn lemma_trim_end_no_placeholder(s: Seq<char>)
    requires
        no_placeholder(s),
    ensures
        no_placeholder(trim_end(s)),
    decreases s.len(),
{
    if s.len() > 0 && is_white_space(s.last()) {
        assert(no_placeholder(s.drop_last())) by {
            assert forall|i: int| 0 <= i < s.drop_last().len() implies s.drop_last()[i]
                != PLACEHOLDER by {
                assert(s.drop_last()[i] == s[i]);
            }
        }
        lemma_trim_end_no_placeholder(s.drop_last());
    }
}

/// A list without separators is one piece.
proof fn lemma_split_single(s: Seq<char>)
    requires
        no_separator(s),
    ensures
        split_bars(s) == seq![s],
    decreases s.len(),
{
    if s.len() > 0 {
        assert(no_separator(s.drop_last()));
        lemma_split_single(s.drop_last());
        assert(s.drop_last().push(s.last()) =~= s);
        assert(split_bars(s) =~= seq![s]);
    } else {
        assert(s =~= Seq::empty());
    }
}

/// A single format, without separators, is chosen as it is, trimmed, for a
/// text of any length.
pub proof fn lemma_single_format(n: nat, p: Seq<char>)
    requires
        no_separator(p),
    ensures
        chosen(n, p) == trimmed(p),
{
    lemma_split_single(p);
    assert(candidates(p) =~= seq![trimmed(p)]);
}

/// Where the text is no longer than the first candidate has placeholders, the
/// first candidate is chosen, whatever the later ones hold.
pub proof fn lemma_first_fit_wins(n: nat, cands: Seq<Seq<char>>)
    requires
        cands.len() >= 1,
        n <= count_x(cands[0]),
    ensures
        best_of(n, cands) == cands[0],
    decreases cands.len(),
{
    if cands.len() > 1 {
        assert(cands.drop_last()[0] == cands[0]);
        lemma_first_fit_wins(n, cands.drop_last());
    }
}

/// Masking a non-empty text with a single format that holds no placeholder
/// gives that format, trimmed, in full, and a notice that text was left out.
pub proof fn lemma_literal_format(t: Seq<char>, p: Seq<char>)
    requires
        t.len() > 0,
        no_placeholder(p),
        no_separator(p),
    ensures
        masked(t, p) == trimmed(p),
        overflows(t, p),
        warning_of(t, p) == Some((t.len(), 0nat)),
{
    lemma_single_format(t.len(), p);
    lemma_trimmed_no_placeholder(p);
    let f = trimmed(p);
    lemma_overlay_literal(t, f);
    lemma_count_x_zero(f);
}

} // verus!
