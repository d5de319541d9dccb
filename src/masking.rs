//! Masking a text: choosing a format for it and laying it over that format.
use vstd::prelude::*;
use crate::apply::{overlay, overlay_in};
use crate::select::{candidate_list, chosen, count_in, count_x, pick};
use crate::text::chars_of;

verus! {

/// Notice that the text has more characters than the chosen format has
/// placeholders, so that its last characters were left out.
#[derive(Clone, Copy, Debug, PartialEq, Eq, Structural)]
pub struct LengthWarning {
    /// The number of characters of the text.
    pub text_len: usize,
    /// The number of placeholders of the chosen format.
    pub placeholder_count: usize,
}

/// The masked text, with the notice that goes with it, if any.
#[derive(Debug)]
pub struct MaskReport {
    /// The masked text.
    pub output: String,
    /// Present where the text had more characters than the chosen format has
    /// placeholders.
    pub warning: Option<LengthWarning>,
}

/// `t` masked with the list of formats `p`: empty for an empty `t`, else `t`
/// laid over the format chosen for its length.
pub open spec fn masked(t: Seq<char>, p: Seq<char>) -> Seq<char> {
    if t.len() == 0 {
        Seq::empty()
    } else {
        overlay(t, chosen(t.len(), p))
    }
}

/// Whether masking `t` with `p` leaves characters of `t` out: `t` is not empty
/// and longer than the chosen format has placeholders.
pub open spec fn overflows(t: Seq<char>, p: Seq<char>) -> bool {
    t.len() > 0 && t.len() > count_x(chosen(t.len(), p))
}

/// The notice that masking `t` with `p` gives.
pub open spec fn warning_of(t: Seq<char>, p: Seq<char>) -> Option<(nat, nat)> {
    if overflows(t, p) {
        Some((t.len(), count_x(chosen(t.len(), p))))
    } else {
        None
    }
}

/// The view of a notice: the text's length and the placeholder count.
pub open spec fn warning_view(w: Option<LengthWarning>) -> Option<(nat, nat)> {
    match w {
        Some(w) => Some((w.text_len as nat, w.placeholder_count as nat)),
        None => None,
    }
}

/// Masks `text` with the `|`-separated list of formats `format_patterns`, and
/// reports whether `text` had more characters than the chosen format could take.
pub fn mask_report(text: &str, format_patterns: &str) -> (r: MaskReport)
    ensures
        r.output@ == masked(text@, format_patterns@),
        warning_view(r.warning) == warning_of(text@, format_patterns@),
{
    let t = chars_of(text);
    if t.len() == 0 {
        return MaskReport { output: String::new(), warning: None };
    }
    let cands = candidate_list(&chars_of(format_patterns));
    let k = pick(t.len(), &cands);
    let count = count_in(&cands[k]);
    let output = overlay_in(&t, &cands[k]);
    let warning = if t.len() > count {
        Some(LengthWarning { text_len: t.len(), placeholder_count: count })
    } else {
        None
    };
    MaskReport { output, warning }
}

/// Masks `text` with the `|`-separated list of formats `format_patterns`.
pub fn mask(text: &str, format_patterns: &str) -> (r: String)
    ensures
        r@ == masked(text@, format_patterns@),
        text@.len() == 0 ==> r@.len() == 0,
{
    mask_report(text, format_patterns).output
}

} // verus!
