//! Laying the input's characters over the placeholders of a format.
use vstd::prelude::*;
use crate::select::{PLACEHOLDER, count_in, count_x, lemma_count_x_front};
use crate::text::{chars_of, push_char};

verus! {

/// `t` laid over the format `f`: each placeholder takes the next character of
/// `t` and each other character of `f` stands as it is, until `t` is used up
/// while a placeholder still lies ahead in `f`; there the result ends, before
/// the characters that lead up to that placeholder.
pub open spec fn overlay(t: Seq<char>, f: Seq<char>) -> Seq<char>
    decreases f.len(),
{
    if f.len() == 0 {
        Seq::empty()
    } else if t.len() == 0 && count_x(f) > 0 {
        Seq::empty()
    } else if f[0] == PLACEHOLDER {
        seq![t[0]] + overlay(t.drop_first(), f.drop_first())
    } else {
        seq![f[0]] + overlay(t, f.drop_first())
    }
}

/// `text` laid over the placeholders of `format`.
pub fn apply_format(text: &str, format: &str) -> (r: String)
    ensures
        r@ == overlay(text@, format@),
{
    overlay_in(&chars_of(text), &chars_of(format))
}

/// `t` laid over the placeholders of `f`.
pub(crate) fn overlay_in(t: &Vec<char>, f: &Vec<char>) -> (out: String)
    ensures
        out@ == overlay(t@, f@),
{
    let mut out = String::new();
    let mut ti: usize = 0;
    let mut fi: usize = 0;
    let mut ahead = count_in(f);
    assert(t@.skip(0) =~= t@);
    assert(f@.skip(0) =~= f@);
    assert(out@ + overlay(t@, f@) =~= overlay(t@, f@));
    loop
        invariant_except_break
            ti <= t@.len(),
            fi <= f@.len(),
            ahead == count_x(f@.skip(fi as int)),
            out@ + overlay(t@.skip(ti as int), f@.skip(fi as int)) == overlay(t@, f@),
        ensures
            out@ == overlay(t@, f@),
        decreases f.len() - fi,
    {
        let ghost rest_t = t@.skip(ti as int);
        let ghost rest_f = f@.skip(fi as int);
        if fi >= f.len() {
            assert(out@ + overlay(rest_t, rest_f) =~= out@);
            break;
        }
        if ti >= t.len() && ahead > 0 {
            assert(out@ + overlay(rest_t, rest_f) =~= out@);
            break;
        }
        assert(rest_f[0] == f@[fi as int]);
        assert(rest_f.drop_first() =~= f@.skip(fi as int + 1));
        proof {
            lemma_count_x_front(rest_f);
        }
        let c = f[fi];
        let ghost before = out@;
        if c == PLACEHOLDER {
            assert(rest_t[0] == t@[ti as int]);
            assert(rest_t.drop_first() =~= t@.skip(ti as int + 1));
            push_char(&mut out, t[ti]);
            ti += 1;
            ahead -= 1;
        } else {
            push_char(&mut out, c);
        }
        fi += 1;
        assert(out@ + overlay(t@.skip(ti as int), f@.skip(fi as int))
            =~= before + overlay(rest_t, rest_f));
    }
    out
}

} // verus!
