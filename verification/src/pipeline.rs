//! The index pipeline: formatting of sorted rotations and the composed
//! end-to-end run.
//!
//! The stages run in strict sequence, each consuming the whole output of
//! the one before it: keywords are extracted, every occurrence is rotated
//! to the front of its title, the rotations are sorted, and each rotation's
//! title is wrapped for display.

use vstd::prelude::*;
use vstd::string::StringExecFns;

use crate::rotate::{generate_circular_shifts, rotations};
use crate::sort::{order_shifted_pairs, sorted_pairs};
use crate::tokenize::{keyword_pairs, split_into_keywords};

verus! {

/// A title wrapped for display beside its rotation.
pub open spec fn wrapped(t: Seq<char>) -> Seq<char> {
    "(from: "@ + t + ")"@
}

/// Every rotation beside its wrapped title, in order.
pub open spec fn formatted(ps: Seq<(Seq<char>, Seq<char>)>) -> Seq<(Seq<char>, Seq<char>)> {
    ps.map_values(|p: (Seq<char>, Seq<char>)| (p.0, wrapped(p.1)))
}

/// Wraps each pair's title for display, as `formatted` describes; the
/// rotated texts and their order are untouched.
pub fn format_output(ordered_pairs: Vec<(String, String)>) -> (out: Vec<(String, String)>)
    ensures
        out.deep_view() == formatted(ordered_pairs.deep_view()),
{
    let ghost pdv = ordered_pairs.deep_view();
    let mut out: Vec<(String, String)> = Vec::new();
    let mut i: usize = 0;
    assert(formatted(pdv).take(0) =~= Seq::<(Seq<char>, Seq<char>)>::empty());
    assert(out.deep_view() =~~= Seq::<(Seq<char>, Seq<char>)>::empty());
    while i < ordered_pairs.len()
        invariant
            i <= ordered_pairs.len(),
            pdv == ordered_pairs.deep_view(),
            out.deep_view() =~~= formatted(pdv).take(i as int),
        decreases ordered_pairs.len() - i,
    {
        let p = &ordered_pairs[i];
        assert(pdv[i as int] == (p.0@, p.1@));
        let kwic = p.0.clone();
        let mut title = String::from_str("(from: ");
        title.append(p.1.as_str());
        title.append(")");
        let ghost o0 = out.deep_view();
        out.push((kwic, title));
        assert(title@ == wrapped(pdv[i as int].1));
        assert(formatted(pdv)[i as int] == (pdv[i as int].0, wrapped(pdv[i as int].1)));
        assert(out.deep_view() =~~= o0.push(formatted(pdv)[i as int]));
        assert(formatted(pdv).take(i + 1) =~= formatted(pdv).take(i as int).push(
            formatted(pdv)[i as int],
        ));
        i = i + 1;
    }
    assert(formatted(pdv).take(ordered_pairs@.len() as int) =~= formatted(pdv));
    out
}

/// One output line per formatted pair: the rotated text, a separator, and
/// the wrapped title.
pub open spec fn rendered(ps: Seq<(Seq<char>, Seq<char>)>) -> Seq<Seq<char>> {
    ps.map_values(|p: (Seq<char>, Seq<char>)| p.0 + " : "@ + p.1)
}

/// Builds the output lines, as `rendered` describes.
pub fn render_lines(formatted_output: Vec<(String, String)>) -> (lines: Vec<String>)
    ensures
        lines.deep_view() == rendered(formatted_output.deep_view()),
{
    let ghost pdv = formatted_output.deep_view();
    let mut lines: Vec<String> = Vec::new();
    let mut i: usize = 0;
    assert(rendered(pdv).take(0) =~= Seq::<Seq<char>>::empty());
    assert(lines.deep_view() =~~= Seq::<Seq<char>>::empty());
    while i < formatted_output.len()
        invariant
            i <= formatted_output.len(),
            pdv == formatted_output.deep_view(),
            lines.deep_view() =~~= rendered(pdv).take(i as int),
        decreases formatted_output.len() - i,
    {
        let p = &formatted_output[i];
        assert(pdv[i as int] == (p.0@, p.1@));
        let mut line = p.0.clone();
        line.append(" : ");
        line.append(p.1.as_str());
        let ghost l0 = lines.deep_view();
        lines.push(line);
        assert(line@ == rendered(pdv)[i as int]);
        assert(lines.deep_view() =~~= l0.push(rendered(pdv)[i as int]));
        assert(rendered(pdv).take(i + 1) =~= rendered(pdv).take(i as int).push(
            rendered(pdv)[i as int],
        ));
        i = i + 1;
    }
    assert(rendered(pdv).take(formatted_output@.len() as int) =~= rendered(pdv));
    lines
}

/// The terminal stage of the pipeline: nothing remains to be done once the
/// formatted pairs are handed onward.
pub fn no_op() {
}

/// Runs the whole pipeline: extraction, rotation, sorting and formatting,
/// in strict sequence. Some ordering of the rotations of all surviving
/// (keyword, title) pairs comes out, each adjacent pair of rotated texts in
/// case-insensitive order and each title wrapped for display.
pub fn kwic_index(lines: Vec<String>, stop_words: Vec<String>) -> (out: Vec<(String, String)>)
    ensures
        exists|mid: Seq<(Seq<char>, Seq<char>)>|
            {
                &&& mid.to_multiset() == rotations(
                    keyword_pairs(lines.deep_view(), stop_words.deep_view()),
                ).to_multiset()
                &&& sorted_pairs(mid)
                &&& out.deep_view() == #[trigger] formatted(mid)
            },
{
    let ghost ldv = lines.deep_view();
    let ghost sdv = stop_words.deep_view();
    let pairs = split_into_keywords(lines, stop_words);
    let shifted = generate_circular_shifts(pairs);
    let ordered = order_shifted_pairs(shifted);
    let ghost mid = ordered.deep_view();
    let out = format_output(ordered);
    assert(mid.to_multiset() == rotations(keyword_pairs(ldv, sdv)).to_multiset()
        && sorted_pairs(mid) && out.deep_view() == formatted(mid));
    out
}

} // verus!
