//! Circular rotation of a title's word sequence around a keyword.
//!
//! The rotator moves leading words to the end until the lower-cased first
//! word equals the keyword. `rotated` is the mathematical model: when some
//! word matches, the words from the first match onward come first, followed
//! by the words before it; when no word matches, a full cycle of bounded
//! attempts returns the sequence to its original order.

use vstd::prelude::*;
use vstd::string::StrSliceExecFns;

use crate::text::{chars_of, lower_of, lower_word, string_of};
use crate::words::{join, join_words, split_words, words};

verus! {

/// Whether some word of `ws`, lower-cased, equals `k`.
pub open spec fn has_match(ws: Seq<Seq<char>>, k: Seq<char>) -> bool {
    exists|i: int| 0 <= i < ws.len() && lower_of(ws[i]) == k
}

/// The position of the first word of `ws` whose lower-cased form equals `k`
/// (the length of `ws` when there is none).
pub open spec fn match_index(ws: Seq<Seq<char>>, k: Seq<char>) -> int
    decreases ws.len(),
{
    if ws.len() == 0 {
        0
    } else if lower_of(ws[0]) == k {
        0
    } else {
        1 + match_index(ws.skip(1), k)
    }
}

/// The word sequence after rotating until `k` leads: the words from the
/// first match onward, then the words before it. Without a match the
/// bounded cycle of attempts leaves the sequence in its original order.
pub open spec fn rotated(ws: Seq<Seq<char>>, k: Seq<char>) -> Seq<Seq<char>> {
    if has_match(ws, k) {
        ws.skip(match_index(ws, k)) + ws.take(match_index(ws, k))
    } else {
        ws
    }
}

/// `match_index` points at the first match when one exists.
pub proof fn lemma_match_index(ws: Seq<Seq<char>>, k: Seq<char>)
    ensures
        has_match(ws, k) ==> {
            let m = match_index(ws, k);
            &&& 0 <= m < ws.len()
            &&& lower_of(ws[m]) == k
            &&& forall|j: int| 0 <= j < m ==> lower_of(ws[j]) != k
        },
        !has_match(ws, k) ==> match_index(ws, k) == ws.len(),
    decreases ws.len(),
{
    if ws.len() == 0 {
    } else if lower_of(ws[0]) == k {
    } else {
        let rest = ws.skip(1);
        lemma_match_index(rest, k);
        assert forall|i: int| 0 <= i < rest.len() implies rest[i] == ws[i + 1] by {}
        if has_match(ws, k) {
            let w = choose|i: int| 0 <= i < ws.len() && lower_of(ws[i]) == k;
            assert(w != 0);
            assert(rest[w - 1] == ws[w]);
            assert(has_match(rest, k));
            let m = match_index(ws, k);
            assert(m == 1 + match_index(rest, k));
            assert(lower_of(ws[m]) == lower_of(rest[m - 1]));
        } else {
            assert(forall|i: int| 0 <= i < rest.len() ==> lower_of(#[trigger] rest[i]) != k);
            assert(!has_match(rest, k));
        }
        if has_match(ws, k) {
            let m = match_index(ws, k);
            assert forall|j: int| 0 <= j < m implies lower_of(ws[j]) != k by {
                if j > 0 {
                    assert(rest[j - 1] == ws[j]);
                    assert(lower_of(rest[j - 1]) != k);
                }
            }
        }
    }
}

/// A first match found by a left-to-right scan is the one `match_index`
/// names.
pub proof fn lemma_match_index_at(ws: Seq<Seq<char>>, k: Seq<char>, i: int)
    requires
        0 <= i < ws.len(),
        lower_of(ws[i]) == k,
        forall|j: int| 0 <= j < i ==> lower_of(ws[j]) != k,
    ensures
        has_match(ws, k),
        match_index(ws, k) == i,
    decreases i,
{
    assert(has_match(ws, k));
    if i == 0 {
    } else {
        assert(lower_of(ws[0]) != k);
        let rest = ws.skip(1);
        assert(forall|j: int| 0 <= j < rest.len() ==> rest[j] == ws[j + 1]);
        assert(rest[i - 1] == ws[i]);
        assert forall|j: int| 0 <= j < i - 1 implies lower_of(rest[j]) != k by {
            assert(rest[j] == ws[j + 1]);
        }
        lemma_match_index_at(rest, k, i - 1);
    }
}

/// Compares two character vectors for equality of their contents.
pub fn eq_chars(a: &Vec<char>, b: &Vec<char>) -> (r: bool)
    ensures
        r == (a@ == b@),
{
    if a.len() != b.len() {
        return false;
    }
    let mut i: usize = 0;
    while i < a.len()
        invariant
            i <= a.len(),
            a@.len() == b@.len(),
            forall|j: int| 0 <= j < i ==> a@[j] == b@[j],
        decreases a.len() - i,
    {
        if a[i] != b[i] {
            return false;
        }
        i = i + 1;
    }
    proof {
        assert(a@ =~= b@);
    }
    true
}

/// A copy of a word's characters.
fn copy_word(w: &Vec<char>) -> (r: Vec<char>)
    ensures
        r@ == w@,
{
    let mut r: Vec<char> = Vec::new();
    crate::words::append_chars(&mut r, w);
    r
}

/// Finds the position of the first word whose lower-cased form equals the
/// keyword, or the word count when there is none.
fn find_match(ws: &Vec<Vec<char>>, k: &Vec<char>) -> (m: usize)
    ensures
        m == match_index(ws.deep_view(), k@),
        has_match(ws.deep_view(), k@) <==> m < ws.deep_view().len(),
{
    let ghost dv = ws.deep_view();
    let n: usize = ws.len();
    let mut i: usize = 0;
    while i < n
        invariant
            i <= n,
            n == dv.len(),
            dv == ws.deep_view(),
            forall|j: int| 0 <= j < i ==> lower_of(dv[j]) != k@,
        decreases n - i,
    {
        let low = lower_word(&ws[i]);
        assert(ws[i as int].deep_view() =~= ws[i as int]@);
        if eq_chars(&low, k) {
            proof {
                lemma_match_index_at(dv, k@, i as int);
            }
            return i;
        }
        i = i + 1;
    }
    proof {
        assert(!has_match(dv, k@));
        lemma_match_index(dv, k@);
    }
    n
}

/// Rotates the words of a title until the keyword leads, as `rotated`
/// describes.
pub fn rotate_words(ws: &Vec<Vec<char>>, k: &Vec<char>) -> (r: Vec<Vec<char>>)
    ensures
        r.deep_view() == rotated(ws.deep_view(), k@),
{
    let ghost dv = ws.deep_view();
    let n: usize = ws.len();
    let m: usize = find_match(ws, k);
    proof {
        lemma_match_index(dv, k@);
    }
    if m == n {
        assert(!has_match(dv, k@));
        let mut r: Vec<Vec<char>> = Vec::new();
        let mut j: usize = 0;
        while j < n
            invariant
                j <= n,
                n == dv.len(),
                dv == ws.deep_view(),
                r.deep_view() =~~= dv.take(j as int),
            decreases n - j,
        {
            let ghost r0 = r.deep_view();
            let w = copy_word(&ws[j]);
            r.push(w);
            assert(r.deep_view() =~~= r0.push(dv[j as int]));
            assert(dv.take(j + 1) =~= dv.take(j as int).push(dv[j as int]));
            j = j + 1;
        }
        assert(dv.take(n as int) =~= dv);
        r
    } else {
        assert(has_match(dv, k@));
        assert(match_index(dv, k@) == m);
        let mut r: Vec<Vec<char>> = Vec::new();
        let mut j: usize = m;
        while j < n
            invariant
                m <= j <= n,
                n == dv.len(),
                dv == ws.deep_view(),
                r.deep_view() =~~= dv.subrange(m as int, j as int),
            decreases n - j,
        {
            let ghost r0 = r.deep_view();
            let w = copy_word(&ws[j]);
            r.push(w);
            assert(r.deep_view() =~~= r0.push(dv[j as int]));
            assert(dv.subrange(m as int, j + 1) =~= dv.subrange(m as int, j as int).push(
                dv[j as int],
            ));
            j = j + 1;
        }
        let mut j2: usize = 0;
        while j2 < m
            invariant
                j2 <= m <= n,
                n == dv.len(),
                dv == ws.deep_view(),
                r.deep_view() =~~= dv.subrange(m as int, n as int) + dv.take(j2 as int),
            decreases m - j2,
        {
            let ghost r0 = r.deep_view();
            let w = copy_word(&ws[j2]);
            r.push(w);
            assert(r.deep_view() =~~= r0.push(dv[j2 as int]));
            assert(dv.take(j2 + 1) =~= dv.take(j2 as int).push(dv[j2 as int]));
            assert((dv.subrange(m as int, n as int) + dv.take(j2 as int)).push(dv[j2 as int])
                =~= dv.subrange(m as int, n as int) + dv.take(j2 as int).push(dv[j2 as int]));
            j2 = j2 + 1;
        }
        assert(dv.subrange(m as int, n as int) =~= dv.skip(m as int));
        assert(r.deep_view() =~~= dv.skip(m as int) + dv.take(m as int));
        r
    }
}

/// The rotated text of one (keyword, title) pair: the title's words,
/// rotated until the keyword leads, joined with single spaces.
pub open spec fn rotation_of(k: Seq<char>, t: Seq<char>) -> Seq<char> {
    join(rotated(words(t), k))
}

/// One rotation per (keyword, title) pair, in order: the rotated text
/// beside the title kept verbatim.
pub open spec fn rotations(ps: Seq<(Seq<char>, Seq<char>)>) -> Seq<(Seq<char>, Seq<char>)> {
    ps.map_values(|p: (Seq<char>, Seq<char>)| (rotation_of(p.0, p.1), p.1))
}

/// Produces the rotation of every (keyword, title) pair, as `rotations`
/// describes; exactly one rotation comes out per pair that went in, and
/// each pair's title comes through unrotated.
pub fn generate_circular_shifts(pairs: Vec<(String, String)>) -> (shifted: Vec<(String, String)>)
    ensures
        shifted.deep_view() == rotations(pairs.deep_view()),
        shifted@.len() == pairs@.len(),
{
    let ghost pdv = pairs.deep_view();
    let mut shifted: Vec<(String, String)> = Vec::new();
    let mut i: usize = 0;
    while i < pairs.len()
        invariant
            i <= pairs.len(),
            pdv == pairs.deep_view(),
            shifted.deep_view() =~~= rotations(pdv).take(i as int),
        decreases pairs.len() - i,
    {
        let p = &pairs[i];
        assert(pdv[i as int] == (p.0@, p.1@));
        let kc = chars_of(p.0.as_str());
        let tc = chars_of(p.1.as_str());
        let ws = split_words(&tc);
        let rot = rotate_words(&ws, &kc);
        let joined = join_words(&rot);
        let rs = string_of(&joined);
        let ts = p.1.clone();
        let ghost s0 = shifted.deep_view();
        shifted.push((rs, ts));
        assert(rs@ == rotation_of(pdv[i as int].0, pdv[i as int].1));
        assert(rotations(pdv)[i as int] == (rotation_of(pdv[i as int].0, pdv[i as int].1),
        pdv[i as int].1));
        assert(shifted.deep_view() =~~= s0.push(rotations(pdv)[i as int]));
        assert(rotations(pdv).take(i + 1) =~= rotations(pdv).take(i as int).push(
            rotations(pdv)[i as int],
        ));
        i = i + 1;
    }
    assert(rotations(pdv).take(pairs@.len() as int) =~= rotations(pdv));
    shifted
}

} // verus!
