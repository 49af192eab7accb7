//! The library's stated laws: proved properties of the index pipeline.

use vstd::prelude::*;
use vstd::seq_lib::lemma_multiset_commutative;

use crate::rotate::{has_match, lemma_match_index, match_index, rotated, rotation_of, rotations};
use crate::tokenize::{keyword_pairs, pair_up, title_keywords};
use crate::words::{lemma_words_join, lemma_words_proper, proper_word, words};
use crate::text::lower_of;

verus! {

/// Each word of the rotation of a title's proper words is one of those
/// words, and splitting the rotated text recovers the rotation exactly.
proof fn lemma_rotated_words(t: Seq<char>, k: Seq<char>)
    ensures
        forall|j: int|
            0 <= j < rotated(words(t), k).len() ==> #[trigger] proper_word(rotated(words(t), k)[j]),
        words(rotation_of(k, t)) == rotated(words(t), k),
{
    let ws = words(t);
    let r = rotated(ws, k);
    lemma_words_proper(t);
    if has_match(ws, k) {
        let m = match_index(ws, k);
        lemma_match_index(ws, k);
        assert forall|j: int| 0 <= j < r.len() implies #[trigger] proper_word(r[j]) by {
            if j < ws.len() - m {
                assert(r[j] == ws[m + j]);
            } else {
                assert(r[j] == ws[j - (ws.len() - m)]);
            }
        }
    }
    lemma_words_join(r);
}

/// Word-multiset preservation: the words of a rotation's text are exactly
/// the words of its source title, as a multiset — a rotation permutes,
/// never drops or adds.
pub proof fn lemma_rotation_preserves_word_multiset(t: Seq<char>, k: Seq<char>)
    ensures
        words(rotation_of(k, t)).to_multiset() == words(t).to_multiset(),
{
    broadcast use vstd::multiset::group_multiset_axioms;

    let ws = words(t);
    let r = rotated(ws, k);
    lemma_rotated_words(t, k);
    if has_match(ws, k) {
        let m = match_index(ws, k);
        lemma_match_index(ws, k);
        lemma_multiset_commutative(ws.skip(m), ws.take(m));
        lemma_multiset_commutative(ws.take(m), ws.skip(m));
        assert(ws.take(m) + ws.skip(m) =~= ws);
        assert(ws.skip(m).to_multiset().add(ws.take(m).to_multiset()) =~= ws.take(
            m,
        ).to_multiset().add(ws.skip(m).to_multiset()));
    }
}

/// Completeness: exactly one rotation comes out of every (keyword, title)
/// pair that survives filtering — none is dropped, none is duplicated.
pub proof fn lemma_completeness(ps: Seq<(Seq<char>, Seq<char>)>)
    ensures
        rotations(ps).len() == ps.len(),
{
}

/// Keyword placement: when the keyword matches some word of the title —
/// as it always does for keywords the tokenizer drew from a title whose
/// tokens carry no punctuation — the first word of the rotated text,
/// lower-cased, is the keyword itself.
pub proof fn lemma_keyword_placement(t: Seq<char>, k: Seq<char>)
    requires
        has_match(words(t), k),
    ensures
        words(rotation_of(k, t)).len() > 0,
        lower_of(words(rotation_of(k, t))[0]) == k,
{
    let ws = words(t);
    let m = match_index(ws, k);
    lemma_match_index(ws, k);
    lemma_rotated_words(t, k);
    let r = rotated(ws, k);
    assert(r[0] == ws.skip(m)[0]);
    assert(ws.skip(m)[0] == ws[m]);
}

/// A keyword drawn from a token that cleaning leaves unchanged always
/// matches a word of its own title, so such a keyword is guaranteed its
/// place at the front of the rotation.
pub proof fn lemma_clean_token_matches(t: Seq<char>, i: int)
    requires
        0 <= i < words(t).len(),
        crate::tokenize::cleaned(words(t)[i]) == words(t)[i],
    ensures
        has_match(words(t), crate::tokenize::normalize(words(t)[i])),
{
    let w = words(t)[i];
    assert(crate::tokenize::normalize(w) == lower_of(w));
}

/// No keyword of a single title's extraction is a stop word, and none is
/// empty.
proof fn lemma_title_keywords_excluded(ws: Seq<Seq<char>>, stop: Seq<Seq<char>>)
    ensures
        forall|j: int|
            0 <= j < title_keywords(ws, stop).len() ==> !stop.contains(
                #[trigger] title_keywords(ws, stop)[j],
            ) && title_keywords(ws, stop)[j].len() > 0,
    decreases ws.len(),
{
    if ws.len() == 0 {
    } else {
        let k = crate::tokenize::normalize(ws[0]);
        let rest = title_keywords(ws.skip(1), stop);
        lemma_title_keywords_excluded(ws.skip(1), stop);
        let tk = title_keywords(ws, stop);
        if k.len() > 0 && !stop.contains(k) {
            assert(tk == seq![k] + rest);
            assert forall|j: int| 0 <= j < tk.len() implies !stop.contains(#[trigger] tk[j])
                && tk[j].len() > 0 by {
                if j == 0 {
                    assert(tk[0] == k);
                } else {
                    assert(tk[j] == rest[j - 1]);
                    assert(!stop.contains(rest[j - 1]) && rest[j - 1].len() > 0);
                }
            }
        } else {
            assert(tk == rest);
            assert forall|j: int| 0 <= j < tk.len() implies !stop.contains(#[trigger] tk[j])
                && tk[j].len() > 0 by {
                assert(!stop.contains(rest[j]) && rest[j].len() > 0);
            }
        }
    }
}

/// Stop-word exclusion: no extracted (keyword, title) pair carries a stop
/// word as its keyword, nor an empty keyword.
pub proof fn lemma_stop_word_exclusion(titles: Seq<Seq<char>>, stop: Seq<Seq<char>>)
    ensures
        forall|j: int|
            0 <= j < keyword_pairs(titles, stop).len() ==> !stop.contains(
                #[trigger] keyword_pairs(titles, stop)[j].0,
            ) && keyword_pairs(titles, stop)[j].0.len() > 0,
    decreases titles.len(),
{
    if titles.len() == 0 {
    } else {
        let tks = title_keywords(words(titles[0]), stop);
        let head = pair_up(tks, titles[0]);
        let rest = keyword_pairs(titles.skip(1), stop);
        lemma_title_keywords_excluded(words(titles[0]), stop);
        lemma_stop_word_exclusion(titles.skip(1), stop);
        let kp = keyword_pairs(titles, stop);
        assert(kp == head + rest);
        assert forall|j: int| 0 <= j < kp.len() implies !stop.contains(#[trigger] kp[j].0)
            && kp[j].0.len() > 0 by {
            if j < head.len() {
                assert(kp[j] == head[j]);
                assert(head[j].0 == tks[j]);
            } else {
                assert(kp[j] == rest[j - head.len()]);
                assert(!stop.contains(rest[j - head.len()].0) && rest[j - head.len()].0.len() > 0);
            }
        }
    }
}

/// Idempotent rotation of a word sequence: when the first word already
/// carries the keyword, rotating changes nothing.
pub proof fn lemma_rotation_idempotent(ws: Seq<Seq<char>>, k: Seq<char>)
    requires
        ws.len() > 0,
        lower_of(ws[0]) == k,
    ensures
        rotated(ws, k) == ws,
{
    assert(has_match(ws, k));
    assert(match_index(ws, k) == 0);
    assert(ws.skip(0) + ws.take(0) =~= ws);
}

/// Idempotent rotation of a title: rotating an already-rotated text by the
/// keyword that produced it yields the same text.
pub proof fn lemma_rotation_idempotent_text(t: Seq<char>, k: Seq<char>)
    requires
        has_match(words(t), k),
    ensures
        rotation_of(k, rotation_of(k, t)) == rotation_of(k, t),
{
    let ws = words(t);
    let m = match_index(ws, k);
    lemma_match_index(ws, k);
    lemma_rotated_words(t, k);
    let r = rotated(ws, k);
    assert(r[0] == ws.skip(m)[0]);
    assert(ws.skip(m)[0] == ws[m]);
    lemma_rotation_idempotent(r, k);
    assert(words(rotation_of(k, t)) == r);
    assert(rotation_of(k, rotation_of(k, t)) == crate::words::join(rotated(r, k)));
}

} // verus!
