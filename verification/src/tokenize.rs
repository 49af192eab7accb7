//! Keyword extraction: cleaning, case folding and stop-word filtering.
//!
//! Every whitespace-separated token of every title is stripped of leading
//! and trailing punctuation and lower-cased. Tokens that survive — neither
//! empty after cleaning nor listed as stop words — each yield one
//! (keyword, title) pair, in title order and left-to-right within a title.

use vstd::prelude::*;
use vstd::string::StrSliceExecFns;
use vstd::string::StringExecFns;

use crate::rotate::eq_chars;
use crate::text::{alnum_char, chars_of, is_alnum, lower_of, lower_word};
use crate::words::{split_words, words};

verus! {

/// Strips leading characters that are not letters or digits.
pub open spec fn trim_front(w: Seq<char>) -> Seq<char>
    decreases w.len(),
{
    if w.len() == 0 {
        w
    } else if is_alnum(w[0]) {
        w
    } else {
        trim_front(w.skip(1))
    }
}

/// Strips trailing characters that are not letters or digits.
pub open spec fn trim_back(w: Seq<char>) -> Seq<char>
    decreases w.len(),
{
    if w.len() == 0 {
        w
    } else if is_alnum(w[w.len() - 1]) {
        w
    } else {
        trim_back(w.take(w.len() - 1))
    }
}

/// A token with leading and trailing punctuation stripped.
pub open spec fn cleaned(w: Seq<char>) -> Seq<char> {
    trim_back(trim_front(w))
}

/// The normalized form of a token: cleaned, then lower-cased.
pub open spec fn normalize(w: Seq<char>) -> Seq<char> {
    lower_of(cleaned(w))
}

/// Cleans a token, as `cleaned` describes.
pub fn clean_word(w: &Vec<char>) -> (r: Vec<char>)
    ensures
        r@ == cleaned(w@),
{
    let n: usize = w.len();
    let mut lo: usize = 0;
    assert(w@.skip(0) =~= w@);
    while lo < n && !alnum_char(w[lo])
        invariant
            lo <= n,
            n == w@.len(),
            trim_front(w@) == trim_front(w@.skip(lo as int)),
        decreases n - lo,
    {
        assert(w@.skip(lo as int)[0] == w@[lo as int]);
        assert(w@.skip(lo as int).skip(1) =~= w@.skip(lo + 1));
        lo = lo + 1;
    }
    if lo == n {
        assert(w@.skip(n as int).len() == 0);
        assert(trim_front(w@) == w@.skip(n as int));
        assert(trim_back(w@.skip(n as int)) == w@.skip(n as int));
        let r: Vec<char> = Vec::new();
        assert(r@ =~= cleaned(w@));
        return r;
    }
    let ghost t = w@.skip(lo as int);
    assert(t[0] == w@[lo as int]);
    assert(trim_front(w@) == t);
    let mut hi: usize = n;
    assert(t.take(n - lo) =~= t);
    while hi > lo && !alnum_char(w[hi - 1])
        invariant
            lo <= hi <= n,
            n == w@.len(),
            t == w@.skip(lo as int),
            is_alnum(t[0]),
            trim_back(t) == trim_back(t.take(hi - lo)),
        decreases hi,
    {
        let ghost p = t.take(hi - lo);
        assert(p[p.len() - 1] == w@[hi - 1]);
        assert(p.take(p.len() - 1) =~= t.take(hi - 1 - lo));
        hi = hi - 1;
    }
    if hi == lo {
        assert(t.take(0).len() == 0);
        assert(trim_back(t.take(0)) == t.take(0));
        let r: Vec<char> = Vec::new();
        assert(r@ =~= cleaned(w@));
        return r;
    }
    assert(is_alnum(w@[hi - 1]));
    assert(t.take(hi - lo)[hi - lo - 1] == w@[hi - 1]);
    assert(trim_back(t) == t.take(hi - lo));
    let mut r: Vec<char> = Vec::new();
    let mut j: usize = lo;
    while j < hi
        invariant
            lo <= j <= hi <= n,
            n == w@.len(),
            t == w@.skip(lo as int),
            r@ == t.take(j - lo),
        decreases hi - j,
    {
        r.push(w[j]);
        assert(t.take(j + 1 - lo) =~= t.take(j - lo).push(w@[j as int]));
        j = j + 1;
    }
    r
}

/// The normalized form of a token, as `normalize` describes.
pub fn normalize_word(w: &Vec<char>) -> (r: Vec<char>)
    ensures
        r@ == normalize(w@),
{
    let c = clean_word(w);
    lower_word(&c)
}

/// Whether the normalized word stands in the stop-word list.
pub fn is_stop_word(stop_words: &Vec<String>, w: &Vec<char>) -> (r: bool)
    ensures
        r == stop_words.deep_view().contains(w@),
{
    let ghost sdv = stop_words.deep_view();
    let mut i: usize = 0;
    while i < stop_words.len()
        invariant
            i <= stop_words.len(),
            sdv == stop_words.deep_view(),
            forall|j: int| 0 <= j < i ==> sdv[j] != w@,
        decreases stop_words.len() - i,
    {
        let sc = chars_of(stop_words[i].as_str());
        assert(sdv[i as int] == stop_words@[i as int]@);
        if eq_chars(&sc, w) {
            assert(sdv.contains(w@));
            return true;
        }
        i = i + 1;
    }
    assert(forall|j: int| 0 <= j < sdv.len() ==> sdv[j] != w@);
    false
}

/// The keywords a single title contributes: the normalized form of each of
/// its words, kept when it is nonempty and not a stop word.
pub open spec fn title_keywords(ws: Seq<Seq<char>>, stop: Seq<Seq<char>>) -> Seq<Seq<char>>
    decreases ws.len(),
{
    if ws.len() == 0 {
        Seq::<Seq<char>>::empty()
    } else {
        let k = normalize(ws[0]);
        let rest = title_keywords(ws.skip(1), stop);
        if k.len() > 0 && !stop.contains(k) {
            seq![k] + rest
        } else {
            rest
        }
    }
}

/// Each keyword paired with the title it came from.
pub open spec fn pair_up(ks: Seq<Seq<char>>, t: Seq<char>) -> Seq<(Seq<char>, Seq<char>)> {
    ks.map_values(|k: Seq<char>| (k, t))
}

/// All (keyword, title) pairs of all titles, in title order and
/// left-to-right within a title.
pub open spec fn keyword_pairs(titles: Seq<Seq<char>>, stop: Seq<Seq<char>>) -> Seq<
    (Seq<char>, Seq<char>),
>
    decreases titles.len(),
{
    if titles.len() == 0 {
        Seq::<(Seq<char>, Seq<char>)>::empty()
    } else {
        pair_up(title_keywords(words(titles[0]), stop), titles[0]) + keyword_pairs(
            titles.skip(1),
            stop,
        )
    }
}

/// The stop-word list fixed at startup.
pub open spec fn default_stop_list() -> Seq<Seq<char>> {
    seq!["a"@, "the"@, "is"@, "on"@, "at"@, "sat"@]
}

/// The fixed stop words supplied at startup: a, the, is, on, at, sat.
pub fn default_stop_words() -> (stop_words: Vec<String>)
    ensures
        stop_words.deep_view() == default_stop_list(),
{
    let mut stop_words: Vec<String> = Vec::new();
    stop_words.push(String::from_str("a"));
    stop_words.push(String::from_str("the"));
    stop_words.push(String::from_str("is"));
    stop_words.push(String::from_str("on"));
    stop_words.push(String::from_str("at"));
    stop_words.push(String::from_str("sat"));
    assert(stop_words.deep_view() =~~= default_stop_list());
    stop_words
}

/// Extracts every (keyword, title) pair, as `keyword_pairs` describes: one
/// pair per token whose normalized form is nonempty and not a stop word.
pub fn split_into_keywords(lines: Vec<String>, stop_words: Vec<String>) -> (pairs: Vec<
    (String, String),
>)
    ensures
        pairs.deep_view() == keyword_pairs(lines.deep_view(), stop_words.deep_view()),
{
    let ghost ldv = lines.deep_view();
    let ghost sdv = stop_words.deep_view();
    let mut pairs: Vec<(String, String)> = Vec::new();
    let mut i: usize = 0;
    assert(ldv.skip(0) =~= ldv);
    assert(pairs.deep_view() =~~= Seq::<(Seq<char>, Seq<char>)>::empty());
    while i < lines.len()
        invariant
            i <= lines.len(),
            ldv == lines.deep_view(),
            sdv == stop_words.deep_view(),
            keyword_pairs(ldv, sdv) == pairs.deep_view() + keyword_pairs(ldv.skip(i as int), sdv),
        decreases lines.len() - i,
    {
        let ghost t = ldv[i as int];
        assert(ldv.skip(i as int)[0] == t);
        assert(ldv.skip(i as int).skip(1) =~= ldv.skip(i + 1));
        let tc = chars_of(lines[i].as_str());
        assert(tc@ == t);
        let ws = split_words(&tc);
        let ghost wdv = ws.deep_view();
        assert(wdv == words(t));
        let ghost outer_rest = keyword_pairs(ldv.skip(i + 1), sdv);
        assert(keyword_pairs(ldv.skip(i as int), sdv) == pair_up(title_keywords(wdv, sdv), t)
            + outer_rest);
        assert(wdv.skip(0) =~= wdv);
        let mut j: usize = 0;
        while j < ws.len()
            invariant
                j <= ws.len(),
                wdv == ws.deep_view(),
                sdv == stop_words.deep_view(),
                ldv == lines.deep_view(),
                i < ldv.len(),
                t == ldv[i as int],
                tc@ == t,
                keyword_pairs(ldv, sdv) == pairs.deep_view() + pair_up(
                    title_keywords(wdv.skip(j as int), sdv),
                    t,
                ) + outer_rest,
            decreases ws.len() - j,
        {
            let ghost tk = title_keywords(wdv.skip(j as int), sdv);
            assert(wdv.skip(j as int)[0] == wdv[j as int]);
            assert(wdv.skip(j as int).skip(1) =~= wdv.skip(j + 1));
            let ghost k = normalize(wdv[j as int]);
            let ghost tk_rest = title_keywords(wdv.skip(j + 1), sdv);
            assert(ws[j as int].deep_view() =~= ws[j as int]@);
            let kc = normalize_word(&ws[j]);
            assert(kc@ == k);
            if kc.len() > 0 && !is_stop_word(&stop_words, &kc) {
                assert(tk == seq![k] + tk_rest);
                assert(pair_up(seq![k] + tk_rest, t) =~= seq![(k, t)] + pair_up(tk_rest, t));
                let ghost p0 = pairs.deep_view();
                let ks = crate::text::string_of(&kc);
                let ts = lines[i].clone();
                pairs.push((ks, ts));
                assert(pairs.deep_view() =~~= p0.push((k, t)));
                assert(p0 + (seq![(k, t)] + pair_up(tk_rest, t)) + outer_rest =~= p0.push((k, t))
                    + pair_up(tk_rest, t) + outer_rest);
            } else {
                assert(tk == tk_rest);
            }
            j = j + 1;
        }
        assert(wdv.skip(ws@.len() as int).len() == 0);
        assert(title_keywords(wdv.skip(ws@.len() as int), sdv)
            == Seq::<Seq<char>>::empty());
        assert(pair_up(Seq::<Seq<char>>::empty(), t) =~= Seq::<(Seq<char>, Seq<char>)>::empty());
        assert(pairs.deep_view() + Seq::<(Seq<char>, Seq<char>)>::empty() =~= pairs.deep_view());
        i = i + 1;
    }
    assert(ldv.skip(lines@.len() as int).len() == 0);
    assert(keyword_pairs(ldv.skip(lines@.len() as int), sdv) == Seq::<(Seq<char>, Seq<char>)>::empty());
    assert(pairs.deep_view() + Seq::<(Seq<char>, Seq<char>)>::empty() =~= pairs.deep_view());
    pairs
}

} // verus!
