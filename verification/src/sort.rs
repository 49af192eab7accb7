//! Case-insensitive ordering of rotations.
//!
//! Rotations are compared only by their rotated text, lower-cased, in
//! lexicographic order of the character code points. The sort is total:
//! rotations whose lower-cased texts are equal may come out in any order.

use vstd::prelude::*;
use vstd::string::StrSliceExecFns;

use crate::text::{chars_of, lower_of, lowercase_str};

verus! {

/// Lexicographic order on character sequences, by code point: `a` comes
/// no later than `b`.
pub open spec fn lex_le(a: Seq<char>, b: Seq<char>) -> bool
    decreases a.len(),
{
    if a.len() == 0 {
        true
    } else if b.len() == 0 {
        false
    } else if (a[0] as u32) < (b[0] as u32) {
        true
    } else if (a[0] as u32) > (b[0] as u32) {
        false
    } else {
        lex_le(a.skip(1), b.skip(1))
    }
}

/// `lex_le` is total: of any two sequences, one comes no later than the
/// other.
pub proof fn lemma_lex_le_total(a: Seq<char>, b: Seq<char>)
    ensures
        lex_le(a, b) || lex_le(b, a),
    decreases a.len(),
{
    if a.len() == 0 {
    } else if b.len() == 0 {
    } else if (a[0] as u32) == (b[0] as u32) {
        lemma_lex_le_total(a.skip(1), b.skip(1));
    }
}

/// `lex_le` is transitive.
pub proof fn lemma_lex_le_trans(a: Seq<char>, b: Seq<char>, c: Seq<char>)
    requires
        lex_le(a, b),
        lex_le(b, c),
    ensures
        lex_le(a, c),
    decreases a.len(),
{
    if a.len() == 0 {
    } else if b.len() == 0 {
    } else if c.len() == 0 {
    } else if (a[0] as u32) == (b[0] as u32) && (b[0] as u32) == (c[0] as u32) {
        lemma_lex_le_trans(a.skip(1), b.skip(1), c.skip(1));
    }
}

/// Decides `lex_le` in executable code.
pub fn lex_le_exec(a: &Vec<char>, b: &Vec<char>) -> (r: bool)
    ensures
        r == lex_le(a@, b@),
{
    let mut i: usize = 0;
    assert(a@.skip(0) =~= a@);
    assert(b@.skip(0) =~= b@);
    while i < a.len() && i < b.len()
        invariant
            i <= a.len(),
            i <= b.len(),
            lex_le(a@, b@) == lex_le(a@.skip(i as int), b@.skip(i as int)),
        decreases a.len() - i,
    {
        let ghost sa = a@.skip(i as int);
        let ghost sb = b@.skip(i as int);
        assert(sa[0] == a@[i as int]);
        assert(sb[0] == b@[i as int]);
        let ca = a[i] as u32;
        let cb = b[i] as u32;
        if ca < cb {
            return true;
        }
        if ca > cb {
            return false;
        }
        assert(sa.skip(1) =~= a@.skip(i + 1));
        assert(sb.skip(1) =~= b@.skip(i + 1));
        i = i + 1;
    }
    if i == a.len() {
        assert(a@.skip(i as int).len() == 0);
        true
    } else {
        assert(b@.skip(i as int).len() == 0);
        assert(a@.skip(i as int).len() > 0);
        false
    }
}

/// Ordering of two rotations: by rotated text alone, lower-cased.
pub open spec fn pair_le(a: (Seq<char>, Seq<char>), b: (Seq<char>, Seq<char>)) -> bool {
    lex_le(lower_of(a.0), lower_of(b.0))
}

/// A sequence of rotations in sorted order: each adjacent pair in order.
pub open spec fn sorted_pairs(s: Seq<(Seq<char>, Seq<char>)>) -> bool {
    forall|i: int| 0 <= i < s.len() - 1 ==> #[trigger] pair_le(s[i], s[i + 1])
}

/// Decides `pair_le` in executable code.
pub fn pair_le_exec(a: &(String, String), b: &(String, String)) -> (r: bool)
    ensures
        r == pair_le((a.0@, a.1@), (b.0@, b.1@)),
{
    let al = lowercase_str(a.0.as_str());
    let bl = lowercase_str(b.0.as_str());
    let ac = chars_of(al.as_str());
    let bc = chars_of(bl.as_str());
    lex_le_exec(&ac, &bc)
}

/// Inserting an element anywhere adds exactly it to the multiset.
proof fn lemma_insert_to_multiset(s: Seq<(Seq<char>, Seq<char>)>, j: int, x: (Seq<char>, Seq<char>))
    requires
        0 <= j <= s.len(),
    ensures
        s.insert(j, x).to_multiset() == s.to_multiset().insert(x),
{
    broadcast use vstd::seq_lib::group_to_multiset_ensures;

    let s2 = s.insert(j, x);
    assert(s2.remove(j) =~= s);
    assert(s2[j] == x);
    assert(s2.remove(j).to_multiset() =~= s2.to_multiset().remove(x));
    assert(s2.to_multiset().contains(x)) by {
        assert(s2.contains(x));
    }
    assert(s2.to_multiset() =~= s.to_multiset().insert(x));
}

/// Sorts the rotations case-insensitively by rotated text: the result
/// holds exactly the given rotations, each adjacent pair in order.
pub fn order_shifted_pairs(shifted_pairs: Vec<(String, String)>) -> (ordered: Vec<(String, String)>)
    ensures
        ordered.deep_view().to_multiset() == shifted_pairs.deep_view().to_multiset(),
        sorted_pairs(ordered.deep_view()),
{
    broadcast use vstd::seq_lib::group_to_multiset_ensures;

    let ghost pdv = shifted_pairs.deep_view();
    let mut ordered: Vec<(String, String)> = Vec::new();
    let mut i: usize = 0;
    assert(pdv.take(0) =~= Seq::<(Seq<char>, Seq<char>)>::empty());
    assert(ordered.deep_view() =~~= Seq::<(Seq<char>, Seq<char>)>::empty());
    while i < shifted_pairs.len()
        invariant
            i <= shifted_pairs.len(),
            pdv == shifted_pairs.deep_view(),
            sorted_pairs(ordered.deep_view()),
            ordered.deep_view().to_multiset() == pdv.take(i as int).to_multiset(),
        decreases shifted_pairs.len() - i,
    {
        let ghost odv = ordered.deep_view();
        let p = &shifted_pairs[i];
        let ghost pe = pdv[i as int];
        assert(pe == (p.0@, p.1@));
        let ps = (p.0.clone(), p.1.clone());
        let mut j: usize = 0;
        while j < ordered.len() && pair_le_exec(&ordered[j], &ps)
            invariant
                j <= ordered.len(),
                odv == ordered.deep_view(),
                pe == (ps.0@, ps.1@),
                forall|l: int| 0 <= l < j ==> pair_le(odv[l], pe),
            decreases ordered.len() - j,
        {
            assert(odv[j as int] == (ordered@[j as int].0@, ordered@[j as int].1@));
            j = j + 1;
        }
        assert(j < odv.len() ==> !pair_le(odv[j as int], pe));
        proof {
            if j < odv.len() {
                lemma_lex_le_total(lower_of(odv[j as int].0), lower_of(pe.0));
                assert(pair_le(pe, odv[j as int]));
            }
        }
        ordered.insert(j, ps);
        assert(ordered.deep_view() =~~= odv.insert(j as int, pe));
        proof {
            broadcast use vstd::seq_lib::group_to_multiset_ensures;

            let ndv = odv.insert(j as int, pe);
            odv.insert_ensures(j as int, pe);
            assert forall|l: int| 0 <= l < ndv.len() - 1 implies #[trigger] pair_le(
                ndv[l],
                ndv[l + 1],
            ) by {
                if l + 1 < j {
                    assert(ndv[l] == odv[l]);
                    assert(ndv[l + 1] == odv[l + 1]);
                } else if l + 1 == j {
                    assert(ndv[l] == odv[l]);
                    assert(ndv[l + 1] == pe);
                } else if l == j {
                    assert(ndv[l] == pe);
                    assert(ndv[l + 1] == odv[l]);
                } else {
                    assert(ndv[l] == odv[l - 1]);
                    assert(ndv[l + 1] == odv[l]);
                }
            }
            lemma_insert_to_multiset(odv, j as int, pe);
            assert(pdv.take(i + 1) =~= pdv.take(i as int).push(pe));
            assert(pdv.take(i as int).push(pe).to_multiset() =~= pdv.take(
                i as int,
            ).to_multiset().insert(pe));
        }
        i = i + 1;
    }
    assert(pdv.take(shifted_pairs@.len() as int) =~= pdv);
    ordered
}

} // verus!
