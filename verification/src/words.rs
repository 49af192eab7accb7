//! Splitting a title into words and joining words back into a line.
//!
//! `words` is the mathematical model of whitespace splitting: the maximal
//! runs of non-space characters, in order. `join` is the model of joining a
//! word sequence with single spaces. Executable counterparts work on
//! `Vec<char>` and are proved to match the models.

use vstd::prelude::*;

use crate::text::{is_space, space_char};

verus! {

/// Left-to-right scanner behind `words`: `cur` holds the word being read.
pub open spec fn words_acc(s: Seq<char>, cur: Seq<char>) -> Seq<Seq<char>>
    decreases s.len(),
{
    if s.len() == 0 {
        if cur.len() == 0 {
            Seq::<Seq<char>>::empty()
        } else {
            seq![cur]
        }
    } else if is_space(s[0]) {
        if cur.len() == 0 {
            words_acc(s.skip(1), Seq::<char>::empty())
        } else {
            seq![cur] + words_acc(s.skip(1), Seq::<char>::empty())
        }
    } else {
        words_acc(s.skip(1), cur.push(s[0]))
    }
}

/// The words of a line: the maximal runs of non-space characters, in order.
pub open spec fn words(s: Seq<char>) -> Seq<Seq<char>> {
    words_acc(s, Seq::<char>::empty())
}

/// The words joined with single spaces.
pub open spec fn join(ws: Seq<Seq<char>>) -> Seq<char>
    decreases ws.len(),
{
    if ws.len() == 0 {
        Seq::<char>::empty()
    } else if ws.len() == 1 {
        ws[0]
    } else {
        ws[0] + seq![' '] + join(ws.skip(1))
    }
}

/// A proper word: nonempty and free of separator characters.
pub open spec fn proper_word(w: Seq<char>) -> bool {
    w.len() > 0 && forall|i: int| 0 <= i < w.len() ==> !is_space(w[i])
}

/// Every word that `words_acc` emits is proper, given that the word under
/// construction is made of non-space characters.
proof fn lemma_words_acc_proper(s: Seq<char>, cur: Seq<char>)
    requires
        forall|i: int| 0 <= i < cur.len() ==> !is_space(cur[i]),
    ensures
        forall|j: int|
            0 <= j < words_acc(s, cur).len() ==> #[trigger] proper_word(words_acc(s, cur)[j]),
    decreases s.len(),
{
    if s.len() == 0 {
        if cur.len() > 0 {
            assert(proper_word(cur));
            assert(words_acc(s, cur) == seq![cur]);
            assert(words_acc(s, cur)[0] == cur);
        }
    } else if is_space(s[0]) {
        lemma_words_acc_proper(s.skip(1), Seq::<char>::empty());
        let rest = words_acc(s.skip(1), Seq::<char>::empty());
        if cur.len() > 0 {
            assert(proper_word(cur));
            assert(words_acc(s, cur) == seq![cur] + rest);
            assert forall|j: int| 0 <= j < words_acc(s, cur).len() implies
                #[trigger] proper_word(words_acc(s, cur)[j]) by {
                if j == 0 {
                    assert((seq![cur] + rest)[0] == cur);
                } else {
                    assert((seq![cur] + rest)[j] == rest[j - 1]);
                    assert(proper_word(rest[j - 1]));
                }
            }
        } else {
            assert(words_acc(s, cur) == rest);
            assert forall|j: int| 0 <= j < words_acc(s, cur).len() implies
                #[trigger] proper_word(words_acc(s, cur)[j]) by {
                assert(proper_word(rest[j]));
            }
        }
    } else {
        let cur2 = cur.push(s[0]);
        assert(forall|i: int| 0 <= i < cur2.len() ==> !is_space(#[trigger] cur2[i])) by {
            assert(forall|i: int|
                0 <= i < cur.len() ==> #[trigger] cur2[i] == cur[i]);
            assert(cur2[cur.len() as int] == s[0]);
        }
        lemma_words_acc_proper(s.skip(1), cur2);
        assert(words_acc(s, cur) == words_acc(s.skip(1), cur2));
        assert forall|j: int| 0 <= j < words_acc(s, cur).len() implies
            #[trigger] proper_word(words_acc(s, cur)[j]) by {
            assert(proper_word(words_acc(s.skip(1), cur2)[j]));
        }
    }
}

/// Every word of a line is nonempty and contains no separator.
pub proof fn lemma_words_proper(s: Seq<char>)
    ensures
        forall|j: int| 0 <= j < words(s).len() ==> #[trigger] proper_word(words(s)[j]),
{
    lemma_words_acc_proper(s, Seq::<char>::empty());
}

/// Joining after a final word: the word lands at the end, after one space
/// when something stands before it.
proof fn lemma_join_push(ws: Seq<Seq<char>>, w: Seq<char>)
    ensures
        ws.len() == 0 ==> join(ws.push(w)) == w,
        ws.len() > 0 ==> join(ws.push(w)) == join(ws) + seq![' '] + w,
    decreases ws.len(),
{
    let p = ws.push(w);
    if ws.len() == 0 {
        assert(p.len() == 1);
        assert(p[0] == w);
    } else if ws.len() == 1 {
        assert(p.len() == 2);
        assert(p[0] == ws[0]);
        assert(p.skip(1) =~= seq![w]);
        assert(join(seq![w]) == w);
        assert(join(ws) == ws[0]);
    } else {
        assert(p[0] == ws[0]);
        assert(p.skip(1) =~= ws.skip(1).push(w));
        lemma_join_push(ws.skip(1), w);
        assert(join(p) == ws[0] + seq![' '] + (join(ws.skip(1)) + seq![' '] + w));
        assert(ws[0] + seq![' '] + (join(ws.skip(1)) + seq![' '] + w) =~= (ws[0] + seq![' ']
            + join(ws.skip(1))) + seq![' '] + w);
    }
}

/// Appends the characters of `w` to `acc`.
pub(crate) fn append_chars(acc: &mut Vec<char>, w: &Vec<char>)
    ensures
        final(acc)@ == old(acc)@ + w@,
{
    let mut j: usize = 0;
    while j < w.len()
        invariant
            j <= w.len(),
            acc@ == old(acc)@ + w@.take(j as int),
        decreases w.len() - j,
    {
        acc.push(w[j]);
        assert(old(acc)@ + w@.take(j + 1) =~= (old(acc)@ + w@.take(j as int)).push(w@[j as int]));
        j = j + 1;
    }
    assert(old(acc)@ + w@.take(w@.len() as int) =~= old(acc)@ + w@);
}

/// Joins words with single spaces, as `join` describes.
pub fn join_words(ws: &Vec<Vec<char>>) -> (r: Vec<char>)
    ensures
        r@ == join(ws.deep_view()),
{
    let ghost dv = ws.deep_view();
    let mut r: Vec<char> = Vec::new();
    let mut i: usize = 0;
    assert(dv.take(0) =~= Seq::<Seq<char>>::empty());
    while i < ws.len()
        invariant
            i <= ws.len(),
            dv == ws.deep_view(),
            r@ == join(dv.take(i as int)),
        decreases ws.len() - i,
    {
        assert(dv.take(i + 1) =~= dv.take(i as int).push(dv[i as int]));
        proof {
            lemma_join_push(dv.take(i as int), dv[i as int]);
        }
        if i > 0 {
            r.push(' ');
        }
        assert(ws[i as int].deep_view() =~= ws[i as int]@);
        append_chars(&mut r, &ws[i]);
        assert(i > 0 ==> r@ =~= join(dv.take(i as int)) + seq![' '] + dv[i as int]);
        i = i + 1;
    }
    assert(dv.take(ws@.len() as int) =~= dv);
    r
}

/// Scanning a run of non-space characters only lengthens the word being read.
proof fn lemma_words_acc_solid(w: Seq<char>, s: Seq<char>, cur: Seq<char>)
    requires
        forall|i: int| 0 <= i < w.len() ==> !is_space(w[i]),
    ensures
        words_acc(w + s, cur) == words_acc(s, cur + w),
    decreases w.len(),
{
    if w.len() == 0 {
        assert(w + s =~= s);
        assert(cur + w =~= cur);
    } else {
        let t = w + s;
        assert(t.len() > 0);
        assert(t[0] == w[0]);
        assert(!is_space(t[0]));
        assert(t.skip(1) =~= w.skip(1) + s);
        assert(forall|i: int| 0 <= i < w.skip(1).len() ==> !is_space(#[trigger] w.skip(1)[i]));
        lemma_words_acc_solid(w.skip(1), s, cur.push(w[0]));
        assert(cur.push(w[0]) + w.skip(1) =~= cur + w);
    }
}

/// A separator after a complete word ends that word.
proof fn lemma_words_acc_break(s: Seq<char>, cur: Seq<char>)
    requires
        cur.len() > 0,
    ensures
        words_acc(seq![' '] + s, cur) == seq![cur] + words_acc(s, Seq::<char>::empty()),
{
    let t = seq![' '] + s;
    assert(t.len() > 0);
    assert(t[0] == ' ');
    assert(is_space(t[0]));
    assert(t.skip(1) =~= s);
}

/// Splitting undoes joining: the words of a line joined from proper words
/// are exactly those words.
pub proof fn lemma_words_join(ws: Seq<Seq<char>>)
    requires
        forall|j: int| 0 <= j < ws.len() ==> #[trigger] proper_word(ws[j]),
    ensures
        words(join(ws)) == ws,
    decreases ws.len(),
{
    let e = Seq::<char>::empty();
    if ws.len() == 0 {
        assert(words(join(ws)) =~= ws);
    } else if ws.len() == 1 {
        assert(proper_word(ws[0]));
        assert(join(ws) == ws[0]);
        assert(ws[0] + e =~= ws[0]);
        lemma_words_acc_solid(ws[0], e, e);
        assert(words_acc(ws[0] + e, e) == words_acc(e, e + ws[0]));
        assert(e + ws[0] =~= ws[0]);
        assert(words_acc(e, ws[0]) == seq![ws[0]]);
        assert(seq![ws[0]] =~= ws);
    } else {
        let rest = ws.skip(1);
        assert(proper_word(ws[0]));
        assert(forall|j: int| 0 <= j < rest.len() ==> #[trigger] proper_word(rest[j]));
        assert(join(ws) == ws[0] + seq![' '] + join(rest));
        assert(ws[0] + seq![' '] + join(rest) =~= ws[0] + (seq![' '] + join(rest)));
        lemma_words_acc_solid(ws[0], seq![' '] + join(rest), e);
        assert(words_acc(ws[0] + (seq![' '] + join(rest)), e) == words_acc(
            seq![' '] + join(rest),
            e + ws[0],
        ));
        assert(e + ws[0] =~= ws[0]);
        lemma_words_acc_break(join(rest), ws[0]);
        assert(words_acc(seq![' '] + join(rest), ws[0]) == seq![ws[0]] + words_acc(join(rest), e));
        lemma_words_join(rest);
        assert(seq![ws[0]] + rest =~= ws);
    }
}

/// Splits a line into its words, as `words` describes.
pub fn split_words(line: &Vec<char>) -> (ws: Vec<Vec<char>>)
    ensures
        ws.deep_view() == words(line@),
{
    let n: usize = line.len();
    let mut ws: Vec<Vec<char>> = Vec::new();
    let mut cur: Vec<char> = Vec::new();
    let mut i: usize = 0;
    assert(line@.skip(0) =~= line@);
    assert(ws.deep_view() =~~= Seq::<Seq<char>>::empty());
    assert(Seq::<Seq<char>>::empty() + words_acc(line@, Seq::<char>::empty()) =~= words_acc(
        line@,
        Seq::<char>::empty(),
    ));
    while i < n
        invariant
            i <= n,
            n == line@.len(),
            words(line@) == ws.deep_view() + words_acc(line@.skip(i as int), cur@),
        decreases n - i,
    {
        let ghost prev = line@.skip(i as int);
        assert(prev[0] == line@[i as int]);
        assert(prev.skip(1) =~= line@.skip(i + 1));
        let c = line[i];
        if space_char(c) {
            if cur.len() > 0 {
                let ghost ws0 = ws.deep_view();
                let ghost cur0 = cur@;
                assert(words_acc(prev, cur0) == seq![cur0] + words_acc(
                    line@.skip(i + 1),
                    Seq::<char>::empty(),
                ));
                ws.push(cur);
                cur = Vec::new();
                assert(ws.deep_view() =~~= ws0.push(cur0));
                assert(ws0 + (seq![cur0] + words_acc(line@.skip(i + 1), Seq::<char>::empty()))
                    =~= ws0.push(cur0) + words_acc(line@.skip(i + 1), Seq::<char>::empty()));
                assert(cur@ =~= Seq::<char>::empty());
            } else {
                assert(cur@ =~= Seq::<char>::empty());
                assert(words_acc(prev, cur@) == words_acc(
                    line@.skip(i + 1),
                    Seq::<char>::empty(),
                ));
            }
        } else {
            let ghost cur0 = cur@;
            assert(words_acc(prev, cur0) == words_acc(line@.skip(i + 1), cur0.push(line@[i as int])));
            cur.push(c);
        }
        i = i + 1;
    }
    assert(line@.skip(n as int).len() == 0);
    if cur.len() > 0 {
        let ghost ws0 = ws.deep_view();
        let ghost cur0 = cur@;
        assert(words_acc(line@.skip(n as int), cur0) == seq![cur0]);
        ws.push(cur);
        assert(ws.deep_view() =~~= ws0.push(cur0));
        assert(ws0 + seq![cur0] =~= ws0.push(cur0));
    } else {
        assert(words_acc(line@.skip(n as int), cur@) == Seq::<Seq<char>>::empty());
        assert(ws.deep_view() + Seq::<Seq<char>>::empty() =~= ws.deep_view());
    }
    ws
}

} // verus!
