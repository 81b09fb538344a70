//! Word counting: splitting a text into whitespace-separated words and
//! finding the word that occurs most often, earliest first occurrence
//! breaking ties.

use vstd::prelude::*;
use vstd::seq_lib::group_to_multiset_ensures;
use crate::text::is_unicode_space;

verus! {

/// The position of the first whitespace character in `s`, if any.
pub open spec fn first_space(s: Seq<char>) -> Option<nat>
    decreases s.len(),
{
    if s.len() == 0 {
        None
    } else if is_unicode_space(s.first()) {
        Some(0)
    } else {
        match first_space(s.drop_first()) {
            None => None,
            Some(i) => Some((i + 1) as nat),
        }
    }
}

proof fn lemma_first_space(s: Seq<char>, i: int)
    requires
        0 <= i <= s.len(),
        forall|k: int| 0 <= k < i ==> !is_unicode_space(s[k]),
        i < s.len() ==> is_unicode_space(s[i]),
    ensures
        i < s.len() ==> first_space(s) == Some(i as nat),
        i == s.len() ==> first_space(s) is None,
    decreases s.len(),
{
    if s.len() > 0 && i > 0 {
        assert(s.drop_first() =~= s.skip(1));
        lemma_first_space(s.skip(1), i - 1);
    }
}

/// The whitespace-separated words of a text, in order: the maximal nonempty
/// runs of non-whitespace characters.
pub open spec fn spec_words(s: Seq<char>) -> Seq<Seq<char>>
    decreases s.len(),
{
    if s.len() == 0 {
        Seq::empty()
    } else if is_unicode_space(s.first()) {
        spec_words(s.drop_first())
    } else {
        match first_space(s) {
            None => seq![s],
            Some(i) => {
                let j = if 1 <= i as int <= s.len() {
                    i as int
                } else {
                    s.len() as int
                };
                seq![s.take(j)] + spec_words(s.skip(j))
            },
        }
    }
}

/// Splits a text into its whitespace-separated words, in order.
pub fn split_words(text: &str) -> (r: Vec<String>)
    ensures
        r.deep_view() == spec_words(text@),
{
    let n = text.unicode_len();
    let mut out: Vec<String> = Vec::new();
    let mut pos: usize = 0;
    proof {
        assert(text@.skip(0) =~= text@);
        assert(out.deep_view() =~= Seq::<Seq<char>>::empty());
        assert(out.deep_view() + spec_words(text@) =~= spec_words(text@));
    }
    while pos < n
        invariant
            n == text@.len(),
            pos <= n,
            out.deep_view() + spec_words(text@.skip(pos as int)) =~= spec_words(text@),
        decreases n - pos,
    {
        let ghost rem = text@.skip(pos as int);
        if crate::text::char_is_space(text.get_char(pos)) {
            proof {
                assert(rem.drop_first() =~= text@.skip(pos + 1));
            }
            pos = pos + 1;
        } else {
            let mut i: usize = pos + 1;
            while i < n && !crate::text::char_is_space(text.get_char(i))
                invariant
                    n == text@.len(),
                    pos < i <= n,
                    forall|k: int| pos <= k < i ==> !is_unicode_space(text@[k]),
                decreases n - i,
            {
                i = i + 1;
            }
            proof {
                assert(forall|k: int| 0 <= k < i - pos ==> !is_unicode_space(#[trigger] rem[k]));
                lemma_first_space(rem, i - pos);
            }
            let word = text.substring_char(pos, i).to_owned();
            proof {
                assert(word@ =~= rem.take(i - pos));
            }
            let ghost out_pre = out.deep_view();
            out.push(word);
            proof {
                assert(out.deep_view() =~= out_pre.push(word@));
                if i == n {
                    assert(rem.take(i - pos) =~= rem);
                    assert(spec_words(rem) =~= seq![rem]);
                    assert(text@.skip(n as int) =~= Seq::<char>::empty());
                    assert(spec_words(Seq::<char>::empty()) =~= Seq::<Seq<char>>::empty());
                    assert(out.deep_view() + spec_words(text@.skip(n as int)) =~= out_pre
                        + spec_words(rem));
                } else {
                    assert(spec_words(rem) =~= seq![rem.take(i - pos)] + spec_words(
                        rem.skip(i - pos),
                    ));
                    assert(rem.skip(i - pos) =~= text@.skip(i as int));
                    assert(out.deep_view() + spec_words(text@.skip(i as int)) =~= out_pre
                        + spec_words(rem));
                }
            }
            pos = i;
        }
    }
    proof {
        assert(text@.skip(pos as int) =~= Seq::<char>::empty());
        assert(spec_words(Seq::<char>::empty()) =~= Seq::<Seq<char>>::empty());
        assert(out.deep_view() =~= spec_words(text@));
    }
    out
}

/// `p` is the first position at which the word `w` occurs.
pub open spec fn is_first_occ(ws: Seq<Seq<char>>, p: int, w: Seq<char>) -> bool {
    &&& 0 <= p < ws.len()
    &&& ws[p] == w
    &&& forall|q: int| 0 <= q < p ==> ws[q] != w
}

spec fn has_entry(counts: Seq<(String, usize)>, w: Seq<char>) -> bool {
    exists|a: int| 0 <= a < counts.len() && counts[a].0@ == w
}

spec fn counting_inv(
    ws: Seq<Seq<char>>,
    counts: Seq<(String, usize)>,
    firsts: Seq<int>,
    k: int,
) -> bool {
    &&& counts.len() == firsts.len()
    &&& forall|a: int, b: int| 0 <= a < b < counts.len() ==> counts[a].0@ != counts[b].0@
    &&& forall|a: int|
        0 <= a < counts.len() ==> ws.take(k).to_multiset().count(#[trigger] counts[a].0@)
            == counts[a].1
    &&& forall|a: int|
        0 <= a < counts.len() ==> is_first_occ(ws, #[trigger] firsts[a], counts[a].0@)
            && firsts[a] < k
    &&& forall|a: int, b: int| 0 <= a < b < counts.len() ==> firsts[a] < firsts[b]
    &&& forall|q: int| 0 <= q < k ==> has_entry(counts, #[trigger] ws[q])
}

/// The most frequent word of a text and how often it occurs. For an empty
/// text (no words) the word is empty and the count 0; otherwise the result
/// is the earliest-first-occurring word among those with the maximal count:
/// every word occurring before its first occurrence occurs strictly less
/// often.
pub fn most_frequent_word(text: &str) -> (r: (String, usize))
    ensures
        ({
            let ws = spec_words(text@);
            if ws.len() == 0 {
                r.0@ == Seq::<char>::empty() && r.1 == 0
            } else {
                &&& exists|p: int|
                    #[trigger] is_first_occ(ws, p, r.0@) && ws.to_multiset().count(r.0@) == r.1
                        && (forall|q: int| 0 <= q < p ==> ws.to_multiset().count(ws[q]) < r.1)
                &&& forall|w: Seq<char>|
                    ws.contains(w) ==> ws.to_multiset().count(w) <= r.1
            }
        }),
{
    broadcast use group_to_multiset_ensures;
    broadcast use vstd::multiset::group_multiset_axioms;

    let words = split_words(text);
    let ghost ws = spec_words(text@);
    if words.len() == 0 {
        return (String::new(), 0);
    }
    let mut counts: Vec<(String, usize)> = Vec::new();
    let ghost mut firsts: Seq<int> = Seq::empty();
    let mut k: usize = 0;
    proof {
        assert(ws.take(0) =~= Seq::<Seq<char>>::empty());
    }
    while k < words.len()
        invariant
            ws == words.deep_view(),
            k <= ws.len(),
            ws.len() == words@.len(),
            counting_inv(ws, counts@, firsts, k as int),
        decreases words@.len() - k,
    {
        broadcast use group_to_multiset_ensures;
        broadcast use vstd::multiset::group_multiset_axioms;

        let ghost counts_pre = counts@;
        let ghost wk = ws[k as int];
        proof {
            assert(words@[k as int]@ == ws[k as int]);
            assert(ws.take(k + 1).drop_last() =~= ws.take(k as int));
            assert(ws.take(k + 1).last() == ws[k as int]);
            assert(ws.take(k + 1) =~= ws.take(k as int).push(ws[k as int]));
        }
        let mut a: usize = 0;
        let mut found = false;
        while a < counts.len() && !found
            invariant
                counts@ == counts_pre,
                a <= counts_pre.len(),
                wk == ws[k as int],
                ws.len() == words@.len(),
                k < ws.len(),
                ws == words.deep_view(),
                found ==> a < counts_pre.len() && counts_pre[a as int].0@ == wk,
                !found ==> forall|b: int| 0 <= b < a ==> counts_pre[b].0@ != wk,
            decreases counts_pre.len() - a, (if found { 0int } else { 1int }),
        {
            if counts[a].0 == words[k] {
                found = true;
            } else {
                a = a + 1;
            }
        }
        if found {
            proof {
                assert(counting_inv(ws, counts@, firsts, k as int));
                assert(ws.take(k as int).to_multiset().count(counts@[a as int].0@) == counts@[
                    a as int].1);
                assert(ws.take(k as int).to_multiset().count(wk) <= ws.take(
                    k as int,
                ).to_multiset().len());
            }
            let key = counts[a].0.clone();
            let c = counts[a].1;
            counts[a] = (key, c + 1);
            proof {
                assert(counts@ =~= counts_pre.update(a as int, (key, (c + 1) as usize)));
                assert forall|x: int| 0 <= x < counts@.len() implies ws.take(
                    k + 1,
                ).to_multiset().count(#[trigger] counts@[x].0@) == counts@[x].1 by {
                    assert(ws.take(k + 1).to_multiset() =~= ws.take(k as int).to_multiset().insert(
                        wk,
                    ));
                    if x == a as int {
                        assert(counts@[x].0@ == wk);
                    } else {
                        assert(counts@[x] == counts_pre[x]);
                        assert(counts_pre[x].0@ != wk);
                    }
                }
                assert forall|q: int| 0 <= q < k + 1 implies has_entry(
                    counts@,
                    #[trigger] ws[q],
                ) by {
                    if q < k {
                        let b = choose|b: int|
                            0 <= b < counts_pre.len() && counts_pre[b].0@ == ws[q];
                        assert(counts@[b].0@ == ws[q]);
                    } else {
                        assert(counts@[a as int].0@ == wk);
                    }
                }
                assert(counting_inv(ws, counts@, firsts, k + 1));
            }
        } else {
            proof {
                assert forall|q: int| 0 <= q < k implies ws[q] != wk by {
                    if ws[q] == wk {
                        assert(has_entry(counts_pre, ws[q]));
                        let b = choose|b: int|
                            0 <= b < counts_pre.len() && counts_pre[b].0@ == ws[q];
                        assert(counts_pre[b].0@ == wk);
                    }
                }
                assert(!ws.take(k as int).contains(wk)) by {
                    if ws.take(k as int).contains(wk) {
                        let q = choose|q: int|
                            0 <= q < k && ws.take(k as int)[q] == wk;
                        assert(ws[q] == wk);
                    }
                }
                assert(ws.take(k as int).to_multiset().count(wk) == 0);
            }
            let key = words[k].clone();
            counts.push((key, 1));
            proof {
                firsts = firsts.push(k as int);
                assert(counts@ =~= counts_pre.push((key, 1)));
                assert(ws.take(k + 1).to_multiset() =~= ws.take(k as int).to_multiset().insert(
                    wk,
                ));
                assert forall|x: int| 0 <= x < counts@.len() implies ws.take(
                    k + 1,
                ).to_multiset().count(#[trigger] counts@[x].0@) == counts@[x].1 by {
                    if x < counts_pre.len() {
                        assert(counts@[x] == counts_pre[x]);
                        assert(counts_pre[x].0@ != wk);
                    } else {
                        assert(counts@[x].0@ == wk);
                    }
                }
                assert forall|q: int| 0 <= q < k + 1 implies has_entry(
                    counts@,
                    #[trigger] ws[q],
                ) by {
                    if q < k {
                        let b = choose|b: int|
                            0 <= b < counts_pre.len() && counts_pre[b].0@ == ws[q];
                        assert(counts@[b].0@ == ws[q]);
                    } else {
                        assert(counts@[counts@.len() - 1].0@ == wk);
                    }
                }
                assert(is_first_occ(ws, k as int, wk));
                assert(counting_inv(ws, counts@, firsts, k + 1));
            }
        }
        k = k + 1;
    }
    proof {
        assert(ws.take(k as int) =~= ws);
        assert(has_entry(counts@, ws[0]));
    }
    let mut best_i: usize = 0;
    let mut best: usize = counts[0].1;
    let mut j: usize = 1;
    while j < counts.len()
        invariant
            counting_inv(ws, counts@, firsts, ws.len() as int),
            ws.take(ws.len() as int) == ws,
            1 <= j <= counts@.len(),
            best_i < j,
            best == counts@[best_i as int].1,
            forall|b: int| 0 <= b < j ==> counts@[b].1 <= best,
            forall|b: int| 0 <= b < best_i ==> counts@[b].1 < best,
        decreases counts@.len() - j,
    {
        if counts[j].1 > best {
            best = counts[j].1;
            best_i = j;
        }
        j = j + 1;
    }
    let result_word = counts[best_i].0.clone();
    proof {
        broadcast use group_to_multiset_ensures;

        let p = firsts[best_i as int];
        assert(is_first_occ(ws, p, result_word@));
        assert(ws.to_multiset().count(result_word@) == best);
        assert forall|q: int| 0 <= q < p implies ws.to_multiset().count(ws[q]) < best by {
            assert(has_entry(counts@, ws[q]));
            let b = choose|b: int| 0 <= b < counts@.len() && counts@[b].0@ == ws[q];
            assert(is_first_occ(ws, firsts[b], counts@[b].0@));
            assert(firsts[b] <= q) by {
                if q < firsts[b] {
                    assert(ws[q] != counts@[b].0@);
                }
            }
            assert(b < best_i) by {
                if b == best_i {
                    assert(firsts[b] == p);
                } else if b > best_i as int {
                    assert(firsts[best_i as int] < firsts[b]);
                }
            }
            assert(counts@[b].1 < best);
        }
        assert forall|w: Seq<char>| ws.contains(w) implies ws.to_multiset().count(w)
            <= best by {
            let q = choose|q: int| 0 <= q < ws.len() && ws[q] == w;
            assert(has_entry(counts@, ws[q]));
            let b = choose|b: int| 0 <= b < counts@.len() && counts@[b].0@ == ws[q];
            assert(ws.to_multiset().count(w) == counts@[b].1);
        }
    }
    (result_word, best)
}

} // verus!
