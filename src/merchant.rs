//! Grouping key for merchant descriptions of bank statements.

use vstd::prelude::*;
use crate::text::{split_words, texts_view, to_upper, upper_of, words_of};

verus! {

/// Whether `pat` occurs in `s` at index `i`.
pub open spec fn occurs_at(s: Seq<char>, pat: Seq<char>, i: int) -> bool {
    0 <= i && i + pat.len() <= s.len() && s.subrange(i, i + pat.len()) == pat
}

/// The first index at or after `i` where `pat` occurs in `s`.
pub open spec fn find_from(s: Seq<char>, pat: Seq<char>, i: int) -> Option<int>
    decreases s.len() + 1 - i,
{
    if i < 0 || i + pat.len() > s.len() {
        None
    } else if occurs_at(s, pat, i) {
        Some(i)
    } else {
        find_from(s, pat, i + 1)
    }
}

/// `s` cut at the first occurrence of `pat`, or `s` whole where `pat` does not occur.
pub open spec fn cut_at(s: Seq<char>, pat: Seq<char>) -> Seq<char> {
    match find_from(s, pat, 0) {
        Some(i) => s.take(i),
        None => s,
    }
}

/// Whether a word consists of ASCII digits only.
pub open spec fn all_digits(t: Seq<char>) -> bool {
    forall|j: int| 0 <= j < t.len() ==> '0' <= #[trigger] t[j] && t[j] <= '9'
}

/// The words that make the key: those before the first `KARTE`, less the numeric ones.
pub open spec fn kept_words(ts: Seq<Seq<char>>) -> Seq<Seq<char>>
    decreases ts.len(),
{
    if ts.len() == 0 || ts[0] == "KARTE"@ {
        Seq::empty()
    } else if all_digits(ts[0]) {
        kept_words(ts.drop_first())
    } else {
        seq![ts[0]] + kept_words(ts.drop_first())
    }
}

/// Words joined by single spaces.
pub open spec fn join_spaced(ts: Seq<Seq<char>>) -> Seq<char>
    decreases ts.len(),
{
    if ts.len() == 0 {
        Seq::empty()
    } else if ts.len() == 1 {
        ts[0]
    } else {
        join_spaced(ts.drop_last()) + seq![' '] + ts.last()
    }
}

/// The key of an upper-cased description.
pub open spec fn merchant_key(upper: Seq<char>) -> Seq<char> {
    join_spaced(kept_words(words_of(cut_at(cut_at(upper, "EBILL-RECHT"@), "EBILL"@))))
}

/// Whether `pat` occurs in `s` at `i`.
fn occurs(s: &str, n: usize, pat: &str, m: usize, i: usize) -> (r: bool)
    requires
        n == s@.len(),
        m == pat@.len(),
        i + m <= n,
    ensures
        r == occurs_at(s@, pat@, i as int),
{
    let mut j: usize = 0;
    while j < m
        invariant
            n == s@.len(),
            m == pat@.len(),
            i + m <= n,
            0 <= j <= m,
            forall|k: int| 0 <= k < j ==> s@[i + k] == pat@[k],
        decreases m - j,
    {
        if s.get_char(i + j) != pat.get_char(j) {
            assert(s@.subrange(i as int, i + m)[j as int] != pat@[j as int]);
            return false;
        }
        j = j + 1;
    }
    assert(s@.subrange(i as int, i + m) =~= pat@);
    true
}

/// `s` cut at the first occurrence of `pat`.
fn cut(s: String, pat: &str) -> (r: String)
    ensures
        r@ == cut_at(s@, pat@),
{
    let n = s.unicode_len();
    let m = pat.unicode_len();
    if m > n {
        return s;
    }
    if m == 0 {
        assert(s@.subrange(0, 0) =~= pat@);
        assert(occurs_at(s@, pat@, 0));
        assert(s@.take(0) =~= Seq::<char>::empty());
        return String::new();
    }
    let mut i: usize = 0;
    while i <= n - m
        invariant
            n == s@.len(),
            m == pat@.len(),
            0 < m <= n,
            i <= n - m + 1,
            find_from(s@, pat@, 0) == find_from(s@, pat@, i as int),
        decreases n - i,
    {
        if occurs(s.as_str(), n, pat, m, i) {
            let head = s.as_str().substring_char(0, i);
            return String::from_str(head);
        }
        i = i + 1;
    }
    s
}

/// Whether a word consists of ASCII digits only.
fn is_digits(t: &String) -> (r: bool)
    ensures
        r == all_digits(t@),
{
    let n = t.as_str().unicode_len();
    let mut j: usize = 0;
    while j < n
        invariant
            n == t@.len(),
            0 <= j <= n,
            forall|k: int| 0 <= k < j ==> '0' <= #[trigger] t@[k] && t@[k] <= '9',
        decreases n - j,
    {
        let c = t.as_str().get_char(j);
        if !('0' <= c && c <= '9') {
            return false;
        }
        j = j + 1;
    }
    true
}

/// Normalises a merchant description into a grouping key: upper-cased, cut before an
/// e-bill marker (`EBILL-RECHT`, then `EBILL`), without the words from `KARTE` on and
/// without purely numeric words, the rest joined by single spaces.
pub fn normalise_merchant_key(description: &str) -> (r: String)
    ensures
        r@ == merchant_key(upper_of(description@)),
{
    let upper = to_upper(description);
    let s = cut(upper, "EBILL-RECHT");
    let s = cut(s, "EBILL");
    let tokens = split_words(s.as_str());
    let ghost ts = texts_view(tokens@);
    let mut kept: Vec<String> = Vec::new();
    let mut i: usize = 0;
    let karte = String::from_str("KARTE");
    assert(ts.skip(0) =~= ts);
    assert(texts_view(kept@) + kept_words(ts.skip(0)) =~= kept_words(ts));
    let mut stopped = false;
    while i < tokens.len() && !stopped
        invariant
            0 <= i <= tokens@.len(),
            ts == texts_view(tokens@),
            karte@ == "KARTE"@,
            !stopped ==> texts_view(kept@) + kept_words(ts.skip(i as int)) == kept_words(ts),
            stopped ==> texts_view(kept@) == kept_words(ts),
        decreases tokens@.len() - i, if stopped { 0int } else { 1int },
    {
        assert(ts.skip(i as int)[0] == tokens@[i as int]@);
        assert(ts.skip(i as int).drop_first() =~= ts.skip(i + 1));
        if tokens[i] == karte {
            assert(kept_words(ts.skip(i as int)) =~= Seq::<Seq<char>>::empty());
            assert(texts_view(kept@) =~= kept_words(ts));
            stopped = true;
        } else if !is_digits(&tokens[i]) {
            let ghost before = texts_view(kept@);
            kept.push(tokens[i].clone());
            assert(texts_view(kept@) =~= before.push(tokens@[i as int]@));
            assert(texts_view(kept@) + kept_words(ts.skip(i + 1)) =~= before + kept_words(
                ts.skip(i as int),
            ));
        }
        if !stopped {
            i = i + 1;
        }
    }
    proof {
        if !stopped {
            assert(ts.skip(i as int) =~= Seq::<Seq<char>>::empty());
            assert(texts_view(kept@) =~= kept_words(ts));
        }
    }
    let ghost kv = texts_view(kept@);
    let mut r = String::new();
    let mut j: usize = 0;
    while j < kept.len()
        invariant
            0 <= j <= kept@.len(),
            kv == texts_view(kept@),
            r@ == join_spaced(kv.take(j as int)),
        decreases kept@.len() - j,
    {
        assert(kv.take(j + 1).drop_last() =~= kv.take(j as int));
        if j > 0 {
            proof { reveal_strlit(" "); }
            r.append(" ");
        }
        r.append(kept[j].as_str());
        proof {
            if j == 0 {
                assert(r@ =~= join_spaced(kv.take(1)));
            } else {
                assert(r@ =~= join_spaced(kv.take(j + 1)));
            }
        }
        j = j + 1;
    }
    assert(kv.take(j as int) =~= kv);
    r
}

} // verus!
