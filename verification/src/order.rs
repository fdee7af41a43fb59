//! Lexicographic ordering of strings (by Unicode code point) and a verified
//! sort-and-deduplicate pass over string vectors.
//!
//! The executable enumerator presents program names sorted and free of
//! duplicates; this module provides the order, its algebraic laws, and the
//! insertion routine that keeps a vector strictly sorted.

use vstd::prelude::*;

verus! {

/// Strict lexicographic order on character sequences, comparing code points:
/// `a` comes before `b` if at the first differing position `a`'s character is
/// smaller, or if `a` is a proper prefix of `b`.
pub open spec fn lex_lt(a: Seq<char>, b: Seq<char>) -> bool
    decreases a.len(),
{
    if b.len() == 0 {
        false
    } else if a.len() == 0 {
        true
    } else if a[0] != b[0] {
        (a[0] as int) < (b[0] as int)
    } else {
        lex_lt(a.drop_first(), b.drop_first())
    }
}

/// The order is irreflexive.
pub proof fn lemma_lex_lt_irrefl(a: Seq<char>)
    ensures
        !lex_lt(a, a),
    decreases a.len(),
{
    if a.len() > 0 {
        lemma_lex_lt_irrefl(a.drop_first());
    }
}

/// The order is total: two sequences are ordered one way or the other, or equal.
pub proof fn lemma_lex_lt_total(a: Seq<char>, b: Seq<char>)
    ensures
        lex_lt(a, b) || lex_lt(b, a) || a == b,
    decreases a.len(),
{
    if a.len() == 0 && b.len() == 0 {
        assert(a =~= b);
    } else if a.len() == 0 {
        assert(lex_lt(a, b));
    } else if b.len() == 0 {
        assert(lex_lt(b, a));
    } else {
        if a[0] != b[0] {
            assert(a[0] as int != b[0] as int);
            assert(lex_lt(a, b) || lex_lt(b, a));
        } else {
            lemma_lex_lt_total(a.drop_first(), b.drop_first());
            if a.drop_first() == b.drop_first() {
                assert(a.drop_first().len() == a.len() - 1);
                assert(b.drop_first().len() == b.len() - 1);
                assert(a.len() == b.len());
                assert forall|k: int| 0 <= k < a.len() implies a[k] == b[k] by {
                    if k > 0 {
                        assert(a[k] == a.drop_first()[k - 1]);
                        assert(b[k] == b.drop_first()[k - 1]);
                    }
                }
                assert(a =~= b);
            }
        }
    }
}

/// The order is transitive.
pub proof fn lemma_lex_lt_trans(a: Seq<char>, b: Seq<char>, c: Seq<char>)
    requires
        lex_lt(a, b),
        lex_lt(b, c),
    ensures
        lex_lt(a, c),
    decreases b.len(),
{
    if a.len() > 0 {
        if a[0] == b[0] && b[0] == c[0] {
            lemma_lex_lt_trans(a.drop_first(), b.drop_first(), c.drop_first());
        }
    }
}

/// Two sequences that agree on their first `i` characters compare the same
/// way as their tails past `i`.
pub proof fn lemma_lex_lt_skip(a: Seq<char>, b: Seq<char>, i: int)
    requires
        0 <= i <= a.len(),
        i <= b.len(),
        forall|k: int| 0 <= k < i ==> a[k] == b[k],
    ensures
        lex_lt(a, b) == lex_lt(a.skip(i), b.skip(i)),
    decreases i,
{
    if i > 0 {
        lemma_lex_lt_skip(a.drop_first(), b.drop_first(), i - 1);
        assert(a.drop_first().skip(i - 1) =~= a.skip(i));
        assert(b.drop_first().skip(i - 1) =~= b.skip(i));
    } else {
        assert(a.skip(0) =~= a);
        assert(b.skip(0) =~= b);
    }
}

/// Decides [`lex_lt`] on two string slices by scanning their characters.
pub fn str_lt(a: &str, b: &str) -> (r: bool)
    ensures
        r == lex_lt(a@, b@),
{
    let a_len = a.unicode_len();
    let b_len = b.unicode_len();
    let mut i: usize = 0;
    loop
        invariant
            i <= a_len,
            i <= b_len,
            a_len == a@.len(),
            b_len == b@.len(),
            forall|k: int| 0 <= k < i ==> a@[k] == b@[k],
        decreases a_len - i,
    {
        proof {
            lemma_lex_lt_skip(a@, b@, i as int);
        }
        if i == a_len {
            assert(a@.skip(i as int).len() == 0);
            return i < b_len;
        }
        if i == b_len {
            assert(b@.skip(i as int).len() == 0);
            return false;
        }
        let ca = a.get_char(i);
        let cb = b.get_char(i);
        if ca != cb {
            assert(a@.skip(i as int)[0] == ca);
            assert(b@.skip(i as int)[0] == cb);
            let r = (ca as u32) < (cb as u32);
            assert(r == ((ca as int) < (cb as int)));
            return r;
        }
        i = i + 1;
    }
}

/// The character sequences of a sequence of strings.
pub open spec fn views(s: Seq<String>) -> Seq<Seq<char>> {
    Seq::new(s.len(), |i: int| s[i]@)
}

/// Strictly increasing in [`lex_lt`]: sorted with no two elements equal.
pub open spec fn strictly_sorted(s: Seq<Seq<char>>) -> bool {
    forall|i: int, j: int| 0 <= i < j < s.len() ==> lex_lt(s[i], s[j])
}

/// A strictly sorted sequence has pairwise distinct elements.
pub proof fn lemma_strictly_sorted_distinct(s: Seq<Seq<char>>)
    requires
        strictly_sorted(s),
    ensures
        forall|i: int, j: int| 0 <= i < j < s.len() ==> s[i] != s[j],
{
    assert forall|i: int, j: int| 0 <= i < j < s.len() implies s[i] != s[j] by {
        lemma_lex_lt_irrefl(s[i]);
    }
}

/// Inserts `x` into a strictly sorted vector, keeping it strictly sorted;
/// if an equal string is already present the vector is left unchanged.
/// Either way the set of strings afterwards is the old set plus `x`.
pub fn insert_unique(list: &mut Vec<String>, x: String)
    requires
        strictly_sorted(views(old(list)@)),
    ensures
        strictly_sorted(views(final(list)@)),
        views(final(list)@).to_set() == views(old(list)@).to_set().insert(x@),
{
    let mut i: usize = 0;
    loop
        invariant
            i <= list.len(),
            *list == *old(list),
            strictly_sorted(views(list@)),
            forall|k: int| 0 <= k < i ==> lex_lt(views(list@)[k], x@),
        decreases list.len() - i,
    {
        if i == list.len() {
            list.push(x);
            proof {
                let v = views(old(list)@);
                assert(views(list@) =~= v.push(x@));
                assert forall|p: int, q: int|
                    0 <= p < q < v.push(x@).len() implies lex_lt(v.push(x@)[p], v.push(x@)[q]) by {
                    if q == v.len() {
                        assert(lex_lt(v[p], x@));
                    }
                }
                v.lemma_push_to_set_commute(x@);
            }
            return;
        }
        let below = str_lt(list[i].as_str(), x.as_str());
        if below {
            i = i + 1;
        } else {
            let above = str_lt(x.as_str(), list[i].as_str());
            if above {
                let ghost v = views(old(list)@);
                list.insert(i, x);
                proof {
                    let v2 = views(list@);
                    assert(v2 =~= v.insert(i as int, x@));
                    v.insert_ensures(i as int, x@);
                    assert forall|p: int, q: int|
                        0 <= p < q < v2.len() implies lex_lt(v2[p], v2[q]) by {
                        if q < i {
                            assert(lex_lt(v[p], v[q]));
                        } else if q == i {
                            assert(v2[p] == v[p]);
                            assert(lex_lt(v[p], x@));
                        } else if p < i {
                            assert(v2[p] == v[p] && v2[q] == v[q - 1]);
                        } else if p == i {
                            assert(v2[q] == v[q - 1]);
                            if q - 1 > i {
                                lemma_lex_lt_trans(x@, v[i as int], v[q - 1]);
                            }
                        } else {
                            assert(v2[p] == v[p - 1] && v2[q] == v[q - 1]);
                        }
                    }
                    assert(v.subrange(0, i as int) =~= v.take(i as int));
                    assert(v.subrange(i as int, v.len() as int) =~= v.skip(i as int));
                    assert(v.take(i as int) + v.skip(i as int) =~= v);
                    vstd::seq_lib::seq_to_set_distributes_over_add(
                        v.take(i as int),
                        v.skip(i as int),
                    );
                    vstd::seq_lib::seq_to_set_distributes_over_add(
                        v.take(i as int).push(x@),
                        v.skip(i as int),
                    );
                    v.take(i as int).lemma_push_to_set_commute(x@);
                    assert(v2.to_set() =~= v.to_set().insert(x@));
                }
                return;
            } else {
                proof {
                    let v = views(old(list)@);
                    lemma_lex_lt_total(x@, v[i as int]);
                    assert(x@ == v[i as int]);
                    assert(v.to_set().contains(v[i as int]));
                    assert(v.to_set() =~= v.to_set().insert(x@));
                }
                return;
            }
        }
    }
}

/// Sorts the given strings lexicographically and removes duplicates: the
/// result is strictly sorted and holds exactly the set of input strings.
pub fn sort_dedup(input: Vec<String>) -> (r: Vec<String>)
    ensures
        strictly_sorted(views(r@)),
        views(r@).to_set() == views(input@).to_set(),
{
    let mut r: Vec<String> = Vec::new();
    let mut k: usize = 0;
    proof {
        assert(views(r@) =~= Seq::<Seq<char>>::empty());
        assert(views(input@).take(0) =~= Seq::<Seq<char>>::empty());
        assert(views(r@).to_set() =~= views(input@).take(0).to_set());
    }
    while k < input.len()
        invariant
            k <= input.len(),
            strictly_sorted(views(r@)),
            views(r@).to_set() == views(input@).take(k as int).to_set(),
        decreases input.len() - k,
    {
        let s = input[k].clone();
        insert_unique(&mut r, s);
        proof {
            let v = views(input@);
            assert(v.take(k + 1 as int) =~= v.take(k as int).push(v[k as int]));
            v.take(k as int).lemma_push_to_set_commute(v[k as int]);
        }
        k = k + 1;
    }
    proof {
        assert(views(input@).take(input@.len() as int) =~= views(input@));
    }
    r
}

} // verus!
