//! The executable enumerator: splitting the colon-delimited search path into
//! directories, and turning directory listings into launch candidates,
//! sorted by name and free of duplicates.
//!
//! Reading the environment variable and listing the directories is I/O and
//! happens outside this crate; these functions take the path string and the
//! listings as plain values.

use vstd::prelude::*;

use crate::candidate::SwitchType;
use crate::order::{lex_lt, sort_dedup, strictly_sorted, views};

verus! {

/// Position of the first ':' in `s`, or `s.len()` if there is none.
pub open spec fn first_colon(s: Seq<char>) -> nat
    decreases s.len(),
{
    if s.len() == 0 {
        0
    } else if s[0] == ':' {
        0
    } else {
        1 + first_colon(s.drop_first())
    }
}

/// `first_colon` finds exactly the position after which the first ':' stands.
pub proof fn lemma_first_colon_at(s: Seq<char>, i: int)
    requires
        0 <= i <= s.len(),
        forall|k: int| 0 <= k < i ==> s[k] != ':',
        i < s.len() ==> s[i] == ':',
    ensures
        first_colon(s) == i,
    decreases i,
{
    if i == 0 {
    } else {
        assert(s[0] != ':');
        assert forall|k: int| 0 <= k < i - 1 implies s.drop_first()[k] != ':' by {
            assert(s.drop_first()[k] == s[k + 1]);
        }
        if i < s.len() {
            assert(s.drop_first()[i - 1] == s[i]);
        }
        lemma_first_colon_at(s.drop_first(), i - 1);
    }
}

/// The colon-separated segments of `s`: splitting the empty sequence gives
/// one empty segment, as splitting a path string with no separator gives
/// that one directory.
pub open spec fn split_colon(s: Seq<char>) -> Seq<Seq<char>>
    decreases s.len(),
{
    let i = first_colon(s);
    if i >= s.len() {
        seq![s]
    } else {
        seq![s.take(i as int)] + split_colon(s.skip(i + 1 as int))
    }
}

/// Splits a string on ':' into its segments.
pub fn split_colon_exec(s: &str) -> (r: Vec<String>)
    ensures
        views(r@) == split_colon(s@),
{
    let n = s.unicode_len();
    let mut r: Vec<String> = Vec::new();
    let mut start: usize = 0;
    let mut i: usize = 0;
    proof {
        assert(s@.skip(0) =~= s@);
        assert(views(r@) =~= Seq::<Seq<char>>::empty());
        assert(Seq::<Seq<char>>::empty() + split_colon(s@) =~= split_colon(s@));
    }
    while i < n
        invariant
            start <= i <= n,
            n == s@.len(),
            forall|k: int| start <= k < i ==> s@[k] != ':',
            split_colon(s@) == views(r@) + split_colon(s@.skip(start as int)),
        decreases n - i,
    {
        let c = s.get_char(i);
        if c == ':' {
            let seg = s.substring_char(start, i);
            let ghost r0 = r@;
            r.push(String::from_str(seg));
            proof {
                let tail = s@.skip(start as int);
                assert forall|k: int| 0 <= k < i - start implies tail[k] != ':' by {
                    assert(tail[k] == s@[start + k]);
                }
                assert(tail[i - start] == s@[i as int]);
                lemma_first_colon_at(tail, i - start);
                assert(first_colon(tail) < tail.len());
                assert(tail.take(i - start) =~= seg@);
                assert(tail.skip(i - start + 1) =~= s@.skip(i + 1));
                assert(split_colon(tail) == seq![seg@] + split_colon(s@.skip(i + 1)));
                assert(views(r@) =~= views(r0).push(seg@));
                assert(views(r0).push(seg@) + split_colon(s@.skip(i + 1)) =~= views(r0) + (
                seq![seg@] + split_colon(s@.skip(i + 1))));
            }
            start = i + 1;
        }
        i = i + 1;
    }
    let seg = s.substring_char(start, n);
    let ghost r0 = r@;
    r.push(String::from_str(seg));
    proof {
        let tail = s@.skip(start as int);
        assert forall|k: int| 0 <= k < tail.len() implies tail[k] != ':' by {
            assert(tail[k] == s@[start + k]);
        }
        lemma_first_colon_at(tail, tail.len() as int);
        assert(split_colon(tail) == seq![tail]);
        assert(tail =~= seg@);
        assert(views(r@) =~= views(r0).push(seg@));
        assert(views(r0).push(seg@) =~= views(r0) + seq![seg@]);
    }
    r
}

/// The directories of a search-path string: its colon-separated segments,
/// sorted and with duplicate entries removed.
pub fn search_path_dirs(path_var: &str) -> (r: Vec<String>)
    ensures
        strictly_sorted(views(r@)),
        views(r@).to_set() == split_colon(path_var@).to_set(),
{
    let parts = split_colon_exec(path_var);
    sort_dedup(parts)
}

/// The name a launch candidate carries; meaningless for focus candidates.
pub open spec fn launch_name(c: SwitchType) -> Seq<char> {
    match c {
        SwitchType::Launch(name) => name@,
        SwitchType::Focus(_, _) => Seq::empty(),
    }
}

/// The names of a sequence of candidates.
pub open spec fn launch_names(s: Seq<SwitchType>) -> Seq<Seq<char>> {
    Seq::new(s.len(), |i: int| launch_name(s[i]))
}

/// All file names of a sequence of directory listings, in listing order.
pub open spec fn listing_names(ls: Seq<Vec<String>>) -> Seq<Seq<char>> {
    ls.map_values(|l: Vec<String>| views(l@)).flatten()
}

/// Turns directory listings into launch candidates: one candidate per
/// distinct file name, sorted lexicographically, regardless of how the names
/// were spread or repeated over the listings.
pub fn launchable_programs(listings: &Vec<Vec<String>>) -> (r: Vec<SwitchType>)
    ensures
        forall|k: int| 0 <= k < r@.len() ==> r@[k] is Launch,
        strictly_sorted(launch_names(r@)),
        forall|i: int, j: int|
            0 <= i < j < r@.len() ==> launch_names(r@)[i] != launch_names(r@)[j],
        launch_names(r@).to_set() == listing_names(listings@).to_set(),
        listings@.len() == 0 ==> r@.len() == 0,
{
    let ghost all_names = listings@.map_values(|l: Vec<String>| views(l@));
    let mut flat: Vec<String> = Vec::new();
    let mut d: usize = 0;
    proof {
        assert(views(flat@) =~= Seq::<Seq<char>>::empty());
        assert(all_names.take(0) =~= Seq::<Seq<Seq<char>>>::empty());
        assert(all_names.take(0).flatten() =~= Seq::<Seq<char>>::empty());
    }
    while d < listings.len()
        invariant
            d <= listings.len(),
            all_names == listings@.map_values(|l: Vec<String>| views(l@)),
            views(flat@) == all_names.take(d as int).flatten(),
        decreases listings.len() - d,
    {
        let listing = &listings[d];
        let mut j: usize = 0;
        proof {
            assert(views(listing@).take(0) =~= Seq::<Seq<char>>::empty());
            assert(views(flat@) + Seq::<Seq<char>>::empty() =~= views(flat@));
        }
        let ghost flat0 = flat@;
        while j < listing.len()
            invariant
                j <= listing.len(),
                listing == &listings@[d as int],
                d < listings.len(),
                views(flat@) == views(flat0) + views(listing@).take(j as int),
            decreases listing.len() - j,
        {
            let ghost f0 = flat@;
            flat.push(listing[j].clone());
            proof {
                assert(views(flat@) =~= views(f0).push(listing@[j as int]@));
                assert(views(listing@).take(j + 1) =~= views(listing@).take(j as int).push(
                    listing@[j as int]@,
                ));
                assert(views(f0).push(listing@[j as int]@) =~= views(flat0) + views(
                    listing@,
                ).take(j + 1));
            }
            j = j + 1;
        }
        proof {
            assert(views(listing@).take(listing@.len() as int) =~= views(listing@));
            assert(all_names[d as int] == views(listing@));
            assert(all_names.take(d + 1) =~= all_names.take(d as int).push(all_names[d as int]));
            all_names.take(d as int).lemma_flatten_push(all_names[d as int]);
        }
        d = d + 1;
    }
    proof {
        assert(all_names.take(listings@.len() as int) =~= all_names);
    }
    let sorted = sort_dedup(flat);
    let mut r: Vec<SwitchType> = Vec::new();
    let mut k: usize = 0;
    proof {
        assert(launch_names(r@) =~= views(sorted@).take(0));
    }
    while k < sorted.len()
        invariant
            k <= sorted.len(),
            strictly_sorted(views(sorted@)),
            views(sorted@).to_set() == listing_names(listings@).to_set(),
            r@.len() == k,
            forall|p: int| 0 <= p < r@.len() ==> r@[p] is Launch,
            launch_names(r@) == views(sorted@).take(k as int),
        decreases sorted.len() - k,
    {
        let ghost r0 = r@;
        r.push(SwitchType::Launch(sorted[k].clone()));
        proof {
            assert(launch_names(r@) =~= launch_names(r0).push(sorted@[k as int]@));
            assert(views(sorted@).take(k + 1) =~= views(sorted@).take(k as int).push(
                views(sorted@)[k as int],
            ));
        }
        k = k + 1;
    }
    proof {
        assert(views(sorted@).take(sorted@.len() as int) =~= views(sorted@));
        crate::order::lemma_strictly_sorted_distinct(launch_names(r@));
        if listings@.len() == 0 {
            assert(all_names =~= Seq::<Seq<Seq<char>>>::empty());
            assert(listing_names(listings@) =~= Seq::<Seq<char>>::empty());
            assert(listing_names(listings@).to_set() =~= Set::<Seq<char>>::empty());
            if r@.len() > 0 {
                let names = launch_names(r@);
                assert(names.contains(names[0])) by {
                    assert(names[0] == names[0]);
                }
                assert(names.to_set().contains(names[0]));
                assert(false);
            }
        }
    }
    r
}

} // verus!
