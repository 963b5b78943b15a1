//! Grouping of positions by key, and ordering by rank, shared by the views
//! that aggregate a library.
use vstd::prelude::*;

use crate::text::string_views;
use crate::text::str_eq;
use itertools::Itertools;

verus! {

broadcast use vstd::seq_lib::group_seq_properties;

/// The distinct keys, in the order in which each first appears.
pub open spec fn first_keys(keys: Seq<Seq<char>>) -> Seq<Seq<char>>
    decreases keys.len(),
{
    if keys.len() == 0 {
        Seq::empty()
    } else {
        let before = first_keys(keys.drop_last());
        if keys.drop_last().contains(keys.last()) {
            before
        } else {
            before.push(keys.last())
        }
    }
}

/// The positions at which `k` occurs among `keys`, ascending.
pub open spec fn positions_of(keys: Seq<Seq<char>>, k: Seq<char>) -> Seq<int>
    decreases keys.len(),
{
    if keys.len() == 0 {
        Seq::empty()
    } else {
        let before = positions_of(keys.drop_last(), k);
        if keys.last() == k {
            before.push(keys.len() - 1)
        } else {
            before
        }
    }
}

/// The positions of a group, as integers.
pub open spec fn positions_view(v: Seq<usize>) -> Seq<int> {
    v.map_values(|p: usize| p as int)
}

/// `groups` holds, for each distinct key of `keys` in order of first
/// appearance, that key and the positions at which it occurs.
pub open spec fn is_grouping(groups: Seq<(String, Vec<usize>)>, keys: Seq<Seq<char>>) -> bool {
    &&& groups.len() == first_keys(keys).len()
    &&& forall|j: int|
        0 <= j < groups.len() ==> (#[trigger] groups[j]).0@ == first_keys(keys)[j]
            && positions_view(groups[j].1@) == positions_of(keys, groups[j].0@)
}

/// A key is among the first keys exactly when it occurs.
pub proof fn lemma_first_keys_contains(keys: Seq<Seq<char>>, k: Seq<char>)
    ensures
        first_keys(keys).contains(k) <==> keys.contains(k),
    decreases keys.len(),
{
    if keys.len() > 0 {
        lemma_first_keys_contains(keys.drop_last(), k);
        if keys.drop_last().contains(k) {
            let i = choose|i: int| 0 <= i < keys.drop_last().len() && keys.drop_last()[i] == k;
            assert(keys[i] == k);
        }
        if keys.contains(k) && !keys.drop_last().contains(k) {
            assert(keys.last() == k);
        }
    }
}

/// The first keys are distinct.
pub proof fn lemma_first_keys_distinct(keys: Seq<Seq<char>>)
    ensures
        first_keys(keys).no_duplicates(),
    decreases keys.len(),
{
    if keys.len() > 0 {
        lemma_first_keys_distinct(keys.drop_last());
        lemma_first_keys_contains(keys.drop_last(), keys.last());
    }
}

/// The positions of each key, grouped by key in order of first appearance.
pub fn group_positions(keys: &Vec<String>) -> (r: Vec<(String, Vec<usize>)>)
    ensures
        is_grouping(r@, string_views(keys@)),
{
    let mut groups: Vec<(String, Vec<usize>)> = Vec::new();
    let mut i: usize = 0;
    while i < keys.len()
        invariant
            i <= keys@.len(),
            is_grouping(groups@, string_views(keys@.subrange(0, i as int))),
        decreases keys.len() - i,
    {
        let ghost prefix = string_views(keys@.subrange(0, i as int));
        let ghost grown = string_views(keys@.subrange(0, i + 1));
        let ghost k = keys@[i as int]@;
        assert(grown =~= prefix.push(k));
        assert(grown.drop_last() =~= prefix);
        let mut found: Option<usize> = None;
        let mut j: usize = 0;
        while j < groups.len()
            invariant
                j <= groups@.len(),
                i < keys@.len(),
                k == keys@[i as int]@,
                prefix == string_views(keys@.subrange(0, i as int)),
                is_grouping(groups@, prefix),
                found is None ==> forall|m: int| 0 <= m < j ==> groups@[m].0@ != k,
                found matches Some(f) ==> f < groups@.len() && groups@[f as int].0@ == k,
            decreases groups.len() - j,
        {
            if found.is_none() && str_eq(groups[j].0.as_str(), keys[i].as_str()) {
                found = Some(j);
            }
            j = j + 1;
        }
        let ghost before = groups@;
        proof {
            lemma_first_keys_contains(prefix, k);
            lemma_first_keys_distinct(prefix);
        }
        match found {
            Some(f) => {
                assert(first_keys(prefix)[f as int] == k);
                assert(prefix.contains(k));
                let (key, mut positions) = groups.remove(f);
                let ghost old_positions = positions@;
                positions.push(i);
                groups.insert(f, (key, positions));
                assert(positions_view(groups@[f as int].1@) =~= positions_view(old_positions).push(
                    i as int,
                ));
                assert forall|m: int| 0 <= m < groups@.len() implies (#[trigger] groups@[m]).0@
                    == first_keys(grown)[m] && positions_view(groups@[m].1@) == positions_of(
                    grown,
                    groups@[m].0@,
                ) by {
                    if m != f {
                        assert(groups@[m] == before[m]);
                        assert(first_keys(prefix)[m] != first_keys(prefix)[f as int]);
                    }
                }
            },
            None => {
                assert(!first_keys(prefix).contains(k)) by {
                    if first_keys(prefix).contains(k) {
                        let m = choose|m: int|
                            0 <= m < first_keys(prefix).len() && first_keys(prefix)[m] == k;
                        assert(groups@[m].0@ == k);
                    }
                }
                let mut positions: Vec<usize> = Vec::new();
                positions.push(i);
                groups.push((keys[i].clone(), positions));
                assert(positions_of(prefix, k) =~= Seq::<int>::empty()) by {
                    lemma_positions_absent(prefix, k);
                }
                assert(positions_view(positions@) =~= seq![i as int]);
                assert forall|m: int| 0 <= m < groups@.len() implies (#[trigger] groups@[m]).0@
                    == first_keys(grown)[m] && positions_view(groups@[m].1@) == positions_of(
                    grown,
                    groups@[m].0@,
                ) by {
                    if m < before.len() {
                        assert(groups@[m] == before[m]);
                        assert(first_keys(prefix)[m] != k) by {
                            assert(first_keys(prefix).contains(first_keys(prefix)[m]));
                        }
                    }
                }
            },
        }
        i = i + 1;
    }
    assert(keys@.subrange(0, i as int) =~= keys@);
    groups
}

/// A key that does not occur has no positions.
pub proof fn lemma_positions_absent(keys: Seq<Seq<char>>, k: Seq<char>)
    requires
        !keys.contains(k),
    ensures
        positions_of(keys, k) == Seq::<int>::empty(),
    decreases keys.len(),
{
    if keys.len() > 0 {
        assert(!keys.drop_last().contains(k)) by {
            if keys.drop_last().contains(k) {
                let i = choose|i: int| 0 <= i < keys.drop_last().len() && keys.drop_last()[i] == k;
                assert(keys[i] == k);
            }
        }
        lemma_positions_absent(keys.drop_last(), k);
    }
}

/// Tuple order: by the first field, then by the second.
pub open spec fn pair_le(a: (u64, u64), b: (u64, u64)) -> bool {
    a.0 < b.0 || (a.0 == b.0 && a.1 <= b.1)
}

/// Relies on `Itertools::sorted`: the same items, in ascending order of
/// `Ord`, which for a pair of integers compares the first, then the second.
#[verifier::external_body]
fn sorted_pairs(v: Vec<(u64, u64)>) -> (r: Vec<(u64, u64)>)
    ensures
        r@.to_multiset() == v@.to_multiset(),
        forall|i: int, j: int| 0 <= i < j < r@.len() ==> pair_le(r@[i], r@[j]),
{
    v.into_iter().sorted().collect()
}

/// Whether position `a` comes before position `b` when ordered by rank,
/// the earlier position first among equal ranks.
pub open spec fn rank_before(ranks: Seq<u64>, a: int, b: int) -> bool {
    ranks[a] < ranks[b] || (ranks[a] == ranks[b] && a < b)
}

/// Every position of `ranks` once, ordered by rank and, among equal ranks,
/// by position.
pub fn order_by_rank(ranks: &Vec<u64>) -> (r: Vec<usize>)
    ensures
        r@.len() == ranks@.len(),
        r@.no_duplicates(),
        forall|k: int| 0 <= k < r@.len() ==> (#[trigger] r@[k] as int) < ranks@.len(),
        forall|a: int, b: int|
            0 <= a < b < r@.len() ==> rank_before(ranks@, r@[a] as int, r@[b] as int),
{
    broadcast use vstd::seq_lib::group_to_multiset_ensures;

    let mut pairs: Vec<(u64, u64)> = Vec::new();
    let mut j: usize = 0;
    while j < ranks.len()
        invariant
            j <= ranks@.len(),
            pairs@.len() == j,
            forall|m: int| 0 <= m < j ==> #[trigger] pairs@[m] == (ranks@[m], m as u64),
        decreases ranks.len() - j,
    {
        pairs.push((ranks[j], j as u64));
        j = j + 1;
    }
    let ghost v = pairs@;
    assert(v.no_duplicates()) by {
        assert forall|a: int, b: int| 0 <= a < v.len() && 0 <= b < v.len() && a != b implies v[a]
            != v[b] by {
            assert(v[a].1 == a as u64);
            assert(v[b].1 == b as u64);
        }
    }
    let sorted = sorted_pairs(pairs);
    let ghost s = sorted@;
    proof {
        v.lemma_multiset_has_no_duplicates();
        s.lemma_multiset_has_no_duplicates_conv();
    }
    assert(s.len() == v.len()) by {
        assert(s.to_multiset().len() == s.len());
        assert(v.to_multiset().len() == v.len());
    }
    assert forall|m: int| 0 <= m < s.len() implies (s[m].1 as int) < v.len() && s[m].0
        == ranks@[s[m].1 as int] by {
        assert(s.contains(s[m]));
        assert(v.to_multiset().count(s[m]) > 0);
        assert(v.contains(s[m]));
        let i = choose|i: int| 0 <= i < v.len() && v[i] == s[m];
        assert(v[i] == (ranks@[i], i as u64));
    }
    let mut out: Vec<usize> = Vec::new();
    let mut k: usize = 0;
    while k < sorted.len()
        invariant
            k <= s.len(),
            s == sorted@,
            s.len() == v.len(),
            v.len() == ranks@.len(),
            s.to_multiset() == v.to_multiset(),
            forall|m: int| 0 <= m < v.len() ==> #[trigger] v[m] == (ranks@[m], m as u64),
            out@.len() == k,
            forall|m: int| 0 <= m < k ==> #[trigger] out@[m] as int == s[m].1 as int,
            forall|m: int| 0 <= m < s.len() ==> (s[m].1 as int) < v.len() && s[m].0 == ranks@[s[m].1 as int],
        decreases sorted.len() - k,
    {
        out.push(sorted[k].1 as usize);
        k = k + 1;
    }
    assert(out@.no_duplicates()) by {
        assert forall|a: int, b: int| 0 <= a < out@.len() && 0 <= b < out@.len() && a != b implies out@[a]
            != out@[b] by {
            assert(s[a] != s[b]);
        }
    }
    assert forall|a: int, b: int| 0 <= a < b < out@.len() implies rank_before(
        ranks@,
        out@[a] as int,
        out@[b] as int,
    ) by {
        assert(pair_le(s[a], s[b]));
        assert(s[a] != s[b]);
    }
    out
}

/// Relies on `Itertools::unique`: each distinct item once, where it first
/// occurs, in order.
#[verifier::external_body]
pub(crate) fn unique_strings(v: Vec<String>) -> (r: Vec<String>)
    ensures
        string_views(r@) == first_keys(string_views(v@)),
{
    v.into_iter().unique().collect()
}

} // verus!
