//! Playlist reconciliation: the diff between a playlist and a target set of
//! URIs, and the batched requests that carry it out.
use vstd::prelude::*;
use vstd::string::StringSliceAdditionalSpecFns;
use vstd::utf8::*;

use crate::cmds::spotify_api::{
    SimplifiedPlaylist, PLAYLIST_CREATION_PREFIX, PLAYLIST_CREATION_SUFFIX,
};
use crate::text::string_views;

verus! {

broadcast use vstd::seq_lib::group_filter_ensures;

/// Most URIs that one add or remove request may carry.
pub const CHUNK_SIZE: usize = 100;

/// Most bytes that a playlist name may hold.
pub const NAME_LIMIT: usize = 100;

/// The contents of a list of chunks.
pub open spec fn chunks_view<T>(v: Seq<Vec<T>>) -> Seq<Seq<T>> {
    v.map_values(|c: Vec<T>| c@)
}

/// Holds of a URI that `other` does not hold.
pub open spec fn not_in(other: Seq<Seq<char>>) -> spec_fn(Seq<char>) -> bool {
    |u: Seq<char>| !other.contains(u)
}

/// The entries of `items` that `other` does not hold, in their order in
/// `items`, repeated entries included.
pub open spec fn missing_from(items: Seq<Seq<char>>, other: Seq<Seq<char>>) -> Seq<Seq<char>> {
    items.filter(not_in(other))
}

/// `chunks` is `items` cut, in order, into pieces of `size`, all full but
/// possibly the last, none empty.
pub open spec fn is_chunking<T>(chunks: Seq<Seq<T>>, items: Seq<T>, size: nat) -> bool {
    &&& chunks.flatten() == items
    &&& forall|i: int| 0 <= i < chunks.len() ==> 0 < #[trigger] chunks[i].len() <= size
    &&& forall|i: int| 0 <= i < chunks.len() - 1 ==> #[trigger] chunks[i].len() == size
    &&& chunks.len() == (items.len() + size - 1) / size as int
}

/// `items` cut, in order, into chunks of `size`; the last may be shorter.
pub fn chunks<T>(items: Vec<T>, size: usize) -> (r: Vec<Vec<T>>)
    requires
        size > 0,
    ensures
        is_chunking(chunks_view(r@), items@, size as nat),
{
    let ghost all = items@;
    let mut rest = items;
    let mut out: Vec<Vec<T>> = Vec::new();
    assert(chunks_view(out@).flatten() + rest@ =~= all);
    assert(0 * size == 0) by (nonlinear_arith);
    while rest.len() > size
        invariant
            size > 0,
            chunks_view(out@).flatten() + rest@ == all,
            forall|i: int| 0 <= i < out@.len() ==> #[trigger] out@[i]@.len() == size,
            out@.len() * size + rest@.len() == all.len(),
        decreases rest.len(),
    {
        let ghost before = out@;
        let tail = rest.split_off(size);
        out.push(rest);
        rest = tail;
        assert(chunks_view(out@) =~= chunks_view(before).push(out@.last()@));
        proof {
            chunks_view(before).lemma_flatten_push(out@.last()@);
        }
        assert(out@.len() * size == before.len() * size + size) by (nonlinear_arith)
            requires
                out@.len() == before.len() + 1,
        ;
    }
    let ghost full = out@.len() as int;
    if rest.len() > 0 {
        let ghost before = out@;
        out.push(rest);
        assert(chunks_view(out@) =~= chunks_view(before).push(out@.last()@));
        proof {
            chunks_view(before).lemma_flatten_push(out@.last()@);
        }
        proof {
            let k = out@.len() as int;
            let m = out@[k - 1]@.len() as int;
            let z = size as int;
            assert(full * z + m == all.len());
            assert((full * z + m + z - 1) / z == full + 1) by (nonlinear_arith)
                requires
                    0 < m <= z,
            {
                let q = full * z + m + z - 1;
                assert((full + 1) * z <= q < (full + 2) * z);
            }
        }
    } else {
        assert(chunks_view(out@).flatten() =~= all);
        proof {
            let z = size as int;
            assert((full * z + z - 1) / z == full) by (nonlinear_arith)
                requires
                    z > 0,
            {
                let q = full * z + z - 1;
                assert(full * z <= q < (full + 1) * z);
            }
        }
    }
    out
}

/// Whether `v` holds the URI `u`.
pub fn contains_uri(v: &Vec<String>, u: &String) -> (r: bool)
    ensures
        r == string_views(v@).contains(u@),
{
    let mut i: usize = 0;
    while i < v.len()
        invariant
            i <= v@.len(),
            forall|k: int| 0 <= k < i ==> v@[k]@ != u@,
        decreases v.len() - i,
    {
        if v[i] == *u {
            assert(string_views(v@)[i as int] == u@);
            return true;
        }
        i = i + 1;
    }
    assert forall|k: int| 0 <= k < string_views(v@).len() implies string_views(v@)[k] != u@ by {
        assert(string_views(v@)[k] == v@[k]@);
    }
    false
}

/// The entries of `items` that `other` does not hold, in their order in
/// `items`.
pub fn uris_missing_from(items: &Vec<String>, other: &Vec<String>) -> (r: Vec<String>)
    ensures
        string_views(r@) == missing_from(string_views(items@), string_views(other@)),
{
    let ghost o = string_views(other@);
    let mut out: Vec<String> = Vec::new();
    let mut i: usize = 0;
    while i < items.len()
        invariant
            i <= items@.len(),
            o == string_views(other@),
            string_views(out@) == missing_from(string_views(items@.subrange(0, i as int)), o),
        decreases items.len() - i,
    {
        let ghost seen = string_views(items@.subrange(0, i as int));
        assert(string_views(items@.subrange(0, i + 1)) =~= seen.push(items@[i as int]@));
        proof {
            seen.lemma_filter_push(items@[i as int]@, not_in(o));
        }
        if !contains_uri(other, &items[i]) {
            let ghost before = out@;
            out.push(items[i].clone());
            assert(string_views(out@) =~= string_views(before).push(items@[i as int]@));
        }
        i = i + 1;
    }
    assert(items@.subrange(0, i as int) =~= items@);
    out
}

/// The URIs of the current playlist that the target does not hold.
pub fn uris_to_remove(current: &Vec<String>, target: &Vec<String>) -> (r: Vec<String>)
    ensures
        string_views(r@) == missing_from(string_views(current@), string_views(target@)),
{
    uris_missing_from(current, target)
}

/// The URIs of the target that the current playlist does not hold.
pub fn uris_to_add(current: &Vec<String>, target: &Vec<String>) -> (r: Vec<String>)
    ensures
        string_views(r@) == missing_from(string_views(target@), string_views(current@)),
{
    uris_missing_from(target, current)
}

/// The requests that bring an existing playlist to a target set of URIs:
/// removals first, then additions, every one under the snapshot taken before
/// the first of them.
pub struct UpdatePlan {
    pub removals: Vec<Vec<String>>,
    pub additions: Vec<Vec<String>>,
    pub snapshot_id: String,
}

/// The plan that brings a playlist holding `current` to `target`.
pub fn plan_update(current: &Vec<String>, target: &Vec<String>, snapshot_id: &String) -> (r:
    UpdatePlan)
    ensures
        is_chunking(
            mapped_chunks(r.removals@, |s: String| s@),
            missing_from(string_views(current@), string_views(target@)),
            CHUNK_SIZE as nat,
        ),
        is_chunking(
            mapped_chunks(r.additions@, |s: String| s@),
            missing_from(string_views(target@), string_views(current@)),
            CHUNK_SIZE as nat,
        ),
        r.snapshot_id@ == snapshot_id@,
{
    let to_remove = uris_to_remove(current, target);
    let to_add = uris_to_add(current, target);
    let ghost (removed, added) = (to_remove@, to_add@);
    let removals = chunks(to_remove, CHUNK_SIZE);
    let additions = chunks(to_add, CHUNK_SIZE);
    proof {
        lemma_chunking_map(removals@, removed, CHUNK_SIZE as nat, |s: String| s@);
        lemma_chunking_map(additions@, added, CHUNK_SIZE as nat, |s: String| s@);
    }
    UpdatePlan { removals, additions, snapshot_id: snapshot_id.clone() }
}

/// The add requests that fill a newly created playlist with `target`.
pub fn plan_creation(target: Vec<String>) -> (r: Vec<Vec<String>>)
    ensures
        is_chunking(mapped_chunks(r@, |s: String| s@), string_views(target@), CHUNK_SIZE as nat),
{
    let ghost all = target@;
    let r = chunks(target, CHUNK_SIZE);
    proof {
        lemma_chunking_map(r@, all, CHUNK_SIZE as nat, |s: String| s@);
    }
    r
}

/// The chunks with `f` applied to every element.
pub open spec fn mapped_chunks<T, U>(v: Seq<Vec<T>>, f: spec_fn(T) -> U) -> Seq<Seq<U>> {
    v.map_values(|c: Vec<T>| c@.map_values(f))
}

/// Cutting into chunks and applying `f` to every element commute.
pub proof fn lemma_chunking_map<T, U>(v: Seq<Vec<T>>, items: Seq<T>, size: nat, f: spec_fn(T) -> U)
    requires
        size > 0,
        is_chunking(chunks_view(v), items, size),
    ensures
        is_chunking(mapped_chunks(v, f), items.map_values(f), size),
{
    lemma_flatten_map(chunks_view(v), f);
    assert(mapped_chunks(v, f) =~= chunks_view(v).map_values(|c: Seq<T>| c.map_values(f)));
}

/// Flattening commutes with mapping every element.
proof fn lemma_flatten_map<A, B>(v: Seq<Seq<A>>, f: spec_fn(A) -> B)
    ensures
        v.map_values(|c: Seq<A>| c.map_values(f)).flatten() == v.flatten().map_values(f),
    decreases v.len(),
{
    if v.len() > 0 {
        let g = |c: Seq<A>| c.map_values(f);
        lemma_flatten_map(v.drop_first(), f);
        assert(v.map_values(g).drop_first() =~= v.drop_first().map_values(g));
        assert((v.first() + v.drop_first().flatten()).map_values(f) =~= v.first().map_values(f)
            + v.drop_first().flatten().map_values(f));
    } else {
        assert(v.map_values(|c: Seq<A>| c.map_values(f)) =~= Seq::<Seq<B>>::empty());
        assert(v.flatten().map_values(f) =~= Seq::<B>::empty());
    }
}

/// The playlist as the service holds it after an update: every occurrence of
/// a removed URI is gone, and the added URIs follow in order.
pub open spec fn after_update(
    current: Seq<Seq<char>>,
    removed: Seq<Seq<char>>,
    added: Seq<Seq<char>>,
) -> Seq<Seq<char>> {
    current.filter(not_in(removed)) + added
}

/// A URI is missing from `other` in `items` exactly when `items` holds it and
/// `other` does not.
pub proof fn lemma_missing_contains(items: Seq<Seq<char>>, other: Seq<Seq<char>>, u: Seq<char>)
    ensures
        missing_from(items, other).contains(u) <==> items.contains(u) && !other.contains(u),
{
    if missing_from(items, other).contains(u) {
        items.lemma_filter_contains_rev(not_in(other), u);
        let k = choose|k: int|
            0 <= k < missing_from(items, other).len() && missing_from(items, other)[k] == u;
        assert(not_in(other)(missing_from(items, other)[k]));
    }
    if items.contains(u) && !other.contains(u) {
        let k = choose|k: int| 0 <= k < items.len() && items[k] == u;
        assert(not_in(other)(items[k]));
    }
}

/// Nothing is missing when every entry of `items` is held by `other`.
proof fn lemma_nothing_missing(items: Seq<Seq<char>>, other: Seq<Seq<char>>)
    requires
        forall|u: Seq<char>| items.contains(u) ==> other.contains(u),
    ensures
        missing_from(items, other) == Seq::<Seq<char>>::empty(),
{
    if missing_from(items, other).len() > 0 {
        let u = missing_from(items, other)[0];
        assert(missing_from(items, other).contains(u));
        lemma_missing_contains(items, other, u);
    }
    assert(missing_from(items, other) =~= Seq::<Seq<char>>::empty());
}

/// Synchronizing twice to the same target: once the first update is carried
/// out, the second finds nothing to remove and nothing to add.
pub proof fn lemma_sync_is_idempotent(current: Seq<Seq<char>>, target: Seq<Seq<char>>)
    ensures
        missing_from(
            after_update(
                current,
                missing_from(current, target),
                missing_from(target, current),
            ),
            target,
        ) == Seq::<Seq<char>>::empty(),
        missing_from(
            target,
            after_update(
                current,
                missing_from(current, target),
                missing_from(target, current),
            ),
        ) == Seq::<Seq<char>>::empty(),
{
    let removed = missing_from(current, target);
    let added = missing_from(target, current);
    let kept = current.filter(not_in(removed));
    let after = after_update(current, removed, added);
    assert forall|u: Seq<char>| after.contains(u) implies target.contains(u) by {
        let k = choose|k: int| 0 <= k < after.len() && after[k] == u;
        if k < kept.len() {
            assert(kept.contains(u));
            current.lemma_filter_contains_rev(not_in(removed), u);
            assert(not_in(removed)(kept[k]));
            lemma_missing_contains(current, target, u);
        } else {
            assert(added[k - kept.len()] == u);
            assert(added.contains(u));
            lemma_missing_contains(target, current, u);
        }
    }
    lemma_nothing_missing(after, target);
    assert forall|u: Seq<char>| target.contains(u) implies after.contains(u) by {
        if current.contains(u) {
            lemma_missing_contains(current, target, u);
            let k = choose|k: int| 0 <= k < current.len() && current[k] == u;
            assert(not_in(removed)(current[k]));
            assert(kept.contains(u));
            let j = choose|j: int| 0 <= j < kept.len() && kept[j] == u;
            assert(after[j] == u);
        } else {
            lemma_missing_contains(target, current, u);
            let j = choose|j: int| 0 <= j < added.len() && added[j] == u;
            assert(after[kept.len() + j] == u);
        }
    }
    lemma_nothing_missing(target, after);
}

/// The diff depends on which URIs each side holds, not on where: reordering
/// or repeating entries of either side leaves what is missing from it
/// unchanged, and leaves unchanged the set of what it is missing.
pub proof fn lemma_diff_depends_on_membership_only(
    current1: Seq<Seq<char>>,
    current2: Seq<Seq<char>>,
    target1: Seq<Seq<char>>,
    target2: Seq<Seq<char>>,
)
    requires
        current1.to_set() == current2.to_set(),
        target1.to_set() == target2.to_set(),
    ensures
        missing_from(target1, current1) == missing_from(target1, current2),
        missing_from(current1, target1) == missing_from(current1, target2),
        missing_from(target1, current1).to_set() == missing_from(target2, current2).to_set(),
        missing_from(current1, target1).to_set() == missing_from(current2, target2).to_set(),
{
    assert forall|u: Seq<char>| current1.contains(u) == current2.contains(u) by {
        assert(current1.to_set().contains(u) == current1.contains(u));
        assert(current2.to_set().contains(u) == current2.contains(u));
    }
    assert forall|u: Seq<char>| target1.contains(u) == target2.contains(u) by {
        assert(target1.to_set().contains(u) == target1.contains(u));
        assert(target2.to_set().contains(u) == target2.contains(u));
    }
    assert(not_in(current1) =~= not_in(current2));
    assert(not_in(target1) =~= not_in(target2));
    assert forall|u: Seq<char>|
        missing_from(target1, current1).to_set().contains(u) == missing_from(
            target2,
            current2,
        ).to_set().contains(u) by {
        lemma_missing_contains(target1, current1, u);
        lemma_missing_contains(target2, current2, u);
    }
    assert forall|u: Seq<char>|
        missing_from(current1, target1).to_set().contains(u) == missing_from(
            current2,
            target2,
        ).to_set().contains(u) by {
        lemma_missing_contains(current1, target1, u);
        lemma_missing_contains(current2, target2, u);
    }
    assert(missing_from(target1, current1).to_set() =~= missing_from(target2, current2).to_set());
    assert(missing_from(current1, target1).to_set() =~= missing_from(current2, target2).to_set());
}

/// The largest char boundary of `bytes` at or below `k`.
pub open spec fn boundary_at_or_below(bytes: Seq<u8>, k: int) -> int
    decreases k,
{
    if k <= 0 {
        0
    } else if is_char_boundary(bytes, k) {
        k
    } else {
        boundary_at_or_below(bytes, k - 1)
    }
}

/// The name cut to at most `NAME_LIMIT` bytes, at the last char boundary that
/// fits.
pub open spec fn capped_name(name: Seq<char>) -> Seq<char> {
    let bytes = encode_utf8(name);
    let limit = if bytes.len() < NAME_LIMIT { bytes.len() as int } else { NAME_LIMIT as int };
    decode_utf8(bytes.subrange(0, boundary_at_or_below(bytes, limit)))
}

/// `name` cut to at most `NAME_LIMIT` bytes without splitting a char; a name
/// that fits is kept whole.
pub fn truncate_name(name: &str) -> (r: String)
    ensures
        r@ == capped_name(name@),
        encode_utf8(name@).len() <= NAME_LIMIT ==> r@ == name@,
{
    let ghost bytes = encode_utf8(name@);
    proof {
        encode_utf8_valid_utf8(name@);
        is_char_boundary_start_end_of_seq(bytes);
    }
    let len = name.as_bytes().len();
    let limit = if len < NAME_LIMIT {
        len
    } else {
        NAME_LIMIT
    };
    let mut k = limit;
    while k > 0 && !name.is_char_boundary(k)
        invariant
            bytes == name.spec_bytes(),
            valid_utf8(bytes),
            k <= limit <= bytes.len(),
            boundary_at_or_below(bytes, k as int) == boundary_at_or_below(bytes, limit as int),
        decreases k,
    {
        k = k - 1;
    }
    let (head, _tail) = name.split_at(k);
    let r = head.to_owned();
    proof {
        encode_utf8_decode_utf8(r@);
        assert(encode_utf8(r@) == bytes.subrange(0, k as int));
        assert(boundary_at_or_below(bytes, k as int) == k);
        assert(r@ == decode_utf8(bytes.subrange(0, k as int)));
        if bytes.len() <= NAME_LIMIT {
            assert(bytes.subrange(0, k as int) =~= bytes);
            encode_utf8_decode_utf8(name@);
        }
    }
    r
}

/// Whether playlist `p` belongs to `user` and is called `name`.
pub open spec fn is_match(p: SimplifiedPlaylist, user: Seq<char>, name: Seq<char>) -> bool {
    p.owner.id@ == user && p.name@ == name
}

/// How many of `ps` belong to `user` and are called `name`.
pub open spec fn match_count(ps: Seq<SimplifiedPlaylist>, user: Seq<char>, name: Seq<char>) -> nat
    decreases ps.len(),
{
    if ps.len() == 0 {
        0
    } else {
        match_count(ps.drop_last(), user, name) + if is_match(ps.last(), user, name) {
            1nat
        } else {
            0nat
        }
    }
}

/// The position of the playlist to update: the one playlist of `user` called
/// `name`, when there is exactly one; with none or several a new one is made.
pub fn matching_playlist(playlists: &Vec<SimplifiedPlaylist>, user_id: &str, name: &str) -> (r:
    Option<usize>)
    ensures
        r is Some <==> match_count(playlists@, user_id@, name@) == 1,
        r matches Some(i) ==> i < playlists@.len() && is_match(playlists@[i as int], user_id@, name@),
{
    let mut count: usize = 0;
    let mut last: usize = 0;
    let mut i: usize = 0;
    while i < playlists.len()
        invariant
            i <= playlists@.len(),
            count == match_count(playlists@.subrange(0, i as int), user_id@, name@),
            count <= i,
            count > 0 ==> last < i && is_match(playlists@[last as int], user_id@, name@),
        decreases playlists.len() - i,
    {
        assert(playlists@.subrange(0, i + 1).drop_last() =~= playlists@.subrange(0, i as int));
        let p = &playlists[i];
        if crate::text::str_eq(p.owner.id.as_str(), user_id) && crate::text::str_eq(
            p.name.as_str(),
            name,
        ) {
            count = count + 1;
            last = i;
        }
        i = i + 1;
    }
    assert(playlists@.subrange(0, i as int) =~= playlists@);
    if count == 1 {
        Some(last)
    } else {
        None
    }
}

/// Where a playlist is created for the user `user_id`.
pub fn playlist_creation_url(user_id: &str) -> (r: String)
    ensures
        r@ == PLAYLIST_CREATION_PREFIX@ + user_id@ + PLAYLIST_CREATION_SUFFIX@,
{
    let mut url = String::from_str(PLAYLIST_CREATION_PREFIX);
    url.append(user_id);
    url.append(PLAYLIST_CREATION_SUFFIX);
    url
}

} // verus!
