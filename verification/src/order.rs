//! The order of texts by their bytes, and rearrangements of lists by it.

use vstd::prelude::*;
use vstd::string::*;
use vstd::utf8::{encode_utf8, encode_utf8_decode_utf8};

verus! {

/// Whether `a`, from position `i` on, comes no later than `b` in the
/// lexicographic order of bytes, given that the two agree before `i`.
pub open spec fn bytes_le_from(a: Seq<u8>, b: Seq<u8>, i: int) -> bool
    decreases a.len() - i,
{
    if i < 0 || i >= a.len() {
        true
    } else if i >= b.len() {
        false
    } else if a[i] != b[i] {
        a[i] < b[i]
    } else {
        bytes_le_from(a, b, i + 1)
    }
}

/// Whether the text `a` comes no later than the text `b`: the lexicographic
/// order of their UTF-8 bytes.
pub open spec fn text_le(a: Seq<char>, b: Seq<char>) -> bool {
    bytes_le_from(encode_utf8(a), encode_utf8(b), 0)
}

/// Whether the pair `a` comes no later than the pair `b`: by the first
/// texts, and by the second where the first are the same.
pub open spec fn pair_le(a: (Seq<char>, Seq<char>), b: (Seq<char>, Seq<char>)) -> bool {
    if a.0 == b.0 {
        text_le(a.1, b.1)
    } else {
        text_le(a.0, b.0)
    }
}

/// Whether `order` lists every position of a list of length `n` once.
pub open spec fn is_permutation(order: Seq<int>, n: int) -> bool {
    &&& order.len() == n
    &&& forall|i: int| 0 <= i < order.len() ==> 0 <= #[trigger] order[i] < n
    &&& forall|i: int, j: int|
        0 <= i < j < order.len() ==> #[trigger] order[i] != #[trigger] order[j]
    &&& forall|k: int| 0 <= k < n ==> #[trigger] order.contains(k)
}

/// The items of `list` in the order in which `order` lists their positions.
pub open spec fn arranged<T>(list: Seq<T>, order: Seq<int>) -> Seq<T> {
    Seq::new(order.len(), |i: int| list[order[i]])
}

/// Whether `order` lists the positions of `keys` by ascending key, positions
/// of equal keys in ascending order.
pub open spec fn is_sorting(order: Seq<int>, keys: Seq<(Seq<char>, Seq<char>)>) -> bool {
    &&& is_permutation(order, keys.len() as int)
    &&& forall|i: int, j: int|
        0 <= i < j < order.len() ==> pair_le(
            keys[#[trigger] order[i]],
            keys[#[trigger] order[j]],
        )
    &&& forall|i: int, j: int|
        0 <= i < j < order.len() && keys[#[trigger] order[i]] == keys[#[trigger] order[j]]
            ==> order[i] < order[j]
}

/// The sorting of `keys`: their positions by ascending key, positions of
/// equal keys in ascending order.
pub open spec fn sorting_of(keys: Seq<(Seq<char>, Seq<char>)>) -> Seq<int> {
    choose|order: Seq<int>| is_sorting(order, keys)
}

/// The items of `list` by ascending key, where `keys` holds the key of each
/// item; items of equal keys stay in their order.
pub open spec fn sorted_by<T>(list: Seq<T>, keys: Seq<(Seq<char>, Seq<char>)>) -> Seq<T> {
    arranged(list, sorting_of(keys))
}

/// The keys of a list of pairs of texts.
pub open spec fn key_views(keys: Seq<(String, String)>) -> Seq<(Seq<char>, Seq<char>)> {
    keys.map_values(|k: (String, String)| (k.0@, k.1@))
}

/// The positions that a list of positions holds.
pub open spec fn positions(order: Seq<usize>) -> Seq<int> {
    order.map_values(|p: usize| p as int)
}

/// Of two byte sequences one comes no later than the other.
pub proof fn lemma_bytes_total(a: Seq<u8>, b: Seq<u8>, i: int)
    requires
        0 <= i,
    ensures
        bytes_le_from(a, b, i) || bytes_le_from(b, a, i),
    decreases a.len() - i,
{
    if i < a.len() && i < b.len() && a[i] == b[i] {
        lemma_bytes_total(a, b, i + 1);
    }
}

/// The order of byte sequences is transitive.
pub proof fn lemma_bytes_transitive(a: Seq<u8>, b: Seq<u8>, c: Seq<u8>, i: int)
    requires
        0 <= i,
        bytes_le_from(a, b, i),
        bytes_le_from(b, c, i),
    ensures
        bytes_le_from(a, c, i),
    decreases a.len() - i,
{
    if i < a.len() && i < b.len() && i < c.len() && a[i] == b[i] && b[i] == c[i] {
        lemma_bytes_transitive(a, b, c, i + 1);
    }
}

/// Two byte sequences that agree before `i` and come no later than each
/// other from `i` on are the same.
pub proof fn lemma_bytes_antisymmetric(a: Seq<u8>, b: Seq<u8>, i: int)
    requires
        0 <= i,
        i <= a.len(),
        i <= b.len(),
        forall|j: int| 0 <= j < i ==> a[j] == b[j],
        bytes_le_from(a, b, i),
        bytes_le_from(b, a, i),
    ensures
        a == b,
    decreases a.len() - i,
{
    if i < a.len() && i < b.len() {
        lemma_bytes_antisymmetric(a, b, i + 1);
    }
}

/// Of two texts one comes no later than the other.
pub proof fn lemma_text_total(a: Seq<char>, b: Seq<char>)
    ensures
        text_le(a, b) || text_le(b, a),
{
    lemma_bytes_total(encode_utf8(a), encode_utf8(b), 0);
}

/// The order of texts is transitive.
pub proof fn lemma_text_transitive(a: Seq<char>, b: Seq<char>, c: Seq<char>)
    requires
        text_le(a, b),
        text_le(b, c),
    ensures
        text_le(a, c),
{
    lemma_bytes_transitive(encode_utf8(a), encode_utf8(b), encode_utf8(c), 0);
}

/// Two texts that come no later than each other are the same.
pub proof fn lemma_text_antisymmetric(a: Seq<char>, b: Seq<char>)
    requires
        text_le(a, b),
        text_le(b, a),
    ensures
        a == b,
{
    lemma_bytes_antisymmetric(encode_utf8(a), encode_utf8(b), 0);
    encode_utf8_decode_utf8(a);
    encode_utf8_decode_utf8(b);
}

/// Of two pairs one comes no later than the other.
pub proof fn lemma_pair_total(a: (Seq<char>, Seq<char>), b: (Seq<char>, Seq<char>))
    ensures
        pair_le(a, b) || pair_le(b, a),
{
    lemma_text_total(a.0, b.0);
    lemma_text_total(a.1, b.1);
}

/// The order of pairs is transitive.
pub proof fn lemma_pair_transitive(
    a: (Seq<char>, Seq<char>),
    b: (Seq<char>, Seq<char>),
    c: (Seq<char>, Seq<char>),
)
    requires
        pair_le(a, b),
        pair_le(b, c),
    ensures
        pair_le(a, c),
{
    if a.0 == b.0 {
        if b.0 == c.0 {
            lemma_text_transitive(a.1, b.1, c.1);
        }
    } else if b.0 != c.0 {
        lemma_text_transitive(a.0, b.0, c.0);
        if a.0 == c.0 {
            lemma_text_antisymmetric(a.0, b.0);
        }
    }
}

/// Two pairs that come no later than each other are the same.
pub proof fn lemma_pair_antisymmetric(a: (Seq<char>, Seq<char>), b: (Seq<char>, Seq<char>))
    requires
        pair_le(a, b),
        pair_le(b, a),
    ensures
        a == b,
{
    if a.0 == b.0 {
        lemma_text_antisymmetric(a.1, b.1);
    } else {
        lemma_text_antisymmetric(a.0, b.0);
    }
}

/// Two sortings of the same keys agree on their first `upto` positions.
pub proof fn lemma_sorting_prefix(
    first: Seq<int>,
    second: Seq<int>,
    keys: Seq<(Seq<char>, Seq<char>)>,
    upto: int,
)
    requires
        is_sorting(first, keys),
        is_sorting(second, keys),
        0 <= upto <= keys.len(),
    ensures
        forall|i: int| 0 <= i < upto ==> first[i] == second[i],
    decreases upto,
{
    if upto > 0 {
        lemma_sorting_prefix(first, second, keys, upto - 1);
        let i = upto - 1;
        let a = first[i];
        let b = second[i];
        if a != b {
            assert(second.contains(a));
            let j = choose|j: int| 0 <= j < second.len() && second[j] == a;
            assert(first.contains(b));
            let k = choose|k: int| 0 <= k < first.len() && first[k] == b;
            if j < i {
                assert(first[j] == first[i]);
            }
            if k < i {
                assert(second[k] == second[i]);
            }
            // each of the two stands before the other in one of the sortings
            assert(pair_le(keys[first[i]], keys[first[k]]));
            assert(pair_le(keys[second[i]], keys[second[j]]));
            lemma_pair_antisymmetric(keys[a], keys[b]);
            assert(first[i] < first[k]);
            assert(second[i] < second[j]);
        }
    }
}

/// The keys decide the sorting: there is one way only to list the positions
/// of `keys` by ascending key with equal keys in their order.
pub proof fn lemma_sorting_unique(
    first: Seq<int>,
    second: Seq<int>,
    keys: Seq<(Seq<char>, Seq<char>)>,
)
    requires
        is_sorting(first, keys),
        is_sorting(second, keys),
    ensures
        first == second,
{
    lemma_sorting_prefix(first, second, keys, keys.len() as int);
    assert(first =~= second);
}

/// Where the position `t` goes among the sorted positions `order`: behind
/// the last of the first `upto` of them whose key comes no later than its own.
spec fn place(order: Seq<int>, keys: Seq<(Seq<char>, Seq<char>)>, t: int, upto: int) -> int
    decreases upto,
{
    if 0 < upto <= order.len() && !pair_le(keys[order[upto - 1]], keys[t]) {
        place(order, keys, t, upto - 1)
    } else {
        upto
    }
}

/// The first `n` positions of `keys`, each put in its place in turn.
spec fn placed(keys: Seq<(Seq<char>, Seq<char>)>, n: int) -> Seq<int>
    decreases n,
{
    if n <= 0 {
        Seq::empty()
    } else {
        let before = placed(keys, n - 1);
        before.insert(place(before, keys, n - 1, before.len() as int), n - 1)
    }
}

/// What stands from the place of `t` on comes later than `t`, and what
/// stands just before it comes no later.
proof fn lemma_place(order: Seq<int>, keys: Seq<(Seq<char>, Seq<char>)>, t: int, upto: int)
    requires
        0 <= upto <= order.len(),
    ensures
        0 <= place(order, keys, t, upto) <= upto,
        forall|i: int|
            place(order, keys, t, upto) <= i < upto ==> !pair_le(
                keys[#[trigger] order[i]],
                keys[t],
            ),
        place(order, keys, t, upto) > 0 ==> pair_le(
            keys[order[place(order, keys, t, upto) - 1]],
            keys[t],
        ),
    decreases upto,
{
    if upto > 0 && !pair_le(keys[order[upto - 1]], keys[t]) {
        lemma_place(order, keys, t, upto - 1);
    }
}

/// Putting each position in its place in turn sorts the first `n` keys.
proof fn lemma_placed(keys: Seq<(Seq<char>, Seq<char>)>, n: int)
    requires
        0 <= n <= keys.len(),
    ensures
        is_sorting(placed(keys, n), keys.take(n)),
    decreases n,
{
    if n > 0 {
        lemma_placed(keys, n - 1);
        let t = n - 1;
        let before = placed(keys, t);
        let p = place(before, keys, t, before.len() as int);
        let after = placed(keys, n);
        let old_keys = keys.take(t);
        let now = keys.take(n);
        lemma_place(before, keys, t, before.len() as int);
        assert(after == before.insert(p, t));
        assert forall|i: int| 0 <= i < after.len() implies 0 <= #[trigger] after[i] < n by {
            if i != p {
                let b = if i < p { i } else { i - 1 };
                assert(after[i] == before[b]);
            }
        }
        assert forall|i: int, j: int| 0 <= i < j < after.len() implies #[trigger] after[i]
            != #[trigger] after[j] by {
            let bi = if i < p { i } else { i - 1 };
            let bj = if j < p { j } else { j - 1 };
            if i != p {
                assert(after[i] == before[bi]);
            }
            if j != p {
                assert(after[j] == before[bj]);
            }
        }
        assert forall|k: int| 0 <= k < n implies #[trigger] after.contains(k) by {
            if k == t {
                assert(after[p] == k);
            } else {
                assert(before.contains(k));
                let i = choose|i: int| 0 <= i < before.len() && before[i] == k;
                let moved = if i < p { i } else { i + 1 };
                assert(after[moved] == k);
            }
        }
        assert forall|i: int, j: int| 0 <= i < j < after.len() implies pair_le(
            now[#[trigger] after[i]],
            now[#[trigger] after[j]],
        ) by {
            if j == p {
                assert(after[i] == before[i]);
                if i < p - 1 {
                    assert(pair_le(old_keys[before[i]], old_keys[before[p - 1]]));
                    lemma_pair_transitive(keys[before[i]], keys[before[p - 1]], keys[t]);
                }
            } else if i == p {
                assert(after[j] == before[j - 1]);
                lemma_pair_total(keys[before[j - 1]], keys[t]);
            } else {
                let bi = if i < p { i } else { i - 1 };
                let bj = if j < p { j } else { j - 1 };
                assert(after[i] == before[bi]);
                assert(after[j] == before[bj]);
                assert(pair_le(old_keys[before[bi]], old_keys[before[bj]]));
            }
        }
        assert forall|i: int, j: int|
            0 <= i < j < after.len() && now[#[trigger] after[i]] == now[
            #[trigger] after[j]] implies after[i] < after[j] by {
            if j == p {
                assert(after[i] == before[i]);
            } else if i == p {
                assert(after[j] == before[j - 1]);
                lemma_pair_total(keys[t], keys[t]);
            } else {
                let bi = if i < p { i } else { i - 1 };
                let bj = if j < p { j } else { j - 1 };
                assert(after[i] == before[bi]);
                assert(after[j] == before[bj]);
                assert(old_keys[before[bi]] == old_keys[before[bj]]);
            }
        }
    }
}

/// Every list of keys has a sorting: `sorting_of` lists each position once,
/// by ascending key, positions of equal keys in ascending order.
pub proof fn lemma_sorting_exists(keys: Seq<(Seq<char>, Seq<char>)>)
    ensures
        is_sorting(sorting_of(keys), keys),
{
    lemma_placed(keys, keys.len() as int);
    assert(keys.take(keys.len() as int) =~= keys);
}

/// Sorting rearranges: the sorted list is as long as the list, holds each
/// item of it, and holds nothing else.
pub proof fn lemma_sorted_by<T>(list: Seq<T>, keys: Seq<(Seq<char>, Seq<char>)>)
    requires
        keys.len() == list.len(),
    ensures
        is_sorting(sorting_of(keys), keys),
        sorted_by(list, keys).len() == list.len(),
        forall|i: int|
            0 <= i < list.len() ==> #[trigger] sorted_by(list, keys)[i] == list[sorting_of(
                keys,
            )[i]],
        forall|k: int| 0 <= k < list.len() ==> sorted_by(list, keys).contains(#[trigger] list[k]),
{
    lemma_sorting_exists(keys);
    let order = sorting_of(keys);
    let out = sorted_by(list, keys);
    assert forall|k: int| 0 <= k < list.len() implies out.contains(#[trigger] list[k]) by {
        assert(order.contains(k));
        let i = choose|i: int| 0 <= i < order.len() && order[i] == k;
        assert(out[i] == list[k]);
    }
}

/// A list of positions that sorts `keys` is their sorting.
pub proof fn lemma_sorting_of(order: Seq<int>, keys: Seq<(Seq<char>, Seq<char>)>)
    requires
        is_sorting(order, keys),
    ensures
        sorting_of(keys) == order,
{
    lemma_sorting_unique(sorting_of(keys), order, keys);
}

/// Tells whether the text `a` comes no later than the text `b`.
pub fn text_before(a: &str, b: &str) -> (r: bool)
    ensures
        r == text_le(a@, b@),
{
    let x = a.as_bytes();
    let y = b.as_bytes();
    let n = x.len();
    let m = y.len();
    let mut i: usize = 0;
    while i < n
        invariant
            i <= n,
            n == x@.len(),
            m == y@.len(),
            x@ == encode_utf8(a@),
            y@ == encode_utf8(b@),
            text_le(a@, b@) == bytes_le_from(x@, y@, i as int),
        decreases n - i,
    {
        if i >= m {
            return false;
        }
        if x[i] != y[i] {
            return x[i] < y[i];
        }
        i += 1;
    }
    true
}

/// Tells whether the pair `a` comes no later than the pair `b`.
pub fn pair_before(a: &(String, String), b: &(String, String)) -> (r: bool)
    ensures
        r == pair_le((a.0@, a.1@), (b.0@, b.1@)),
{
    if a.0 == b.0 {
        text_before(a.1.as_str(), b.1.as_str())
    } else {
        text_before(a.0.as_str(), b.0.as_str())
    }
}

/// The positions of `keys` by ascending key; positions of equal keys stay in
/// ascending order.
pub fn sorted_order(keys: &Vec<(String, String)>) -> (order: Vec<usize>)
    ensures
        positions(order@) == sorting_of(key_views(keys@)),
        is_sorting(positions(order@), key_views(keys@)),
{
    let n = keys.len();
    let ghost model = key_views(keys@);
    let mut order: Vec<usize> = Vec::new();
    let mut t: usize = 0;
    while t < n
        invariant
            t <= n,
            n == keys@.len(),
            model == key_views(keys@),
            order@.len() == t,
            forall|i: int| 0 <= i < t ==> 0 <= #[trigger] order@[i] < t,
            forall|i: int, j: int| 0 <= i < j < t ==> #[trigger] order@[i] != #[trigger] order@[j],
            forall|k: int| 0 <= k < t ==> #[trigger] positions(order@).contains(k),
            forall|i: int, j: int|
                0 <= i < j < t ==> pair_le(
                    model[#[trigger] order@[i] as int],
                    model[#[trigger] order@[j] as int],
                ),
            forall|i: int, j: int|
                0 <= i < j < t && model[#[trigger] order@[i] as int] == model[
                #[trigger] order@[j] as int] ==> order@[i] < order@[j],
        decreases n - t,
    {
        let mut p: usize = t;
        while p > 0 && !pair_before(&keys[order[p - 1]], &keys[t])
            invariant
                p <= t,
                t < n,
                n == keys@.len(),
                model == key_views(keys@),
                order@.len() == t,
                forall|i: int| 0 <= i < t ==> 0 <= #[trigger] order@[i] < t,
                forall|i: int|
                    p <= i < t ==> !pair_le(model[#[trigger] order@[i] as int], model[t as int]),
            decreases p,
        {
            p -= 1;
        }
        let ghost before = order@;
        order.insert(p, t);
        proof {
            let after = order@;
            assert forall|i: int, j: int| 0 <= i < j < t + 1 implies pair_le(
                model[#[trigger] after[i] as int],
                model[#[trigger] after[j] as int],
            ) by {
                if j == p && i < p - 1 {
                    lemma_pair_transitive(
                        model[before[i] as int],
                        model[before[p - 1] as int],
                        model[t as int],
                    );
                } else if i == p {
                    lemma_pair_total(model[before[j - 1] as int], model[t as int]);
                }
            }
            assert forall|i: int, j: int|
                0 <= i < j < t + 1 && model[#[trigger] after[i] as int] == model[
                #[trigger] after[j] as int] implies after[i] < after[j] by {
                if i == p {
                    lemma_pair_total(model[t as int], model[t as int]);
                }
            }
            assert forall|k: int| 0 <= k < t + 1 implies #[trigger] positions(after).contains(
                k,
            ) by {
                if k == t {
                    assert(positions(after)[p as int] == k);
                } else {
                    assert(positions(before).contains(k));
                    let i = choose|i: int|
                        0 <= i < positions(before).len() && positions(before)[i] == k;
                    let moved = if i < p { i } else { i + 1 };
                    assert(positions(after)[moved] == k);
                }
            }
        }
        t += 1;
    }
    proof {
        lemma_sorting_of(positions(order@), model);
    }
    order
}

} // verus!
