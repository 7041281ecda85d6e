//! The order of candidates: by the bytes of their normalised relative
//! paths, ascending, with candidates of one key kept in the order in which
//! they came.

use vstd::prelude::*;
use vstd::string::StringSliceAdditionalSpecFns;
use vstd::utf8::encode_utf8;

verus! {

/// Whether `a` comes before `b`, or equals it, in the lexicographic order of
/// byte strings.
pub open spec fn bytes_le(a: Seq<u8>, b: Seq<u8>) -> bool
    decreases a.len(),
{
    a.len() == 0 || (b.len() > 0 && (a[0] < b[0] || (a[0] == b[0] && bytes_le(
        a.drop_first(),
        b.drop_first(),
    ))))
}

/// The order of strings: that of their UTF-8 encodings, byte by byte.
pub open spec fn text_le(a: Seq<char>, b: Seq<char>) -> bool {
    bytes_le(encode_utf8(a), encode_utf8(b))
}

/// Whether `a` comes before `b`, or equals it, in the order of strings.
pub fn str_le(a: &str, b: &str) -> (le: bool)
    ensures
        le == text_le(a@, b@),
{
    let x = a.as_bytes();
    let y = b.as_bytes();
    let mut i: usize = 0;
    assert(x@.skip(0) =~= x@ && y@.skip(0) =~= y@);
    while i < x.len() && i < y.len()
        invariant
            i <= x@.len(),
            i <= y@.len(),
            x@ == encode_utf8(a@),
            y@ == encode_utf8(b@),
            bytes_le(x@, y@) == bytes_le(x@.skip(i as int), y@.skip(i as int)),
        decreases x@.len() - i,
    {
        assert(x@.skip(i as int)[0] == x@[i as int]);
        assert(y@.skip(i as int)[0] == y@[i as int]);
        assert(x@.skip(i as int).drop_first() =~= x@.skip(i + 1));
        assert(y@.skip(i as int).drop_first() =~= y@.skip(i + 1));
        if x[i] < y[i] {
            return true;
        }
        if x[i] > y[i] {
            return false;
        }
        i += 1;
    }
    x.len() <= y.len()
}

/// The order of byte strings is reflexive.
pub proof fn lemma_bytes_le_reflexive(a: Seq<u8>)
    ensures
        bytes_le(a, a),
    decreases a.len(),
{
    if a.len() > 0 {
        lemma_bytes_le_reflexive(a.drop_first());
    }
}

/// Of two byte strings, one comes before the other or equals it.
pub proof fn lemma_bytes_le_total(a: Seq<u8>, b: Seq<u8>)
    ensures
        bytes_le(a, b) || bytes_le(b, a),
    decreases a.len(),
{
    if a.len() > 0 && b.len() > 0 {
        lemma_bytes_le_total(a.drop_first(), b.drop_first());
    }
}

/// The order of byte strings is transitive.
pub proof fn lemma_bytes_le_transitive(a: Seq<u8>, b: Seq<u8>, c: Seq<u8>)
    requires
        bytes_le(a, b),
        bytes_le(b, c),
    ensures
        bytes_le(a, c),
    decreases a.len(),
{
    if a.len() > 0 {
        if a[0] == b[0] && b[0] == c[0] {
            lemma_bytes_le_transitive(a.drop_first(), b.drop_first(), c.drop_first());
        }
    }
}

/// Two byte strings that come before each other are equal.
pub proof fn lemma_bytes_le_antisymmetric(a: Seq<u8>, b: Seq<u8>)
    requires
        bytes_le(a, b),
        bytes_le(b, a),
    ensures
        a == b,
    decreases a.len(),
{
    if a.len() > 0 {
        lemma_bytes_le_antisymmetric(a.drop_first(), b.drop_first());
        assert(a =~= seq![a[0]] + a.drop_first());
        assert(b =~= seq![b[0]] + b.drop_first());
    } else {
        assert(a =~= b);
    }
}

/// The order of strings is a total order: reflexive, total, transitive and
/// antisymmetric.
pub proof fn lemma_text_le_is_total_order(a: Seq<char>, b: Seq<char>, c: Seq<char>)
    ensures
        text_le(a, a),
        text_le(a, b) || text_le(b, a),
        text_le(a, b) && text_le(b, c) ==> text_le(a, c),
        text_le(a, b) && text_le(b, a) ==> a == b,
{
    broadcast use vstd::utf8::encode_utf8_decode_utf8;

    lemma_bytes_le_reflexive(encode_utf8(a));
    lemma_bytes_le_total(encode_utf8(a), encode_utf8(b));
    if text_le(a, b) && text_le(b, c) {
        lemma_bytes_le_transitive(encode_utf8(a), encode_utf8(b), encode_utf8(c));
    }
    if text_le(a, b) && text_le(b, a) {
        lemma_bytes_le_antisymmetric(encode_utf8(a), encode_utf8(b));
        assert(vstd::utf8::decode_utf8(encode_utf8(a)) == a);
        assert(vstd::utf8::decode_utf8(encode_utf8(b)) == b);
    }
}

/// A file that passed the filters: its path, and the key by which it is
/// ordered.
#[derive(Debug, Clone)]
pub struct Candidate {
    /// The normalised path relative to the root.
    pub key: String,
    /// The path as the walk gave it.
    pub path: String,
}

/// The candidates as pairs of key and path.
pub open spec fn candidate_views(list: Seq<Candidate>) -> Seq<(Seq<char>, Seq<char>)> {
    Seq::new(list.len(), |i: int| (list[i].key@, list[i].path@))
}

/// `sorted` with `x` put in before the first entry whose key does not come
/// before `x`'s.
pub open spec fn placed(x: (Seq<char>, Seq<char>), sorted: Seq<(Seq<char>, Seq<char>)>) -> Seq<
    (Seq<char>, Seq<char>),
>
    decreases sorted.len(),
{
    if sorted.len() == 0 {
        seq![x]
    } else if text_le(x.0, sorted[0].0) {
        seq![x] + sorted
    } else {
        seq![sorted[0]] + placed(x, sorted.drop_first())
    }
}

/// The entries of `list` in ascending order of their keys; entries of one
/// key stay in the order that they have in `list`.
pub open spec fn sorted_by_key(list: Seq<(Seq<char>, Seq<char>)>) -> Seq<(Seq<char>, Seq<char>)>
    decreases list.len(),
{
    if list.len() == 0 {
        list
    } else {
        placed(list[0], sorted_by_key(list.drop_first()))
    }
}

/// Whether the keys of `list` ascend.
pub open spec fn ascending(list: Seq<(Seq<char>, Seq<char>)>) -> bool {
    forall|i: int, j: int| 0 <= i < j < list.len() ==> text_le(list[i].0, list[j].0)
}

proof fn lemma_placed_ascending(x: (Seq<char>, Seq<char>), sorted: Seq<(Seq<char>, Seq<char>)>)
    requires
        ascending(sorted),
    ensures
        ascending(placed(x, sorted)),
        placed(x, sorted).len() == sorted.len() + 1,
        placed(x, sorted).to_multiset() == sorted.to_multiset().insert(x),
    decreases sorted.len(),
{
    broadcast use vstd::seq_lib::group_to_multiset_ensures;

    let out = placed(x, sorted);
    if sorted.len() == 0 {
        assert(out =~= sorted.push(x));
    } else if text_le(x.0, sorted[0].0) {
        assert forall|i: int, j: int| 0 <= i < j < out.len() implies text_le(
            out[i].0,
            out[j].0,
        ) by {
            if i == 0 {
                lemma_text_le_is_total_order(x.0, sorted[0].0, sorted[j - 1].0);
            } else {
                assert(out[i] == sorted[i - 1] && out[j] == sorted[j - 1]);
            }
        }
        assert(out =~= sorted.insert(0, x));
        vstd::seq_lib::to_multiset_insert(sorted, 0, x);
    } else {
        let rest = sorted.drop_first();
        assert forall|i: int, j: int| 0 <= i < j < rest.len() implies text_le(
            rest[i].0,
            rest[j].0,
        ) by {
            assert(rest[i] == sorted[i + 1] && rest[j] == sorted[j + 1]);
        }
        lemma_placed_ascending(x, rest);
        let tail = placed(x, rest);
        lemma_text_le_is_total_order(x.0, sorted[0].0, x.0);
        assert forall|j: int| 0 <= j < tail.len() implies text_le(sorted[0].0, tail[j].0) by {
            // Every entry of `tail` is `x` or an entry of `rest`.
            assert(tail.to_multiset().count(tail[j]) > 0);
            if tail[j] != x {
                assert(rest.to_multiset().count(tail[j]) > 0);
                let k = choose|k: int| 0 <= k < rest.len() && rest[k] == tail[j];
                assert(rest[k] == sorted[k + 1]);
            }
        }
        assert forall|i: int, j: int| 0 <= i < j < out.len() implies text_le(
            out[i].0,
            out[j].0,
        ) by {
            if i == 0 {
                assert(out[j] == tail[j - 1]);
            } else {
                assert(out[i] == tail[i - 1] && out[j] == tail[j - 1]);
            }
        }
        assert(sorted =~= seq![sorted[0]] + rest);
        assert(out =~= tail.insert(0, sorted[0]));
        vstd::seq_lib::to_multiset_insert(tail, 0, sorted[0]);
        assert(sorted =~= rest.insert(0, sorted[0]));
        vstd::seq_lib::to_multiset_insert(rest, 0, sorted[0]);
        assert(out.to_multiset() =~= sorted.to_multiset().insert(x));
    }
}

/// Sorting keeps every entry, as often as it occurs, and leaves the keys in
/// ascending order.
pub proof fn lemma_sorted_by_key(list: Seq<(Seq<char>, Seq<char>)>)
    ensures
        ascending(sorted_by_key(list)),
        sorted_by_key(list).len() == list.len(),
        sorted_by_key(list).to_multiset() == list.to_multiset(),
    decreases list.len(),
{
    broadcast use vstd::seq_lib::group_to_multiset_ensures;

    if list.len() > 0 {
        let rest = list.drop_first();
        lemma_sorted_by_key(rest);
        lemma_placed_ascending(list[0], sorted_by_key(rest));
        assert(list =~= rest.insert(0, list[0]));
        vstd::seq_lib::to_multiset_insert(rest, 0, list[0]);
    }
}

/// Whether entries of one key are one and the same entry.
pub open spec fn keys_identify(list: Seq<(Seq<char>, Seq<char>)>) -> bool {
    forall|i: int, j: int|
        0 <= i < list.len() && 0 <= j < list.len() && list[i].0 == list[j].0 ==> list[i] == list[j]
}

/// Two lists in ascending order that hold the same entries, each as often,
/// are equal, where entries of one key are the same entry.
pub proof fn lemma_ascending_unique(x: Seq<(Seq<char>, Seq<char>)>, y: Seq<(Seq<char>, Seq<char>)>)
    requires
        ascending(x),
        ascending(y),
        x.to_multiset() == y.to_multiset(),
        keys_identify(x),
    ensures
        x == y,
    decreases x.len(),
{
    broadcast use vstd::seq_lib::group_to_multiset_ensures;

    assert(x.len() == y.len()) by {
        vstd::seq_lib::to_multiset_len(x);
        vstd::seq_lib::to_multiset_len(y);
    }
    if x.len() == 0 {
        assert(x =~= y);
    } else {
        // The first entry of each list occurs in the other.
        assert(x.contains(x[0]));
        assert(y.to_multiset().count(x[0]) > 0);
        assert(y.contains(x[0]));
        let j = choose|j: int| 0 <= j < y.len() && y[j] == x[0];
        assert(y.contains(y[0]));
        assert(x.to_multiset().count(y[0]) > 0);
        assert(x.contains(y[0]));
        let i = choose|i: int| 0 <= i < x.len() && x[i] == y[0];
        lemma_text_le_is_total_order(x[0].0, y[0].0, x[0].0);
        assert(text_le(x[0].0, x[i].0));
        assert(text_le(y[0].0, y[j].0));
        assert(x[0].0 == x[i].0);
        assert(x[0] == y[0]);
        let xs = x.drop_first();
        let ys = y.drop_first();
        assert(xs =~= x.remove(0));
        assert(ys =~= y.remove(0));
        vstd::seq_lib::to_multiset_remove(x, 0);
        vstd::seq_lib::to_multiset_remove(y, 0);
        assert forall|a: int, b: int| 0 <= a < b < xs.len() implies text_le(xs[a].0, xs[b].0) by {
            assert(xs[a] == x[a + 1] && xs[b] == x[b + 1]);
        }
        assert forall|a: int, b: int| 0 <= a < b < ys.len() implies text_le(ys[a].0, ys[b].0) by {
            assert(ys[a] == y[a + 1] && ys[b] == y[b + 1]);
        }
        assert forall|a: int, b: int|
            0 <= a < xs.len() && 0 <= b < xs.len() && xs[a].0 == xs[b].0 implies xs[a]
            == xs[b] by {
            assert(xs[a] == x[a + 1] && xs[b] == x[b + 1]);
        }
        lemma_ascending_unique(xs, ys);
        assert(x =~= seq![x[0]] + xs);
        assert(y =~= seq![y[0]] + ys);
    }
}

/// The order does not depend on the order in which the entries come: two
/// lists that hold the same entries, each as often, are sorted into the same
/// list, where entries of one key are the same entry.
pub proof fn lemma_sorted_whatever_the_order(
    a: Seq<(Seq<char>, Seq<char>)>,
    b: Seq<(Seq<char>, Seq<char>)>,
)
    requires
        a.to_multiset() == b.to_multiset(),
        keys_identify(a),
    ensures
        sorted_by_key(a) == sorted_by_key(b),
{
    broadcast use vstd::seq_lib::group_to_multiset_ensures;

    lemma_sorted_by_key(a);
    lemma_sorted_by_key(b);
    let x = sorted_by_key(a);
    assert forall|i: int, j: int|
        0 <= i < x.len() && 0 <= j < x.len() && x[i].0 == x[j].0 implies x[i] == x[j] by {
        assert(x.contains(x[i]) && x.contains(x[j]));
        assert(a.to_multiset().count(x[i]) > 0 && a.to_multiset().count(x[j]) > 0);
        assert(a.contains(x[i]) && a.contains(x[j]));
        let m = choose|m: int| 0 <= m < a.len() && a[m] == x[i];
        let n = choose|n: int| 0 <= n < a.len() && a[n] == x[j];
        assert(a[m].0 == a[n].0);
    }
    lemma_ascending_unique(x, sorted_by_key(b));
}

/// Two lists merged into one: the entry with the lesser key goes first, and
/// on a tie the one from `a`.
pub open spec fn merged(a: Seq<(Seq<char>, Seq<char>)>, b: Seq<(Seq<char>, Seq<char>)>) -> Seq<
    (Seq<char>, Seq<char>),
>
    decreases a.len() + b.len(),
{
    if a.len() == 0 {
        b
    } else if b.len() == 0 {
        a
    } else if text_le(a[0].0, b[0].0) {
        seq![a[0]] + merged(a.drop_first(), b)
    } else {
        seq![b[0]] + merged(a, b.drop_first())
    }
}

proof fn lemma_placed_front(x: (Seq<char>, Seq<char>), list: Seq<(Seq<char>, Seq<char>)>)
    ensures
        placed(x, list).len() == list.len() + 1,
        list.len() == 0 || text_le(x.0, list[0].0) ==> placed(x, list) == seq![x] + list,
        list.len() > 0 && !text_le(x.0, list[0].0) ==> placed(x, list)[0] == list[0] && placed(
            x,
            list,
        ).drop_first() == placed(x, list.drop_first()),
    decreases list.len(),
{
    if list.len() == 0 {
        assert(seq![x] + list =~= seq![x]);
    } else if !text_le(x.0, list[0].0) {
        lemma_placed_front(x, list.drop_first());
        assert(placed(x, list).drop_first() =~= placed(x, list.drop_first()));
    }
}

/// Putting an entry into a merged list is putting it into the first of the
/// two lists and merging then.
proof fn lemma_placed_in_merged(
    x: (Seq<char>, Seq<char>),
    a: Seq<(Seq<char>, Seq<char>)>,
    b: Seq<(Seq<char>, Seq<char>)>,
)
    ensures
        placed(x, merged(a, b)) == merged(placed(x, a), b),
    decreases a.len() + b.len(),
{
    lemma_placed_front(x, a);
    let pa = placed(x, a);
    if a.len() == 0 {
        assert(pa =~= seq![x]);
        assert(pa.drop_first() =~= Seq::empty());
        if b.len() > 0 {
            if text_le(x.0, b[0].0) {
                assert(merged(pa.drop_first(), b) == b);
                assert(merged(pa, b) =~= seq![x] + b);
            } else {
                lemma_placed_in_merged(x, a, b.drop_first());
                assert(placed(x, a) =~= pa);
            }
        }
    } else if b.len() == 0 {
    } else if text_le(a[0].0, b[0].0) {
        let rest = merged(a.drop_first(), b);
        assert(merged(a, b)[0] == a[0]);
        assert(merged(a, b).drop_first() =~= rest);
        if text_le(x.0, a[0].0) {
            lemma_text_le_is_total_order(x.0, a[0].0, b[0].0);
            assert(pa.drop_first() =~= a);
            assert(merged(pa, b) =~= seq![x] + merged(a, b));
        } else {
            lemma_placed_in_merged(x, a.drop_first(), b);
            assert(pa[0] == a[0]);
            assert(merged(pa, b) =~= seq![a[0]] + merged(pa.drop_first(), b));
            assert(placed(x, merged(a, b)) =~= seq![a[0]] + placed(x, rest));
        }
    } else {
        let rest = merged(a, b.drop_first());
        assert(merged(a, b)[0] == b[0]);
        assert(merged(a, b).drop_first() =~= rest);
        if text_le(x.0, b[0].0) {
            // Then `x` goes before `a[0]` too: else `a[0]` would come before `b[0]`.
            lemma_text_le_is_total_order(a[0].0, x.0, b[0].0);
            lemma_text_le_is_total_order(x.0, a[0].0, b[0].0);
            assert(text_le(x.0, a[0].0));
            assert(pa.drop_first() =~= a);
            assert(merged(pa, b) =~= seq![x] + merged(a, b));
        } else {
            lemma_placed_in_merged(x, a, b.drop_first());
            assert(!text_le(pa[0].0, b[0].0));
            assert(merged(pa, b) =~= seq![b[0]] + merged(pa, b.drop_first()));
            assert(placed(x, merged(a, b)) =~= seq![b[0]] + placed(x, rest));
        }
    }
}

/// Sorting a list is sorting its two parts and merging them.
pub proof fn lemma_sorted_by_parts(a: Seq<(Seq<char>, Seq<char>)>, b: Seq<(Seq<char>, Seq<char>)>)
    ensures
        sorted_by_key(a + b) == merged(sorted_by_key(a), sorted_by_key(b)),
    decreases a.len(),
{
    if a.len() == 0 {
        assert(a + b =~= b);
    } else {
        let rest = a.drop_first();
        lemma_sorted_by_parts(rest, b);
        assert((a + b).drop_first() =~= rest + b);
        lemma_placed_in_merged(a[0], sorted_by_key(rest), sorted_by_key(b));
    }
}

/// The candidates in reverse.
fn reversed(list: Vec<Candidate>) -> (out: Vec<Candidate>)
    ensures
        out@ == list@.reverse(),
{
    let ghost all = list@;
    let mut list = list;
    let mut out: Vec<Candidate> = Vec::new();
    while list.len() > 0
        invariant
            list@.len() <= all.len(),
            list@ == all.take(list@.len() as int),
            out@ == all.skip(list@.len() as int).reverse(),
        decreases list@.len(),
    {
        let ghost before = list@;
        let x = list.pop().unwrap();
        proof {
            assert(list@ =~= all.take(list@.len() as int));
            assert(x == all[list@.len() as int]);
            assert(all.skip(list@.len() as int).reverse() =~= all.skip(
                before.len() as int,
            ).reverse().push(x));
        }
        out.push(x);
    }
    assert(all.skip(0) =~= all);
    out
}

/// Merges two lists of candidates: the one with the lesser key goes first,
/// and on a tie the one from `a`.
fn merge(a: Vec<Candidate>, b: Vec<Candidate>) -> (out: Vec<Candidate>)
    ensures
        candidate_views(out@) == merged(candidate_views(a@), candidate_views(b@)),
{
    let ghost av = candidate_views(a@);
    let ghost bv = candidate_views(b@);
    // Turned round, each list gives up its first entry at its end.
    let mut left = reversed(a);
    let mut right = reversed(b);
    let mut out: Vec<Candidate> = Vec::new();
    proof {
        assert(candidate_views(left@).reverse() =~= av);
        assert(candidate_views(right@).reverse() =~= bv);
        assert(candidate_views(out@) =~= Seq::empty());
        assert(Seq::<(Seq<char>, Seq<char>)>::empty() + merged(av, bv) =~= merged(av, bv));
    }
    while left.len() > 0 && right.len() > 0
        invariant
            candidate_views(out@) + merged(
                candidate_views(left@).reverse(),
                candidate_views(right@).reverse(),
            ) == merged(av, bv),
        decreases left@.len() + right@.len(),
    {
        let ghost l = candidate_views(left@).reverse();
        let ghost r = candidate_views(right@).reverse();
        let ghost done = candidate_views(out@);
        proof {
            assert(l[0] == candidate_views(left@)[left@.len() - 1]);
            assert(r[0] == candidate_views(right@)[right@.len() - 1]);
        }
        if str_le(left[left.len() - 1].key.as_str(), right[right.len() - 1].key.as_str()) {
            let x = left.pop().unwrap();
            out.push(x);
            proof {
                assert(candidate_views(left@).reverse() =~= l.drop_first());
                assert(candidate_views(out@) =~= done.push(l[0]));
                assert(done.push(l[0]) + merged(l.drop_first(), r) =~= done + merged(l, r));
            }
        } else {
            let x = right.pop().unwrap();
            out.push(x);
            proof {
                assert(candidate_views(right@).reverse() =~= r.drop_first());
                assert(candidate_views(out@) =~= done.push(r[0]));
                assert(done.push(r[0]) + merged(l, r.drop_first()) =~= done + merged(l, r));
            }
        }
    }
    while left.len() > 0
        invariant
            left@.len() == 0 || right@.len() == 0,
            candidate_views(out@) + merged(
                candidate_views(left@).reverse(),
                candidate_views(right@).reverse(),
            ) == merged(av, bv),
        decreases left@.len(),
    {
        let ghost l = candidate_views(left@).reverse();
        let ghost r = candidate_views(right@).reverse();
        let ghost done = candidate_views(out@);
        proof {
            assert(l[0] == candidate_views(left@)[left@.len() - 1]);
            assert(merged(l, r) == l);
        }
        let x = left.pop().unwrap();
        out.push(x);
        proof {
            assert(candidate_views(left@).reverse() =~= l.drop_first());
            assert(candidate_views(out@) =~= done.push(l[0]));
            assert(merged(l.drop_first(), r) == l.drop_first());
            assert(done.push(l[0]) + l.drop_first() =~= done + l);
        }
    }
    while right.len() > 0
        invariant
            left@.len() == 0,
            candidate_views(out@) + merged(
                candidate_views(left@).reverse(),
                candidate_views(right@).reverse(),
            ) == merged(av, bv),
        decreases right@.len(),
    {
        let ghost l = candidate_views(left@).reverse();
        let ghost r = candidate_views(right@).reverse();
        let ghost done = candidate_views(out@);
        proof {
            assert(r[0] == candidate_views(right@)[right@.len() - 1]);
            assert(merged(l, r) == r);
        }
        let x = right.pop().unwrap();
        out.push(x);
        proof {
            assert(candidate_views(right@).reverse() =~= r.drop_first());
            assert(candidate_views(out@) =~= done.push(r[0]));
            assert(merged(l, r.drop_first()) == r.drop_first());
            assert(done.push(r[0]) + r.drop_first() =~= done + r);
        }
    }
    proof {
        let l = candidate_views(left@).reverse();
        let r = candidate_views(right@).reverse();
        assert(merged(l, r) =~= Seq::empty());
        assert(candidate_views(out@) + Seq::<(Seq<char>, Seq<char>)>::empty() =~= candidate_views(
            out@,
        ));
    }
    out
}

/// Sorts candidates by key, ascending; candidates of one key keep their
/// order.
pub fn sort_candidates(list: Vec<Candidate>) -> (out: Vec<Candidate>)
    ensures
        candidate_views(out@) == sorted_by_key(candidate_views(list@)),
    decreases list@.len(),
{
    let n = list.len();
    if n <= 1 {
        proof {
            let v = candidate_views(list@);
            if n == 1 {
                assert(v.drop_first() =~= Seq::empty());
                assert(sorted_by_key(v.drop_first()) =~= Seq::empty());
                assert(sorted_by_key(v) =~= v);
            }
        }
        return list;
    }
    let ghost all = candidate_views(list@);
    let mut front = list;
    let back = front.split_off(n / 2);
    proof {
        assert(all =~= candidate_views(front@) + candidate_views(back@));
        lemma_sorted_by_parts(candidate_views(front@), candidate_views(back@));
    }
    let front_sorted = sort_candidates(front);
    let back_sorted = sort_candidates(back);
    merge(front_sorted, back_sorted)
}

} // verus!
