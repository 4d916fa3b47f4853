//! Stable ordering by a two-part key of code-point sequences, as
//! `slice::sort_by` with a comparison that compares two texts one after the
//! other orders.

use vstd::prelude::*;

verus! {

/// Lexicographic comparison of code sequences: negative, zero or positive.
pub open spec fn seq_compare(a: Seq<u32>, b: Seq<u32>) -> int
    decreases a.len(),
{
    if a.len() == 0 && b.len() == 0 {
        0
    } else if a.len() == 0 {
        -1
    } else if b.len() == 0 {
        1
    } else if a[0] < b[0] {
        -1
    } else if a[0] > b[0] {
        1
    } else {
        seq_compare(a.drop_first(), b.drop_first())
    }
}

/// A sort key: compared by its first part, then by its second.
pub struct OrderKey {
    pub primary: Vec<u32>,
    pub secondary: Vec<u32>,
}

pub type KeyView = (Seq<u32>, Seq<u32>);

pub open spec fn key_view(k: OrderKey) -> KeyView {
    (k.primary@, k.secondary@)
}

pub open spec fn key_compare(a: KeyView, b: KeyView) -> int {
    if seq_compare(a.0, b.0) != 0 {
        seq_compare(a.0, b.0)
    } else {
        seq_compare(a.1, b.1)
    }
}

/// `a` is ordered strictly before `b`, ascending or descending.
pub open spec fn goes_before(a: KeyView, b: KeyView, descending: bool) -> bool {
    if descending {
        key_compare(a, b) > 0
    } else {
        key_compare(a, b) < 0
    }
}

pub open spec fn item_key<V>(item: (V, KeyView)) -> KeyView {
    item.1
}

/// Items with their keys, by their views.
pub open spec fn pair_views<T: View>(s: Seq<(T, OrderKey)>) -> Seq<(T::V, KeyView)> {
    s.map_values(|x: (T, OrderKey)| (x.0@, key_view(x.1)))
}

/// No item is ordered before an item that precedes it.
pub open spec fn is_ordered<V>(s: Seq<(V, KeyView)>, descending: bool) -> bool {
    forall|i: int, j: int|
        0 <= i < j < s.len() ==> !goes_before(item_key(#[trigger] s[j]), item_key(#[trigger] s[i]), descending)
}

/// The items whose key is `k`, in their order.
pub open spec fn with_key<V>(s: Seq<(V, KeyView)>, k: KeyView) -> Seq<(V, KeyView)>
    decreases s.len(),
{
    if s.len() == 0 {
        s
    } else if item_key(s.last()) == k {
        with_key(s.drop_last(), k).push(s.last())
    } else {
        with_key(s.drop_last(), k)
    }
}

/// `out` is `input` ordered, items with equal keys keeping their order.
pub open spec fn is_stable_sort_of<V>(
    out: Seq<(V, KeyView)>,
    input: Seq<(V, KeyView)>,
    descending: bool,
) -> bool {
    &&& is_ordered(out, descending)
    &&& forall|k: KeyView| #[trigger] with_key(out, k) == with_key(input, k)
}

/// Swapping the sequences flips the comparison; it is zero only for equal
/// sequences.
pub proof fn lemma_seq_compare_antisym(a: Seq<u32>, b: Seq<u32>)
    ensures
        seq_compare(a, b) == -seq_compare(b, a),
        seq_compare(a, b) == 0 <==> a == b,
        -1 <= seq_compare(a, b) <= 1,
    decreases a.len(),
{
    if a.len() > 0 && b.len() > 0 && a[0] == b[0] {
        lemma_seq_compare_antisym(a.drop_first(), b.drop_first());
        if a.drop_first() == b.drop_first() {
            assert(a =~= seq![a[0]] + a.drop_first());
            assert(b =~= seq![b[0]] + b.drop_first());
        }
        if a == b {
            assert(a.drop_first() =~= b.drop_first());
        }
    }
    if a.len() == 0 && b.len() == 0 {
        assert(a =~= b);
    }
}

/// The comparison is transitive, strictly so when either step is strict.
pub proof fn lemma_seq_compare_trans(a: Seq<u32>, b: Seq<u32>, c: Seq<u32>)
    requires
        seq_compare(a, b) <= 0,
        seq_compare(b, c) <= 0,
    ensures
        seq_compare(a, c) <= 0,
        seq_compare(a, b) < 0 || seq_compare(b, c) < 0 ==> seq_compare(a, c) < 0,
    decreases a.len(),
{
    lemma_seq_compare_antisym(a, b);
    lemma_seq_compare_antisym(b, c);
    lemma_seq_compare_antisym(a, c);
    if a.len() > 0 && b.len() > 0 && c.len() > 0 && a[0] == b[0] && b[0] == c[0] {
        lemma_seq_compare_trans(a.drop_first(), b.drop_first(), c.drop_first());
    }
}

proof fn lemma_key_compare_props(a: KeyView, b: KeyView)
    ensures
        key_compare(a, b) == -key_compare(b, a),
        key_compare(a, b) == 0 <==> a == b,
{
    lemma_seq_compare_antisym(a.0, b.0);
    lemma_seq_compare_antisym(a.1, b.1);
}

proof fn lemma_key_compare_trans(a: KeyView, b: KeyView, c: KeyView)
    requires
        key_compare(a, b) <= 0,
        key_compare(b, c) <= 0,
    ensures
        key_compare(a, c) <= 0,
        key_compare(a, b) < 0 || key_compare(b, c) < 0 ==> key_compare(a, c) < 0,
{
    lemma_seq_compare_antisym(a.0, b.0);
    lemma_seq_compare_antisym(b.0, c.0);
    lemma_seq_compare_antisym(a.0, c.0);
    lemma_seq_compare_antisym(a.1, b.1);
    lemma_seq_compare_antisym(b.1, c.1);
    lemma_seq_compare_antisym(a.1, c.1);
    lemma_seq_compare_trans(a.0, b.0, c.0);
    if seq_compare(a.0, b.0) == 0 && seq_compare(b.0, c.0) == 0 {
        lemma_seq_compare_trans(a.1, b.1, c.1);
    }
}

/// Strictly before, then not after, is strictly before.
proof fn lemma_before_trans(a: KeyView, b: KeyView, c: KeyView, descending: bool)
    requires
        goes_before(a, b, descending),
        !goes_before(c, b, descending),
    ensures
        goes_before(a, c, descending),
{
    lemma_key_compare_props(a, b);
    lemma_key_compare_props(b, c);
    lemma_key_compare_props(a, c);
    lemma_key_compare_props(c, b);
    if descending {
        lemma_key_compare_trans(c, b, a);
    } else {
        lemma_key_compare_trans(a, b, c);
    }
}

proof fn lemma_with_key_concat<V>(a: Seq<(V, KeyView)>, b: Seq<(V, KeyView)>, k: KeyView)
    ensures
        with_key(a + b, k) == with_key(a, k) + with_key(b, k),
    decreases b.len(),
{
    if b.len() == 0 {
        assert(a + b =~= a);
        assert(with_key(a, k) + with_key(b, k) =~= with_key(a, k));
    } else {
        assert((a + b).drop_last() =~= a + b.drop_last());
        assert((a + b).last() == b.last());
        lemma_with_key_concat(a, b.drop_last(), k);
        if item_key(b.last()) == k {
            assert(with_key(a, k) + with_key(b.drop_last(), k).push(b.last()) =~= (with_key(a, k)
                + with_key(b.drop_last(), k)).push(b.last()));
        }
    }
}

proof fn lemma_with_key_none<V>(s: Seq<(V, KeyView)>, k: KeyView)
    requires
        forall|i: int| 0 <= i < s.len() ==> item_key(#[trigger] s[i]) != k,
    ensures
        with_key(s, k) == Seq::<(V, KeyView)>::empty(),
    decreases s.len(),
{
    if s.len() > 0 {
        assert(item_key(s[s.len() - 1]) != k);
        lemma_with_key_none(s.drop_last(), k);
    }
}

proof fn lemma_with_key_single<V>(x: (V, KeyView), k: KeyView)
    ensures
        with_key(seq![x], k) == if item_key(x) == k {
            seq![x]
        } else {
            Seq::<(V, KeyView)>::empty()
        },
{
    let e = Seq::<(V, KeyView)>::empty();
    assert(seq![x].drop_last() =~= e);
    assert(seq![x].last() == x);
    assert(with_key(e, k) == e);
    assert(with_key(seq![x], k) == if item_key(x) == k {
        with_key(e, k).push(x)
    } else {
        with_key(e, k)
    });
    if item_key(x) == k {
        assert(Seq::<(V, KeyView)>::empty().push(x) =~= seq![x]);
    }
}

pub(crate) fn seq_compare_exec(a: &Vec<u32>, b: &Vec<u32>) -> (r: i8)
    ensures
        r as int == seq_compare(a@, b@),
{
    let mut i: usize = 0;
    assert(a@.skip(0) =~= a@);
    assert(b@.skip(0) =~= b@);
    while i < a.len() && i < b.len() && a[i] == b[i]
        invariant
            i <= a@.len(),
            i <= b@.len(),
            seq_compare(a@, b@) == seq_compare(a@.skip(i as int), b@.skip(i as int)),
        decreases a@.len() - i,
    {
        assert(a@.skip(i as int).drop_first() =~= a@.skip(i + 1));
        assert(b@.skip(i as int).drop_first() =~= b@.skip(i + 1));
        i = i + 1;
    }
    let ghost sa = a@.skip(i as int);
    let ghost sb = b@.skip(i as int);
    if i == a.len() && i == b.len() {
        0
    } else if i == a.len() {
        -1
    } else if i == b.len() {
        1
    } else if a[i] < b[i] {
        assert(sa[0] == a@[i as int]);
        -1
    } else {
        assert(sa[0] == a@[i as int] && sb[0] == b@[i as int]);
        1
    }
}

fn key_compare_exec(a: &OrderKey, b: &OrderKey) -> (r: i8)
    ensures
        r as int == key_compare(key_view(*a), key_view(*b)),
{
    let c = seq_compare_exec(&a.primary, &b.primary);
    if c != 0 {
        c
    } else {
        seq_compare_exec(&a.secondary, &b.secondary)
    }
}

fn goes_before_exec(a: &OrderKey, b: &OrderKey, descending: bool) -> (r: bool)
    ensures
        r == goes_before(key_view(*a), key_view(*b), descending),
{
    let c = key_compare_exec(a, b);
    if descending {
        c > 0
    } else {
        c < 0
    }
}

proof fn lemma_insert_ordered<V>(
    old_out: Seq<(V, KeyView)>,
    p: int,
    x: (V, KeyView),
    descending: bool,
)
    requires
        0 <= p <= old_out.len(),
        is_ordered(old_out, descending),
        forall|j: int| 0 <= j < p ==> !goes_before(item_key(x), item_key(#[trigger] old_out[j]), descending),
        forall|j: int| p <= j < old_out.len() ==> goes_before(item_key(x), item_key(#[trigger] old_out[j]), descending),
    ensures
        is_ordered(old_out.insert(p, x), descending),
{
    let new_out = old_out.insert(p, x);
    assert forall|i: int, j: int| 0 <= i < j < new_out.len() implies !goes_before(
        item_key(#[trigger] new_out[j]),
        item_key(#[trigger] new_out[i]),
        descending,
    ) by {
        if j < p {
            assert(new_out[i] == old_out[i] && new_out[j] == old_out[j]);
        } else if j == p {
            assert(new_out[i] == old_out[i]);
        } else if i == p {
            assert(new_out[j] == old_out[j - 1]);
            lemma_key_compare_props(item_key(x), item_key(old_out[j - 1]));
        } else if i < p {
            assert(new_out[i] == old_out[i] && new_out[j] == old_out[j - 1]);
        } else {
            assert(new_out[i] == old_out[i - 1] && new_out[j] == old_out[j - 1]);
        }
    }
}

proof fn lemma_insert_keys<V>(
    old_out: Seq<(V, KeyView)>,
    p: int,
    x: (V, KeyView),
    prev_in: Seq<(V, KeyView)>,
)
    requires
        0 <= p <= old_out.len(),
        forall|k: KeyView| #[trigger] with_key(old_out, k) == with_key(prev_in, k),
        forall|j: int| p <= j < old_out.len() ==> item_key(#[trigger] old_out[j]) != item_key(x),
    ensures
        forall|k: KeyView| #[trigger] with_key(old_out.insert(p, x), k) == with_key(prev_in + seq![x], k),
{
    let new_out = old_out.insert(p, x);
    let front = old_out.subrange(0, p);
    let back = old_out.subrange(p, old_out.len() as int);
    assert(new_out =~= front + seq![x] + back);
    assert(old_out =~= front + back);
    assert forall|k: KeyView| #[trigger] with_key(new_out, k) == with_key(prev_in + seq![x], k) by {
        lemma_with_key_concat(front + seq![x], back, k);
        lemma_with_key_concat(front, seq![x], k);
        lemma_with_key_concat(front, back, k);
        lemma_with_key_concat(prev_in, seq![x], k);
        lemma_with_key_single(x, k);
        let e = Seq::<(V, KeyView)>::empty();
        if item_key(x) == k {
            assert forall|j: int| 0 <= j < back.len() implies item_key(#[trigger] back[j]) != k by {
                assert(back[j] == old_out[p + j]);
            }
            lemma_with_key_none(back, k);
            assert(with_key(front, k) + e =~= with_key(front, k));
            assert(with_key(front, k) + seq![x] + e =~= with_key(front, k) + seq![x]);
        } else {
            assert(with_key(front, k) + e =~= with_key(front, k));
            assert(with_key(front, k) + e + with_key(back, k) =~= with_key(front, k) + with_key(back, k));
            assert(with_key(prev_in, k) + e =~= with_key(prev_in, k));
        }
    }
}

/// Orders items by their keys, keeping items with equal keys in the order
/// they came in.
pub fn stable_sort<T: View>(items: Vec<(T, OrderKey)>, descending: bool) -> (r: Vec<(T, OrderKey)>)
    ensures
        is_stable_sort_of(pair_views(r@), pair_views(items@), descending),
        r@.len() == items@.len(),
{
    let ghost input = pair_views(items@);
    let ghost n = items@.len();
    let mut rest = items;
    let mut out: Vec<(T, OrderKey)> = Vec::new();
    let ghost mut taken: int = 0;
    assert(input.skip(0) =~= input);
    assert(pair_views(out@) =~= Seq::<(T::V, KeyView)>::empty());
    assert(input.take(0) =~= Seq::<(T::V, KeyView)>::empty());
    while rest.len() > 0
        invariant
            0 <= taken <= input.len(),
            input.len() == n,
            pair_views(rest@) == input.skip(taken),
            rest@.len() == n - taken,
            out@.len() == taken,
            is_ordered(pair_views(out@), descending),
            forall|k: KeyView| #[trigger] with_key(pair_views(out@), k) == with_key(input.take(taken), k),
        decreases rest@.len(),
    {
        let ghost old_rest = rest@;
        let x = rest.remove(0);
        let ghost xv = (x.0@, key_view(x.1));
        assert(pair_views(old_rest)[0] == xv);
        assert(xv == input[taken]);
        let ghost old_out = pair_views(out@);
        let mut p: usize = 0;
        while p < out.len() && !goes_before_exec(&x.1, &out[p].1, descending)
            invariant
                p <= out@.len(),
                old_out == pair_views(out@),
                xv == (x.0@, key_view(x.1)),
                forall|j: int| 0 <= j < p ==> !goes_before(item_key(xv), item_key(#[trigger] old_out[j]), descending),
            decreases out@.len() - p,
        {
            assert(old_out[p as int] == (out@[p as int].0@, key_view(out@[p as int].1)));
            p = p + 1;
        }
        proof {
            if p < old_out.len() {
                assert(old_out[p as int] == (out@[p as int].0@, key_view(out@[p as int].1)));
            }
            assert forall|j: int| p <= j < old_out.len() implies goes_before(
                item_key(xv),
                item_key(#[trigger] old_out[j]),
                descending,
            ) by {
                if j > p {
                    lemma_before_trans(item_key(xv), item_key(old_out[p as int]), item_key(old_out[j]), descending);
                }
            }
            assert forall|j: int| p <= j < old_out.len() implies item_key(#[trigger] old_out[j]) != item_key(xv) by {
                lemma_key_compare_props(item_key(xv), item_key(old_out[j]));
            }
        }
        let ghost old_exec = out@;
        out.insert(p, x);
        proof {
            assert(pair_views(out@) =~= old_out.insert(p as int, xv));
            lemma_insert_ordered(old_out, p as int, xv, descending);
            lemma_insert_keys(old_out, p as int, xv, input.take(taken));
            assert(input.take(taken + 1) =~= input.take(taken) + seq![xv]);
            assert(rest@ =~= old_rest.skip(1));
            assert(pair_views(rest@) =~= pair_views(old_rest).skip(1));
            assert(input.skip(taken).skip(1) =~= input.skip(taken + 1));
            taken = taken + 1;
        }
    }
    assert(input.take(taken) =~= input);
    out
}

proof fn lemma_with_key_from<V>(s: Seq<(V, KeyView)>, k: KeyView)
    ensures
        forall|j: int| 0 <= j < with_key(s, k).len() ==> exists|i: int| 0 <= i < s.len() && s[i] == #[trigger] with_key(s, k)[j],
    decreases s.len(),
{
    if s.len() > 0 {
        lemma_with_key_from(s.drop_last(), k);
        let w = with_key(s, k);
        let wp = with_key(s.drop_last(), k);
        assert forall|j: int| 0 <= j < w.len() implies exists|i: int| 0 <= i < s.len() && s[i] == #[trigger] w[j] by {
            if j < wp.len() {
                assert(w[j] == wp[j]);
                let i = choose|i: int| 0 <= i < s.drop_last().len() && s.drop_last()[i] == wp[j];
                assert(s[i] == w[j]);
            } else {
                assert(w[j] == s[s.len() - 1]);
            }
        }
    }
}

proof fn lemma_with_key_has<V>(s: Seq<(V, KeyView)>, i: int)
    requires
        0 <= i < s.len(),
    ensures
        exists|j: int| 0 <= j < with_key(s, item_key(s[i])).len() && #[trigger] with_key(s, item_key(s[i]))[j] == s[i],
    decreases s.len(),
{
    let k = item_key(s[i]);
    if i == s.len() - 1 {
        let w = with_key(s, k);
        assert(w[w.len() - 1] == s[i]);
    } else {
        lemma_with_key_has(s.drop_last(), i);
        assert(s.drop_last()[i] == s[i]);
        let wp = with_key(s.drop_last(), k);
        let j = choose|j: int| 0 <= j < wp.len() && #[trigger] wp[j] == s[i];
        assert(with_key(s, k)[j] == wp[j]);
    }
}

/// Two items of one key keep their order among the items of that key.
proof fn lemma_with_key_pair<V>(s: Seq<(V, KeyView)>, k: KeyView, i: int, j: int)
    requires
        0 <= i < j < s.len(),
        item_key(s[i]) == k,
        item_key(s[j]) == k,
    ensures
        exists|p: int, q: int|
            0 <= p < q < with_key(s, k).len() && #[trigger] with_key(s, k)[p] == s[i] && #[trigger] with_key(s, k)[q] == s[j],
    decreases s.len(),
{
    let sp = s.drop_last();
    let wp = with_key(sp, k);
    let w = with_key(s, k);
    if j == s.len() - 1 {
        lemma_with_key_has(sp, i);
        assert(sp[i] == s[i]);
        let p = choose|p: int| 0 <= p < wp.len() && #[trigger] wp[p] == sp[i];
        assert(w == wp.push(s[j]));
        assert(w[p] == s[i]);
        assert(w[wp.len() as int] == s[j]);
    } else {
        lemma_with_key_pair(sp, k, i, j);
        assert(sp[i] == s[i] && sp[j] == s[j]);
        let (p, q) = choose|p: int, q: int|
            0 <= p < q < wp.len() && #[trigger] wp[p] == sp[i] && #[trigger] wp[q] == sp[j];
        assert(w[p] == wp[p] && w[q] == wp[q]);
    }
}

/// Two items of one key come from two items of the list, in that order.
proof fn lemma_with_key_pair_from<V>(s: Seq<(V, KeyView)>, k: KeyView, p: int, q: int)
    requires
        0 <= p < q < with_key(s, k).len(),
    ensures
        exists|a: int, b: int|
            0 <= a < b < s.len() && s[a] == #[trigger] with_key(s, k)[p] && s[b] == #[trigger] with_key(s, k)[q],
    decreases s.len(),
{
    let sp = s.drop_last();
    let wp = with_key(sp, k);
    let w = with_key(s, k);
    if item_key(s.last()) == k && q == w.len() - 1 {
        assert(w[p] == wp[p]);
        lemma_with_key_from(sp, k);
        let a = choose|a: int| 0 <= a < sp.len() && sp[a] == #[trigger] wp[p];
        assert(s[a] == w[p]);
        assert(s[s.len() - 1] == w[q]);
    } else {
        assert(q < wp.len());
        assert(w[p] == wp[p] && w[q] == wp[q]);
        lemma_with_key_pair_from(sp, k, p, q);
        let (a, b) = choose|a: int, b: int|
            0 <= a < b < sp.len() && sp[a] == #[trigger] wp[p] && sp[b] == #[trigger] wp[q];
        assert(s[a] == sp[a] && s[b] == sp[b]);
    }
}

/// Sorting keeps the items distinct by any measure that tells the input's
/// items apart: no two items of the output measure the same.
pub proof fn lemma_sort_keeps_distinct<V, A>(
    out: Seq<(V, KeyView)>,
    input: Seq<(V, KeyView)>,
    f: spec_fn(V) -> A,
    descending: bool,
)
    requires
        is_stable_sort_of(out, input, descending),
        forall|a: int, b: int| 0 <= a < b < input.len() ==> f(#[trigger] input[a].0) != f(#[trigger] input[b].0),
    ensures
        forall|i: int, j: int| 0 <= i < j < out.len() ==> f(#[trigger] out[i].0) != f(#[trigger] out[j].0),
{
    assert forall|i: int, j: int| 0 <= i < j < out.len() implies f(#[trigger] out[i].0) != f(#[trigger] out[j].0) by {
        let ki = item_key(out[i]);
        let kj = item_key(out[j]);
        if ki == kj {
            lemma_with_key_pair(out, ki, i, j);
            let (p, q) = choose|p: int, q: int|
                0 <= p < q < with_key(out, ki).len() && #[trigger] with_key(out, ki)[p] == out[i] && #[trigger] with_key(out, ki)[q] == out[j];
            assert(with_key(out, ki) == with_key(input, ki));
            lemma_with_key_pair_from(input, ki, p, q);
            let (a, b) = choose|a: int, b: int|
                0 <= a < b < input.len() && input[a] == #[trigger] with_key(input, ki)[p] && input[b] == #[trigger] with_key(input, ki)[q];
            assert(f(input[a].0) != f(input[b].0));
        } else {
            lemma_with_key_has(out, i);
            lemma_with_key_has(out, j);
            let p = choose|p: int| 0 <= p < with_key(out, ki).len() && #[trigger] with_key(out, ki)[p] == out[i];
            let q = choose|q: int| 0 <= q < with_key(out, kj).len() && #[trigger] with_key(out, kj)[q] == out[j];
            assert(with_key(out, ki) == with_key(input, ki));
            assert(with_key(out, kj) == with_key(input, kj));
            lemma_with_key_from(input, ki);
            lemma_with_key_from(input, kj);
            let a = choose|a: int| 0 <= a < input.len() && input[a] == #[trigger] with_key(input, ki)[p];
            let b = choose|b: int| 0 <= b < input.len() && input[b] == #[trigger] with_key(input, kj)[q];
            assert(a != b);
            if a < b {
                assert(f(input[a].0) != f(input[b].0));
            } else {
                assert(f(input[b].0) != f(input[a].0));
            }
        }
    }
}

/// Sorting adds no item: what holds of every input item holds of every
/// output item.
pub proof fn lemma_sort_keeps_all<V>(
    out: Seq<(V, KeyView)>,
    input: Seq<(V, KeyView)>,
    p: spec_fn(V) -> bool,
    descending: bool,
)
    requires
        is_stable_sort_of(out, input, descending),
        forall|j: int| 0 <= j < input.len() ==> p(#[trigger] input[j].0),
    ensures
        forall|i: int| 0 <= i < out.len() ==> p(#[trigger] out[i].0),
{
    assert forall|i: int| 0 <= i < out.len() implies p(#[trigger] out[i].0) by {
        let k = item_key(out[i]);
        lemma_with_key_has(out, i);
        let j = choose|j: int| 0 <= j < with_key(out, k).len() && #[trigger] with_key(out, k)[j] == out[i];
        assert(with_key(out, k) == with_key(input, k));
        lemma_with_key_from(input, k);
        let m = choose|m: int| 0 <= m < input.len() && input[m] == #[trigger] with_key(input, k)[j];
        assert(input[m] == out[i]);
    }
}

/// When every input key is computed from its item, so is every output key.
pub proof fn lemma_sort_keeps_keys<V>(out: Seq<(V, KeyView)>, input: Seq<(V, KeyView)>, f: spec_fn(V) -> KeyView, descending: bool)
    requires
        is_stable_sort_of(out, input, descending),
        forall|j: int| 0 <= j < input.len() ==> (#[trigger] input[j]).1 == f(input[j].0),
    ensures
        forall|i: int| 0 <= i < out.len() ==> (#[trigger] out[i]).1 == f(out[i].0),
{
    assert forall|i: int| 0 <= i < out.len() implies (#[trigger] out[i]).1 == f(out[i].0) by {
        let k = item_key(out[i]);
        lemma_with_key_has(out, i);
        let j = choose|j: int| 0 <= j < with_key(out, k).len() && #[trigger] with_key(out, k)[j] == out[i];
        assert(with_key(out, k) == with_key(input, k));
        lemma_with_key_from(input, k);
        let m = choose|m: int| 0 <= m < input.len() && input[m] == #[trigger] with_key(input, k)[j];
        assert(input[m] == out[i]);
    }
}

} // verus!
