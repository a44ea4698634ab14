//! A stable sort by keys made of a rank and a text, and the facts about the
//! order of texts that it rests on.

use vstd::prelude::*;
use crate::text::lex_less;

verus! {

/// A sort key as the contracts see it: a rank, then a text.
pub type KeyView = (int, Seq<char>);

/// `a` sorts strictly before `b`: a lower rank, or the same rank and a text
/// that comes first.
pub open spec fn key_less(a: KeyView, b: KeyView) -> bool {
    a.0 < b.0 || (a.0 == b.0 && lex_less(a.1, b.1))
}

/// Element `i` of `keys` goes before element `j` in a stable sort: its key is
/// smaller, or the keys are equal and it came first.
pub open spec fn goes_before(keys: Seq<KeyView>, i: int, j: int) -> bool {
    key_less(keys[i], keys[j]) || (keys[i] == keys[j] && i < j)
}

/// `order` lists each index below `n` exactly once.
pub open spec fn is_permutation(order: Seq<usize>, n: nat) -> bool {
    &&& order.len() == n
    &&& forall|k: int| 0 <= k < n ==> #[trigger] order[k] < n
    &&& forall|a: int, b: int| 0 <= a < n && 0 <= b < n && a != b ==> order[a] != order[b]
}

/// `order` is the stable sorting order of `keys`: every index once, each
/// before all that follow it.
pub open spec fn is_stable_order(keys: Seq<KeyView>, order: Seq<usize>) -> bool {
    &&& is_permutation(order, keys.len())
    &&& forall|a: int, b: int|
        0 <= a < b < order.len() ==> goes_before(keys, order[a] as int, order[b] as int)
}

/// No text comes before itself.
pub proof fn lemma_lex_irreflexive(a: Seq<char>)
    ensures
        !lex_less(a, a),
    decreases a.len(),
{
    if a.len() > 0 {
        lemma_lex_irreflexive(a.drop_first());
    }
}

/// The order of texts is transitive.
pub proof fn lemma_lex_transitive(a: Seq<char>, b: Seq<char>, c: Seq<char>)
    requires
        lex_less(a, b),
        lex_less(b, c),
    ensures
        lex_less(a, c),
    decreases a.len(),
{
    if a.len() > 0 && b.len() > 0 && c.len() > 0 {
        if a[0] == b[0] && b[0] == c[0] {
            lemma_lex_transitive(a.drop_first(), b.drop_first(), c.drop_first());
        }
    }
}

/// Of two different texts, one comes before the other.
pub proof fn lemma_lex_total(a: Seq<char>, b: Seq<char>)
    ensures
        a == b || lex_less(a, b) || lex_less(b, a),
    decreases a.len(),
{
    if a.len() > 0 && b.len() > 0 {
        if a[0] == b[0] {
            lemma_lex_total(a.drop_first(), b.drop_first());
            if a.drop_first() == b.drop_first() {
                assert(a =~= seq![a[0]] + a.drop_first());
                assert(b =~= seq![b[0]] + b.drop_first());
            }
        } else {
            assert((a[0] as int) != (b[0] as int));
        }
    } else if a.len() == 0 && b.len() == 0 {
        assert(a =~= b);
    }
}

/// Texts that agree on their first `i` characters compare as what follows.
pub proof fn lemma_lex_skip(a: Seq<char>, b: Seq<char>, i: int)
    requires
        0 <= i <= a.len(),
        i <= b.len(),
        a.subrange(0, i) == b.subrange(0, i),
    ensures
        lex_less(a, b) == lex_less(a.skip(i), b.skip(i)),
    decreases i,
{
    if i > 0 {
        assert(a[0] == a.subrange(0, i)[0]);
        assert(b[0] == b.subrange(0, i)[0]);
        assert(a.drop_first().subrange(0, i - 1) =~= a.subrange(0, i).drop_first());
        assert(b.drop_first().subrange(0, i - 1) =~= b.subrange(0, i).drop_first());
        lemma_lex_skip(a.drop_first(), b.drop_first(), i - 1);
        assert(a.drop_first().skip(i - 1) =~= a.skip(i));
        assert(b.drop_first().skip(i - 1) =~= b.skip(i));
    } else {
        assert(a.skip(0) =~= a);
        assert(b.skip(0) =~= b);
    }
}

/// Key order: irreflexive, transitive and total on distinct keys.
pub proof fn lemma_key_order(a: KeyView, b: KeyView, c: KeyView)
    ensures
        !key_less(a, a),
        key_less(a, b) && key_less(b, c) ==> key_less(a, c),
        a == b || key_less(a, b) || key_less(b, a),
        key_less(a, b) ==> !key_less(b, a),
{
    lemma_lex_irreflexive(a.1);
    lemma_lex_total(a.1, b.1);
    if key_less(a, b) && key_less(b, c) && a.0 == b.0 && b.0 == c.0 {
        lemma_lex_transitive(a.1, b.1, c.1);
    }
    if key_less(a, b) && key_less(b, a) && a.0 == b.0 {
        lemma_lex_transitive(a.1, b.1, a.1);
    }
}

/// How two texts compare.
#[derive(Clone, Copy, Debug, PartialEq, Eq, Structural)]
pub enum Precedence {
    Before,
    Same,
    After,
}

/// Compares two texts character by character, by code point.
pub fn compare_texts(a: &Vec<char>, b: &Vec<char>) -> (r: Precedence)
    ensures
        r == Precedence::Before <==> lex_less(a@, b@),
        r == Precedence::Same <==> a@ == b@,
        r == Precedence::After <==> lex_less(b@, a@),
{
    proof {
        lemma_lex_total(a@, b@);
        lemma_lex_irreflexive(a@);
        if lex_less(a@, b@) && lex_less(b@, a@) {
            lemma_lex_transitive(a@, b@, a@);
        }
    }
    let mut i: usize = 0;
    while i < a.len() && i < b.len()
        invariant
            i <= a@.len(),
            i <= b@.len(),
            a@.subrange(0, i as int) == b@.subrange(0, i as int),
        decreases a@.len() - i,
    {
        if a[i] != b[i] {
            proof {
                lemma_lex_skip(a@, b@, i as int);
                lemma_lex_skip(b@, a@, i as int);
            }
            if a[i] < b[i] {
                return Precedence::Before;
            } else {
                return Precedence::After;
            }
        }
        assert(a@.subrange(0, i + 1) =~= a@.subrange(0, i as int).push(a@[i as int]));
        assert(b@.subrange(0, i + 1) =~= b@.subrange(0, i as int).push(b@[i as int]));
        i = i + 1;
    }
    proof {
        lemma_lex_skip(a@, b@, i as int);
        lemma_lex_skip(b@, a@, i as int);
    }
    if a.len() == b.len() {
        assert(a@ =~= a@.subrange(0, i as int));
        assert(b@ =~= b@.subrange(0, i as int));
        Precedence::Same
    } else if a.len() < b.len() {
        Precedence::Before
    } else {
        Precedence::After
    }
}

/// A sort key: a rank, then a text.
pub struct SortKey {
    pub rank: u8,
    pub text: Vec<char>,
}

impl View for SortKey {
    type V = KeyView;

    open spec fn view(&self) -> KeyView {
        (self.rank as int, self.text@)
    }
}

/// The keys as the contracts see them.
pub open spec fn key_views(keys: Seq<SortKey>) -> Seq<KeyView> {
    keys.map_values(|k: SortKey| k@)
}

/// Compares two keys: rank first, then text.
pub fn compare_keys(a: &SortKey, b: &SortKey) -> (r: Precedence)
    ensures
        r == Precedence::Before <==> key_less(a@, b@),
        r == Precedence::Same <==> a@ == b@,
        r == Precedence::After <==> key_less(b@, a@),
{
    if a.rank < b.rank {
        Precedence::Before
    } else if a.rank > b.rank {
        Precedence::After
    } else {
        compare_texts(&a.text, &b.text)
    }
}

/// The position in `order` before which the key at `i` goes: after every
/// key that is not greater, before the first that is.
fn insertion_point(keys: &Vec<SortKey>, order: &Vec<usize>, i: usize) -> (p: usize)
    requires
        i < keys@.len(),
        forall|k: int| 0 <= k < order@.len() ==> #[trigger] order@[k] < keys@.len(),
    ensures
        p <= order@.len(),
        forall|q: int|
            0 <= q < p ==> !key_less(keys@[i as int]@, #[trigger] keys@[order@[q] as int]@),
        p < order@.len() ==> key_less(keys@[i as int]@, keys@[order@[p as int] as int]@),
{
    let mut p: usize = 0;
    while p < order.len()
        invariant
            i < keys@.len(),
            forall|k: int| 0 <= k < order@.len() ==> #[trigger] order@[k] < keys@.len(),
            p <= order@.len(),
            forall|q: int|
                0 <= q < p ==> !key_less(keys@[i as int]@, #[trigger] keys@[order@[q] as int]@),
        decreases order@.len() - p,
    {
        let j = order[p];
        if compare_keys(&keys[i], &keys[j]) == Precedence::Before {
            return p;
        }
        p = p + 1;
    }
    p
}

/// The order in which a stable sort by `keys` lists their indices.
pub fn stable_order(keys: &Vec<SortKey>) -> (order: Vec<usize>)
    ensures
        is_stable_order(key_views(keys@), order@),
{
    let ghost kv = key_views(keys@);
    let n = keys.len();
    let mut order: Vec<usize> = Vec::new();
    let mut i: usize = 0;
    while i < n
        invariant
            n == keys@.len(),
            kv == key_views(keys@),
            i <= n,
            order@.len() == i,
            forall|k: int| 0 <= k < i ==> #[trigger] order@[k] < i,
            forall|a: int, b: int| 0 <= a < i && 0 <= b < i && a != b ==> order@[a] != order@[b],
            forall|a: int, b: int|
                0 <= a < b < i ==> goes_before(kv, order@[a] as int, order@[b] as int),
        decreases n - i,
    {
        let p = insertion_point(keys, &order, i);
        let ghost old_order = order@;
        order.insert(p, i);
        proof {
            let ki = kv[i as int];
            assert(ki == keys@[i as int]@);
            assert forall|q: int| 0 <= q < old_order.len() implies #[trigger] kv[old_order[q] as int]
                == keys@[old_order[q] as int]@ by {}
            // Keys before the insertion point are not greater than the new key.
            assert forall|q: int| 0 <= q < p implies goes_before(kv, old_order[q] as int, i as int) by {
                lemma_key_order(ki, kv[old_order[q] as int], ki);
                assert(!key_less(ki, kv[old_order[q] as int]));
            }
            // Keys from the insertion point on are greater than the new key.
            assert forall|q: int| p <= q < old_order.len() implies key_less(ki, #[trigger] kv[old_order[q] as int]) by {
                let kp = kv[old_order[p as int] as int];
                let kq = kv[old_order[q] as int];
                assert(key_less(ki, kp));
                if q > p {
                    assert(goes_before(kv, old_order[p as int] as int, old_order[q] as int));
                    lemma_key_order(ki, kp, kq);
                }
            }
            assert forall|k: int| 0 <= k < i + 1 implies #[trigger] order@[k] < i + 1 by {
                if k < p {
                    assert(order@[k] == old_order[k]);
                } else if k > p {
                    assert(order@[k] == old_order[k - 1]);
                }
            }
            assert forall|a: int, b: int| 0 <= a < i + 1 && 0 <= b < i + 1 && a != b implies order@[a]
                != order@[b] by {
                if a != p && b != p {
                    let oa = if a < p { a } else { a - 1 };
                    let ob = if b < p { b } else { b - 1 };
                    assert(order@[a] == old_order[oa]);
                    assert(order@[b] == old_order[ob]);
                } else if a == p {
                    let ob = if b < p { b } else { b - 1 };
                    assert(order@[b] == old_order[ob]);
                } else {
                    let oa = if a < p { a } else { a - 1 };
                    assert(order@[a] == old_order[oa]);
                }
            }
            assert forall|a: int, b: int| 0 <= a < b < i + 1 implies goes_before(
                kv,
                order@[a] as int,
                order@[b] as int,
            ) by {
                if b < p {
                    assert(order@[a] == old_order[a]);
                    assert(order@[b] == old_order[b]);
                } else if a > p {
                    assert(order@[a] == old_order[a - 1]);
                    assert(order@[b] == old_order[b - 1]);
                } else if a < p && b > p {
                    assert(order@[a] == old_order[a]);
                    assert(order@[b] == old_order[b - 1]);
                } else if a == p {
                    assert(order@[b] == old_order[b - 1]);
                    assert(key_less(ki, kv[old_order[b - 1] as int]));
                } else {
                    assert(order@[a] == old_order[a]);
                    assert(goes_before(kv, old_order[a] as int, i as int));
                }
            }
        }
        i = i + 1;
    }
    order
}

/// Every index below `n` appears in a permutation of them.
pub proof fn lemma_permutation_covers(order: Seq<usize>, n: nat, x: int)
    requires
        is_permutation(order, n),
        0 <= x < n,
    ensures
        exists|k: int| 0 <= k < n && order[k] == x,
{
    broadcast use vstd::seq_lib::seq_to_set_is_finite;

    let s = order.map_values(|v: usize| v as int);
    assert(s.no_duplicates()) by {
        assert forall|i: int, j: int| 0 <= i < s.len() && 0 <= j < s.len() && i != j implies s[i]
            != s[j] by {
            assert(order[i] != order[j]);
        }
    }
    s.unique_seq_to_set();
    vstd::set_lib::lemma_int_range(0, n as int);
    let range = vstd::set_lib::set_int_range(0, n as int);
    assert(s.to_set().subset_of(range)) by {
        assert forall|v: int| s.to_set().contains(v) implies range.contains(v) by {
            let k = choose|k: int| 0 <= k < s.len() && s[k] == v;
            assert(order[k] < n);
        }
    }
    vstd::set_lib::lemma_subset_equality(s.to_set(), range);
    assert(range.contains(x));
    assert(s.to_set().contains(x));
    let k = choose|k: int| 0 <= k < s.len() && s[k] == x;
    assert(order[k] == x);
}

/// No index goes before another that goes before it.
pub proof fn lemma_goes_before_asymmetric(keys: Seq<KeyView>, a: int, b: int)
    ensures
        !(goes_before(keys, a, b) && goes_before(keys, b, a)),
{
    lemma_key_order(keys[a], keys[b], keys[a]);
}

/// Two stable orders of the same keys agree on their first `k` places.
proof fn lemma_stable_orders_agree(keys: Seq<KeyView>, o1: Seq<usize>, o2: Seq<usize>, k: int)
    requires
        is_stable_order(keys, o1),
        is_stable_order(keys, o2),
        0 <= k <= keys.len(),
    ensures
        forall|j: int| 0 <= j < k ==> o1[j] == o2[j],
    decreases k,
{
    if k > 0 {
        lemma_stable_orders_agree(keys, o1, o2, k - 1);
        let n = keys.len();
        let i = k - 1;
        let a = o1[i];
        let b = o2[i];
        if a != b {
            lemma_permutation_covers(o1, n, b as int);
            lemma_permutation_covers(o2, n, a as int);
            let jb = choose|j: int| 0 <= j < n && o1[j] == b as int;
            let ja = choose|j: int| 0 <= j < n && o2[j] == a as int;
            if jb < i {
                assert(o2[jb] == o1[jb]);
                assert(false);
            }
            if ja < i {
                assert(o1[ja] == o2[ja]);
                assert(false);
            }
            assert(goes_before(keys, a as int, b as int));
            assert(goes_before(keys, b as int, a as int));
            lemma_goes_before_asymmetric(keys, a as int, b as int);
        }
    }
}

/// The stable order of a sequence of keys is unique.
pub proof fn lemma_stable_order_unique(keys: Seq<KeyView>, o1: Seq<usize>, o2: Seq<usize>)
    requires
        is_stable_order(keys, o1),
        is_stable_order(keys, o2),
    ensures
        o1 == o2,
{
    lemma_stable_orders_agree(keys, o1, o2, keys.len() as int);
    assert(o1 =~= o2);
}

} // verus!
