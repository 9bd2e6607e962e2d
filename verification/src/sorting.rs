//! Ordering of text keys (by code point, which is also the byte order
//! of their UTF-8 encodings, so it is `String`'s `Ord`) and a merge sort
//! of positions by such keys.
use vstd::prelude::*;
use crate::text::vec_eq;
use vstd::seq_lib::*;

verus! {

broadcast use group_to_multiset_ensures;

/// `a` sorts before `b`: lexicographic by code point, a proper prefix
/// first.
pub open spec fn text_lt(a: Seq<char>, b: Seq<char>) -> bool
    decreases a.len(),
{
    if a.len() == 0 {
        b.len() > 0
    } else if b.len() == 0 {
        false
    } else if a[0] != b[0] {
        (a[0] as u32) < (b[0] as u32)
    } else {
        text_lt(a.drop_first(), b.drop_first())
    }
}

pub proof fn lemma_text_lt_irreflexive(a: Seq<char>)
    ensures
        !text_lt(a, a),
    decreases a.len(),
{
    if a.len() > 0 {
        lemma_text_lt_irreflexive(a.drop_first());
    }
}

pub proof fn lemma_text_lt_trans(a: Seq<char>, b: Seq<char>, c: Seq<char>)
    requires
        text_lt(a, b),
        text_lt(b, c),
    ensures
        text_lt(a, c),
    decreases a.len(),
{
    if a.len() > 0 && b.len() > 0 && c.len() > 0 {
        if a[0] == b[0] && b[0] == c[0] {
            lemma_text_lt_trans(a.drop_first(), b.drop_first(), c.drop_first());
        }
    }
}

pub proof fn lemma_text_lt_total(a: Seq<char>, b: Seq<char>)
    ensures
        text_lt(a, b) || a == b || text_lt(b, a),
    decreases a.len(),
{
    if a.len() > 0 && b.len() > 0 {
        if a[0] == b[0] {
            lemma_text_lt_total(a.drop_first(), b.drop_first());
            if a.drop_first() == b.drop_first() {
                assert(a =~= seq![a[0]] + a.drop_first());
                assert(b =~= seq![b[0]] + b.drop_first());
            }
        } else {
            vstd::utf8::char_u32_cast(a[0], a[0] as u32);
            vstd::utf8::char_u32_cast(b[0], b[0] as u32);
        }
    } else if a.len() == 0 && b.len() == 0 {
        assert(a =~= b);
    }
}

pub proof fn lemma_text_lt_asym(a: Seq<char>, b: Seq<char>)
    requires
        text_lt(a, b),
    ensures
        !text_lt(b, a),
        a != b,
{
    if text_lt(b, a) {
        lemma_text_lt_trans(a, b, a);
        lemma_text_lt_irreflexive(a);
    }
    lemma_text_lt_irreflexive(a);
}

pub fn text_less(a: &Vec<char>, b: &Vec<char>) -> (r: bool)
    ensures
        r == text_lt(a@, b@),
{
    let mut i: usize = 0;
    proof {
        assert(a@.skip(0) =~= a@);
        assert(b@.skip(0) =~= b@);
    }
    while i < a.len() && i < b.len() && a[i] == b[i]
        invariant
            0 <= i <= a.len(),
            i <= b.len(),
            text_lt(a@, b@) == text_lt(a@.skip(i as int), b@.skip(i as int)),
        decreases a.len() - i,
    {
        assert(a@.skip(i as int).drop_first() =~= a@.skip(i + 1));
        assert(b@.skip(i as int).drop_first() =~= b@.skip(i + 1));
        i = i + 1;
    }
    if i == a.len() {
        i < b.len()
    } else if i == b.len() {
        false
    } else {
        (a[i] as u32) < (b[i] as u32)
    }
}

/// A sort key: text first, then a number, then a position that makes
/// keys distinct.
pub struct SortKey {
    pub text: Vec<char>,
    pub num: u64,
    pub idx: usize,
}

pub open spec fn key_lt(a: SortKey, b: SortKey) -> bool {
    ||| text_lt(a.text@, b.text@)
    ||| a.text@ == b.text@ && a.num < b.num
    ||| a.text@ == b.text@ && a.num == b.num && a.idx < b.idx
}

pub open spec fn key_eq(a: SortKey, b: SortKey) -> bool {
    a.text@ == b.text@ && a.num == b.num && a.idx == b.idx
}

pub proof fn lemma_key_total(a: SortKey, b: SortKey)
    ensures
        key_lt(a, b) || key_eq(a, b) || key_lt(b, a),
        !(key_lt(a, b) && key_lt(b, a)),
        key_lt(a, b) ==> !key_eq(a, b),
{
    lemma_text_lt_total(a.text@, b.text@);
    if text_lt(a.text@, b.text@) {
        lemma_text_lt_asym(a.text@, b.text@);
    }
    if text_lt(b.text@, a.text@) {
        lemma_text_lt_asym(b.text@, a.text@);
    }
}

pub proof fn lemma_key_trans(a: SortKey, b: SortKey, c: SortKey)
    requires
        key_lt(a, b),
        key_lt(b, c),
    ensures
        key_lt(a, c),
{
    if text_lt(a.text@, b.text@) && text_lt(b.text@, c.text@) {
        lemma_text_lt_trans(a.text@, b.text@, c.text@);
    }
}

pub fn key_less(a: &SortKey, b: &SortKey) -> (r: bool)
    ensures
        r == key_lt(*a, *b),
{
    if text_less(&a.text, &b.text) {
        return true;
    }
    if text_less(&b.text, &a.text) {
        proof {
            lemma_text_lt_asym(b.text@, a.text@);
        }
        return false;
    }
    proof {
        lemma_text_lt_total(a.text@, b.text@);
    }
    a.num < b.num || (a.num == b.num && a.idx < b.idx)
}

/// Positions `p` sorted by their keys, ascending.
pub open spec fn sorted_by_keys(keys: Seq<SortKey>, p: Seq<usize>) -> bool {
    &&& forall|i: int| 0 <= i < p.len() ==> #[trigger] p[i] < keys.len()
    &&& forall|i: int, j: int|
        0 <= i < j < p.len() ==> !key_lt(keys[p[j] as int], keys[p[i] as int])
}

fn merge(keys: &Vec<SortKey>, a: Vec<usize>, b: Vec<usize>) -> (r: Vec<usize>)
    requires
        sorted_by_keys(keys@, a@),
        sorted_by_keys(keys@, b@),
    ensures
        sorted_by_keys(keys@, r@),
        r@.to_multiset() == a@.to_multiset().add(b@.to_multiset()),
{
    let mut r: Vec<usize> = Vec::new();
    let mut i: usize = 0;
    let mut j: usize = 0;
    while i < a.len() || j < b.len()
        invariant
            sorted_by_keys(keys@, a@),
            sorted_by_keys(keys@, b@),
            0 <= i <= a.len(),
            0 <= j <= b.len(),
            sorted_by_keys(keys@, r@),
            r@.to_multiset() == a@.take(i as int).to_multiset().add(b@.take(j as int).to_multiset()),
            r@.len() > 0 && i < a.len() ==> !key_lt(keys@[a@[i as int] as int], keys@[r@.last() as int]),
            r@.len() > 0 && j < b.len() ==> !key_lt(keys@[b@[j as int] as int], keys@[r@.last() as int]),
        decreases a.len() + b.len() - i - j,
    {
        let take_a = if i < a.len() && j < b.len() {
            !key_less(&keys[b[j]], &keys[a[i]])
        } else {
            i < a.len()
        };
        let ghost old_r = r@;
        if take_a {
            let x = a[i];
            r.push(x);
            proof {
                assert(a@.take(i + 1) =~= a@.take(i as int).push(x));
                lemma_sorted_push(keys@, old_r, x);
                if i + 1 < a.len() {
                    assert(!key_lt(keys@[a@[i + 1] as int], keys@[a@[i as int] as int]));
                }
                if j < b.len() {
                    if i < a.len() && j < b.len() {
                        // b[j] is not below a[i]
                    }
                }
            }
            i = i + 1;
        } else {
            let x = b[j];
            r.push(x);
            proof {
                assert(b@.take(j + 1) =~= b@.take(j as int).push(x));
                lemma_sorted_push(keys@, old_r, x);
                if j + 1 < b.len() {
                    assert(!key_lt(keys@[b@[j + 1] as int], keys@[b@[j as int] as int]));
                }
                if i < a.len() {
                    lemma_key_total(keys@[a@[i as int] as int], keys@[x as int]);
                }
            }
            j = j + 1;
        }
    }
    proof {
        assert(a@.take(a.len() as int) =~= a@);
        assert(b@.take(b.len() as int) =~= b@);
    }
    r
}

proof fn lemma_sorted_push(keys: Seq<SortKey>, r: Seq<usize>, x: usize)
    requires
        sorted_by_keys(keys, r),
        x < keys.len(),
        r.len() > 0 ==> !key_lt(keys[x as int], keys[r.last() as int]),
    ensures
        sorted_by_keys(keys, r.push(x)),
{
    let s = r.push(x);
    assert forall|i: int, j: int| 0 <= i < j < s.len() implies !key_lt(
        keys[s[j] as int],
        keys[s[i] as int],
    ) by {
        if j == s.len() - 1 {
            if i < r.len() - 1 {
                let last = r.last();
                assert(!key_lt(keys[last as int], keys[r[i] as int]));
                lemma_key_total(keys[x as int], keys[r[i] as int]);
                lemma_key_total(keys[last as int], keys[r[i] as int]);
                lemma_key_total(keys[x as int], keys[last as int]);
                if key_lt(keys[x as int], keys[r[i] as int]) {
                    if key_lt(keys[r[i] as int], keys[last as int]) {
                        lemma_key_trans(keys[x as int], keys[r[i] as int], keys[last as int]);
                    }
                }
            }
        } else {
            assert(s[i] == r[i] && s[j] == r[j]);
        }
    }
}

/// Positions `p` reordered so their keys ascend.
pub fn sort_positions(keys: &Vec<SortKey>, p: Vec<usize>) -> (r: Vec<usize>)
    requires
        forall|i: int| 0 <= i < p@.len() ==> #[trigger] p@[i] < keys@.len(),
    ensures
        sorted_by_keys(keys@, r@),
        r@.to_multiset() == p@.to_multiset(),
    decreases p@.len(),
{
    if p.len() <= 1 {
        return p;
    }
    let mid = p.len() / 2;
    let mut left: Vec<usize> = Vec::new();
    let mut right: Vec<usize> = Vec::new();
    let mut k: usize = 0;
    while k < p.len()
        invariant
            0 <= k <= p.len(),
            mid < p.len(),
            k <= mid ==> left@ == p@.take(k as int) && right@.len() == 0,
            k > mid ==> left@ == p@.take(mid as int) && right@ == p@.subrange(mid as int, k as int),
        decreases p.len() - k,
    {
        if k < mid {
            left.push(p[k]);
            assert(left@ =~= p@.take(k + 1));
        } else {
            right.push(p[k]);
            assert(right@ =~= p@.subrange(mid as int, k + 1));
        }
        k = k + 1;
    }
    proof {
        assert(p@ =~= left@ + right@);
        lemma_multiset_commutative(left@, right@);
    }
    let ls = sort_positions(keys, left);
    let rs = sort_positions(keys, right);
    merge(keys, ls, rs)
}

/// Same text and number: the keys fall in one group.
pub open spec fn same_group(a: SortKey, b: SortKey) -> bool {
    a.text@ == b.text@ && a.num == b.num
}

/// The group of `a` sorts before the group of `b`.
pub open spec fn group_lt(a: SortKey, b: SortKey) -> bool {
    ||| text_lt(a.text@, b.text@)
    ||| a.text@ == b.text@ && a.num < b.num
}

pub proof fn lemma_group_order(a: SortKey, b: SortKey, c: SortKey)
    ensures
        !key_lt(b, a) ==> group_lt(a, b) || same_group(a, b),
        group_lt(a, b) ==> !same_group(a, b) && !group_lt(b, a) && key_lt(a, b),
        group_lt(a, b) && group_lt(b, c) ==> group_lt(a, c),
        group_lt(a, b) && same_group(b, c) ==> group_lt(a, c),
        same_group(a, b) && group_lt(b, c) ==> group_lt(a, c),
{
    lemma_key_total(a, b);
    if text_lt(a.text@, b.text@) {
        lemma_text_lt_asym(a.text@, b.text@);
    }
    if text_lt(b.text@, a.text@) {
        lemma_text_lt_asym(b.text@, a.text@);
    }
    if text_lt(a.text@, b.text@) && text_lt(b.text@, c.text@) {
        lemma_text_lt_trans(a.text@, b.text@, c.text@);
    }
}

/// Position `k` of `p` opens a group: it is the first, or its key's
/// group differs from its predecessor's.
pub open spec fn starts_group(keys: Seq<SortKey>, p: Seq<usize>, k: int) -> bool {
    k == 0 || !same_group(keys[p[k - 1] as int], keys[p[k] as int])
}

proof fn lemma_sorted_pair(keys: Seq<SortKey>, p: Seq<usize>, i: int, j: int)
    requires
        sorted_by_keys(keys, p),
        0 <= i <= j < p.len(),
    ensures
        group_lt(keys[p[i] as int], keys[p[j] as int]) || same_group(
            keys[p[i] as int],
            keys[p[j] as int],
        ),
        !key_lt(keys[p[j] as int], keys[p[i] as int]),
{
    if i < j {
        lemma_group_order(keys[p[i] as int], keys[p[j] as int], keys[p[j] as int]);
    } else {
        lemma_key_total(keys[p[i] as int], keys[p[i] as int]);
    }
}

/// The key that opens a group is the least of all keys of its group in
/// `p`.
pub proof fn lemma_group_start_least(keys: Seq<SortKey>, p: Seq<usize>, k: int, m: int)
    requires
        sorted_by_keys(keys, p),
        0 <= k < p.len(),
        0 <= m < p.len(),
        starts_group(keys, p, k),
        same_group(keys[p[m] as int], keys[p[k] as int]),
    ensures
        !key_lt(keys[p[m] as int], keys[p[k] as int]),
{
    if m < k {
        lemma_sorted_pair(keys, p, m, k - 1);
        lemma_sorted_pair(keys, p, k - 1, k);
        let a = keys[p[m] as int];
        let b = keys[p[k - 1] as int];
        let c = keys[p[k] as int];
        lemma_group_order(a, b, c);
        lemma_group_order(b, c, a);
        lemma_group_order(c, a, b);
        assert(false);
    } else {
        lemma_sorted_pair(keys, p, k, m);
    }
}

/// Every position belongs to a group opened at or before it.
pub proof fn lemma_group_has_start(keys: Seq<SortKey>, p: Seq<usize>, m: int) -> (k: int)
    requires
        0 <= m < p.len(),
    ensures
        0 <= k <= m,
        starts_group(keys, p, k),
        same_group(keys[p[k] as int], keys[p[m] as int]),
    decreases m,
{
    if starts_group(keys, p, m) {
        m
    } else {
        lemma_group_has_start(keys, p, m - 1)
    }
}

/// With each key's `idx` its own position in `keys`, the member of a
/// group in `p` that opens the group has the smallest position.
pub proof fn lemma_start_is_first(keys: Seq<SortKey>, p: Seq<usize>, k: int, m: int)
    requires
        sorted_by_keys(keys, p),
        forall|i: int| 0 <= i < keys.len() ==> (#[trigger] keys[i]).idx == i,
        0 <= k < p.len(),
        0 <= m < p.len(),
        starts_group(keys, p, k),
        same_group(keys[p[m] as int], keys[p[k] as int]),
    ensures
        p[k] <= p[m],
{
    lemma_group_start_least(keys, p, k, m);
    assert(keys[p[k] as int].idx == p[k]);
    assert(keys[p[m] as int].idx == p[m]);
}

/// The positions in `p` (sorted by `keys`) that open a group, ascending.
pub fn group_starts(keys: &Vec<SortKey>, p: &Vec<usize>) -> (r: Vec<usize>)
    requires
        sorted_by_keys(keys@, p@),
    ensures
        forall|t: int|
            0 <= t < r@.len() ==> #[trigger] r@[t] < p@.len() && starts_group(keys@, p@, r@[t] as int),
        forall|k: int| 0 <= k < p@.len() && starts_group(keys@, p@, k) ==> r@.contains(k as usize),
        forall|t: int, u: int|
            #![trigger r@[t], r@[u]]
            0 <= t < u < r@.len() ==> r@[t] < r@[u] && group_lt(
                keys@[p@[r@[t] as int] as int],
                keys@[p@[r@[u] as int] as int],
            ),
{
    let mut r: Vec<usize> = Vec::new();
    let mut k: usize = 0;
    while k < p.len()
        invariant
            sorted_by_keys(keys@, p@),
            0 <= k <= p.len(),
            forall|t: int|
                0 <= t < r@.len() ==> #[trigger] r@[t] < k && starts_group(keys@, p@, r@[t] as int),
            forall|j: int| 0 <= j < k && starts_group(keys@, p@, j) ==> r@.contains(j as usize),
            forall|t: int, u: int|
                #![trigger r@[t], r@[u]]
                0 <= t < u < r@.len() ==> r@[t] < r@[u] && group_lt(
                    keys@[p@[r@[t] as int] as int],
                    keys@[p@[r@[u] as int] as int],
                ),
        decreases p.len() - k,
    {
        let opens = if k == 0 {
            true
        } else {
            let a = &keys[p[k - 1]];
            let b = &keys[p[k]];
            !(vec_eq(&a.text, &b.text) && a.num == b.num)
        };
        if opens {
            let ghost old_r = r@;
            proof {
                if k > 0 {
                    lemma_sorted_pair(keys@, p@, k - 1, k as int);
                    assert forall|t: int| 0 <= t < old_r.len() implies group_lt(
                        #[trigger] keys@[p@[old_r[t] as int] as int],
                        keys@[p@[k as int] as int],
                    ) by {
                        lemma_sorted_pair(keys@, p@, old_r[t] as int, k - 1);
                        lemma_group_order(
                            keys@[p@[old_r[t] as int] as int],
                            keys@[p@[k - 1] as int],
                            keys@[p@[k as int] as int],
                        );
                    }
                }
            }
            r.push(k);
            proof {
                assert forall|j: int| 0 <= j < k + 1 && starts_group(keys@, p@, j) implies r@.contains(
                    j as usize,
                ) by {
                    if j < k {
                        let t = choose|t: int| 0 <= t < old_r.len() && old_r[t] == j as usize;
                        assert(r@[t] == j as usize);
                    } else {
                        assert(r@[old_r.len() as int] == k);
                    }
                }
                assert forall|t: int, u: int|
                    #![trigger r@[t], r@[u]]
                    0 <= t < u < r@.len() implies r@[t] < r@[u] && group_lt(
                    keys@[p@[r@[t] as int] as int],
                    keys@[p@[r@[u] as int] as int],
                ) by {
                    if u == old_r.len() {
                        assert(r@[t] == old_r[t]);
                        if k == 0 {
                            assert(false);
                        }
                    } else {
                        assert(r@[t] == old_r[t] && r@[u] == old_r[u]);
                    }
                }
            }
        }
        k = k + 1;
    }
    r
}

} // verus!
