//! Sorting by keys that are sequences of numbers, compared lexicographically.

use vstd::multiset::*;
use vstd::prelude::*;
use vstd::seq_lib::*;

verus! {

/// Lexicographic order: the first difference decides, and a proper prefix comes first.
pub open spec fn lex_le(a: Seq<u32>, b: Seq<u32>) -> bool
    decreases a.len(),
{
    if a.len() == 0 {
        true
    } else if b.len() == 0 {
        false
    } else if a[0] != b[0] {
        a[0] < b[0]
    } else {
        lex_le(a.drop_first(), b.drop_first())
    }
}

/// Of two keys at least one comes before the other or is equal to it.
pub proof fn lemma_lex_total(a: Seq<u32>, b: Seq<u32>)
    ensures
        lex_le(a, b) || lex_le(b, a),
    decreases a.len(),
{
    if a.len() > 0 && b.len() > 0 {
        lemma_lex_total(a.drop_first(), b.drop_first());
    }
}

/// The order of keys is transitive.
pub proof fn lemma_lex_transitive(a: Seq<u32>, b: Seq<u32>, c: Seq<u32>)
    requires
        lex_le(a, b),
        lex_le(b, c),
    ensures
        lex_le(a, c),
    decreases a.len(),
{
    if a.len() > 0 && b.len() > 0 && c.len() > 0 && a[0] == b[0] && b[0] == c[0] {
        lemma_lex_transitive(a.drop_first(), b.drop_first(), c.drop_first());
    }
}

/// Two keys that come before one another are equal.
pub proof fn lemma_lex_antisymmetric(a: Seq<u32>, b: Seq<u32>)
    requires
        lex_le(a, b),
        lex_le(b, a),
    ensures
        a == b,
    decreases a.len(),
{
    if a.len() > 0 && b.len() > 0 {
        lemma_lex_antisymmetric(a.drop_first(), b.drop_first());
        assert(a =~= seq![a[0]] + a.drop_first());
        assert(b =~= seq![b[0]] + b.drop_first());
    } else {
        assert(a =~= b);
    }
}

fn lex_le_of(a: &Vec<u32>, b: &Vec<u32>) -> (r: bool)
    ensures
        r == lex_le(a@, b@),
{
    let mut i: usize = 0;
    assert(a@.skip(0) =~= a@ && b@.skip(0) =~= b@);
    while i < a.len() && i < b.len()
        invariant
            i <= a.len(),
            i <= b.len(),
            lex_le(a@, b@) == lex_le(a@.skip(i as int), b@.skip(i as int)),
        decreases a.len() - i,
    {
        if a[i] != b[i] {
            return a[i] < b[i];
        }
        assert(a@.skip(i as int).drop_first() =~= a@.skip(i + 1));
        assert(b@.skip(i as int).drop_first() =~= b@.skip(i + 1));
        i = i + 1;
    }
    i == a.len()
}

/// The keys behind a vector of vectors.
pub open spec fn keys_of(keys: Seq<Vec<u32>>) -> Seq<Seq<u32>> {
    keys.map_values(|k: Vec<u32>| k@)
}

/// The positions `p` lead through the keys in ascending order.
pub open spec fn ascending(keys: Seq<Seq<u32>>, p: Seq<usize>) -> bool {
    forall|i: int, j: int|
        #![trigger p[i], p[j]]
        0 <= i < j < p.len() ==> lex_le(keys[p[i] as int], keys[p[j] as int])
}

/// Every position from 0 up to `n` occurs in `p` exactly once.
pub open spec fn permutes(p: Seq<usize>, n: nat) -> bool {
    &&& p.len() == n
    &&& p.no_duplicates()
    &&& forall|i: int| 0 <= i < p.len() ==> #[trigger] p[i] < n
}

spec fn in_range(p: Seq<usize>, n: nat) -> bool {
    forall|i: int| 0 <= i < p.len() ==> #[trigger] p[i] < n
}

fn merge(keys: &Vec<Vec<u32>>, a: &Vec<usize>, b: &Vec<usize>) -> (r: Vec<usize>)
    requires
        in_range(a@, keys@.len()),
        in_range(b@, keys@.len()),
        ascending(keys_of(keys@), a@),
        ascending(keys_of(keys@), b@),
    ensures
        in_range(r@, keys@.len()),
        ascending(keys_of(keys@), r@),
        r@.to_multiset() == a@.to_multiset().add(b@.to_multiset()),
{
    broadcast use {group_to_multiset_ensures, group_multiset_axioms};

    let ghost ks = keys_of(keys@);
    let mut r: Vec<usize> = Vec::new();
    let mut i: usize = 0;
    let mut j: usize = 0;
    assert(a@.take(0).to_multiset().add(b@.take(0).to_multiset()) =~= r@.to_multiset()) by {
        assert(a@.take(0) =~= r@ && b@.take(0) =~= r@);
        assert(r@.to_multiset().len() == 0);
    }
    while i < a.len() || j < b.len()
        invariant
            i <= a.len(),
            j <= b.len(),
            ks == keys_of(keys@),
            in_range(a@, keys@.len()),
            in_range(b@, keys@.len()),
            in_range(r@, keys@.len()),
            ascending(ks, a@),
            ascending(ks, b@),
            ascending(ks, r@),
            forall|m: int, n: int|
                #![trigger r@[m], a@[n]]
                0 <= m < r.len() && i <= n < a.len() ==> lex_le(ks[r@[m] as int], ks[a@[n] as int]),
            forall|m: int, n: int|
                #![trigger r@[m], b@[n]]
                0 <= m < r.len() && j <= n < b.len() ==> lex_le(ks[r@[m] as int], ks[b@[n] as int]),
            r@.to_multiset() == a@.take(i as int).to_multiset().add(
                b@.take(j as int).to_multiset(),
            ),
        decreases a.len() - i + b.len() - j,
    {
        let from_a = if i == a.len() {
            false
        } else if j == b.len() {
            true
        } else {
            proof {
                lemma_lex_total(ks[a@[i as int] as int], ks[b@[j as int] as int]);
            }
            lex_le_of(&keys[a[i]], &keys[b[j]])
        };
        let ghost before = r@;
        if from_a {
            let next: usize = a[i];
            proof {
                assert forall|n: int| j <= n < b.len() implies lex_le(
                    ks[next as int],
                    ks[#[trigger] b@[n] as int],
                ) by {
                    if j < n {
                        lemma_lex_transitive(
                            ks[next as int],
                            ks[b@[j as int] as int],
                            ks[b@[n] as int],
                        );
                    }
                }
                assert(a@.take(i + 1) =~= a@.take(i as int).push(next));
            }
            r.push(next);
            i = i + 1;
            proof {
                to_multiset_build(before, next);
                to_multiset_build(a@.take(i - 1), next);
            }
        } else {
            let next: usize = b[j];
            proof {
                assert forall|n: int| i <= n < a.len() implies lex_le(
                    ks[next as int],
                    ks[#[trigger] a@[n] as int],
                ) by {
                    if i < n {
                        lemma_lex_transitive(
                            ks[next as int],
                            ks[a@[i as int] as int],
                            ks[a@[n] as int],
                        );
                    }
                }
                assert(b@.take(j + 1) =~= b@.take(j as int).push(next));
            }
            r.push(next);
            j = j + 1;
            proof {
                to_multiset_build(before, next);
                to_multiset_build(b@.take(j - 1), next);
            }
        }
        assert(r@.to_multiset() =~= a@.take(i as int).to_multiset().add(
            b@.take(j as int).to_multiset(),
        ));
        assert(forall|m: int| 0 <= m < before.len() ==> r@[m] == before[m]);
        assert(in_range(r@, keys@.len()));
    }
    assert(a@.take(i as int) =~= a@ && b@.take(j as int) =~= b@);
    r
}

fn sort_run(keys: &Vec<Vec<u32>>, items: &Vec<usize>, lo: usize, hi: usize) -> (r: Vec<usize>)
    requires
        lo <= hi <= items@.len(),
        in_range(items@, keys@.len()),
    ensures
        in_range(r@, keys@.len()),
        ascending(keys_of(keys@), r@),
        r@.to_multiset() == items@.subrange(lo as int, hi as int).to_multiset(),
    decreases hi - lo,
{
    if hi - lo <= 1 {
        let mut r: Vec<usize> = Vec::new();
        if lo < hi {
            r.push(items[lo]);
        }
        assert(r@ =~= items@.subrange(lo as int, hi as int));
        r
    } else {
        let mid: usize = lo + (hi - lo) / 2;
        let a = sort_run(keys, items, lo, mid);
        let b = sort_run(keys, items, mid, hi);
        proof {
            let left = items@.subrange(lo as int, mid as int);
            let right = items@.subrange(mid as int, hi as int);
            lemma_multiset_commutative(left, right);
            assert(items@.subrange(lo as int, hi as int) =~= left + right);
        }
        merge(keys, &a, &b)
    }
}

/// Finds the order in which the keys ascend, by merge sort.
pub fn sorted_positions(keys: &Vec<Vec<u32>>) -> (r: Vec<usize>)
    ensures
        permutes(r@, keys@.len()),
        ascending(keys_of(keys@), r@),
{
    let n: usize = keys.len();
    let mut items: Vec<usize> = Vec::new();
    let mut i: usize = 0;
    while i < n
        invariant
            i <= n,
            items@.len() == i,
            forall|k: int| 0 <= k < i ==> #[trigger] items@[k] == k,
        decreases n - i,
    {
        items.push(i);
        i = i + 1;
    }
    let r = sort_run(keys, &items, 0, n);
    proof {
        broadcast use group_to_multiset_ensures;

        assert(items@.subrange(0, n as int) =~= items@);
        assert(items@.no_duplicates());
        items@.lemma_multiset_has_no_duplicates();
        r@.lemma_multiset_has_no_duplicates_conv();
        assert(r@.to_multiset().len() == items@.to_multiset().len());
    }
    r
}

} // verus!
